//! The schema document model and the type resolver.
//!
//! A schema document declares domains of commands, events and named types.
//! The resolver turns one type declaration into the text of a concrete type
//! expression: scalars map one to one, arrays require a resolvable item
//! type, references are qualified through an absolute or relative prefix,
//! a direct self-reference is broken by a heap box, and optionality is
//! applied last.

use vstd::prelude::*;
use crate::text::{concat_map, lemma_concat_map_step, lemma_concat_map_full};

verus! {

/// One type declaration: a named domain type, a parameter, a property or a
/// return value, depending on where it stands.
pub struct TypeDecl {
    /// Identifier, present only for named domain-level types.
    pub id: Option<String>,
    /// Primitive kind: `boolean|string|integer|number|array|object|any`.
    pub kind: Option<String>,
    /// Whether the value may be absent.
    pub optional: Option<bool>,
    /// Reference to a named type, absolute (`Domain.Type`) or relative.
    pub reference: Option<String>,
    /// Item type, for arrays.
    pub items: Option<Box<TypeDecl>>,
    /// Closed set of string enumeration values.
    pub enum_values: Option<Vec<String>>,
    /// Human description.
    pub description: Option<String>,
    /// Field name, when used as a parameter or property.
    pub name: Option<String>,
    /// Property declarations, for inline object types.
    pub properties: Option<Vec<TypeDecl>>,
}

/// A command a client may issue.
pub struct Command {
    pub name: String,
    pub description: Option<String>,
    pub parameters: Option<Vec<TypeDecl>>,
    pub returns: Option<Vec<TypeDecl>>,
}

/// An event a server may push.
pub struct Event {
    pub name: String,
    pub description: Option<String>,
    pub parameters: Option<Vec<TypeDecl>>,
}

/// A named grouping of commands, events and types.
pub struct Domain {
    pub name: String,
    pub commands: Vec<Command>,
    pub events: Option<Vec<Event>>,
    pub types: Option<Vec<TypeDecl>>,
}

/// A whole schema document, immutable once loaded.
pub struct SchemaDocument {
    pub domains: Vec<Domain>,
}

/// Whether `s` holds the character `c`.
pub open spec fn contains_char(s: Seq<char>, c: char) -> bool {
    exists|i: int| 0 <= i < s.len() && s[i] == c
}

/// `s` with every `.` replaced by `::`.
pub open spec fn replace_dots(s: Seq<char>) -> Seq<char> {
    concat_map(
        s,
        |c: char|
            if c == '.' {
                "::"@
            } else {
                seq![c]
            },
    )
}

/// `s` with every `-` replaced by `_`.
pub open spec fn dash_to_underscore(s: Seq<char>) -> Seq<char> {
    concat_map(
        s,
        |c: char|
            if c == '-' {
                seq!['_']
            } else {
                seq![c]
            },
    )
}

/// The resolved type expression for a declaration, or `None` when no type
/// can be determined.
///
/// `parent` is the identifier of the enclosing named type, when resolving
/// one of its properties: a resolved text equal to it is a direct
/// self-reference and is boxed, the only mechanism that keeps a recursive
/// type finitely sized. `abs` and `rel` qualify absolute and relative
/// references. The `optional` flag wraps the result last.
pub open spec fn resolve_text(
    decl: TypeDecl,
    parent: Option<Seq<char>>,
    abs: Seq<char>,
    rel: Seq<char>,
) -> Option<Seq<char>>
    decreases decl,
{
    let base = if decl.kind is Some {
        let t = decl.kind.unwrap()@;
        if t == "boolean"@ {
            Some("bool"@)
        } else if t == "string"@ {
            Some("String"@)
        } else if t == "integer"@ {
            Some("i64"@)
        } else if t == "number"@ {
            Some("f64"@)
        } else if t == "any"@ || t == "object"@ {
            Some("JsonValue"@)
        } else if t == "array"@ {
            match decl.items {
                Some(it) => match resolve_text(*it, None, abs, rel) {
                    Some(inner) => Some("Vec<"@ + inner + ">"@),
                    None => None,
                },
                None => None,
            }
        } else {
            None
        }
    } else if decl.reference is Some {
        let r = decl.reference.unwrap()@;
        if contains_char(r, '.') {
            Some(abs + replace_dots(r))
        } else {
            Some(rel + r)
        }
    } else {
        None
    };
    match base {
        None => None,
        Some(s) => {
            let boxed = if parent == Some(s) {
                "Box<"@ + s + ">"@
            } else {
                s
            };
            if decl.optional == Some(true) {
                Some("Option<"@ + boxed + ">"@)
            } else {
                Some(boxed)
            }
        },
    }
}

/// The view of an optional string slice.
pub open spec fn opt_str_view(p: Option<&str>) -> Option<Seq<char>> {
    match p {
        Some(s) => Some(s@),
        None => None,
    }
}

/// Appends `s` with every `.` replaced by `::`.
#[verifier::loop_isolation(false)]
pub fn append_replace_dots(out: &mut String, s: &str)
    ensures
        final(out)@ == old(out)@ + replace_dots(s@),
{
    let ghost f = |c: char|
        if c == '.' {
            "::"@
        } else {
            seq![c]
        };
    let n: usize = s.unicode_len();
    let mut i: usize = 0;
    proof {
        assert(concat_map(s@.take(0), f) =~= Seq::<char>::empty());
    }
    while i < n
        invariant
            i <= n,
            out@ == old(out)@ + concat_map(s@.take(i as int), f),
        decreases n - i,
    {
        let c: char = s.get_char(i);
        if c == '.' {
            out.append("::");
        } else {
            crate::push_char(out, c);
        }
        proof {
            if c != '.' {
                assert(seq![c] =~= f(s@[i as int]));
            }
            lemma_concat_map_step(s@, f, i as int);
            assert(out@ =~= old(out)@ + concat_map(s@.take(i as int + 1), f));
        }
        i = i + 1;
    }
    proof {
        lemma_concat_map_full(s@, f);
    }
}

/// Appends `s` with every `-` replaced by `_`.
#[verifier::loop_isolation(false)]
pub fn append_dash_to_underscore(out: &mut String, s: &str)
    ensures
        final(out)@ == old(out)@ + dash_to_underscore(s@),
{
    let ghost f = |c: char|
        if c == '-' {
            seq!['_']
        } else {
            seq![c]
        };
    let n: usize = s.unicode_len();
    let mut i: usize = 0;
    proof {
        assert(concat_map(s@.take(0), f) =~= Seq::<char>::empty());
    }
    while i < n
        invariant
            i <= n,
            out@ == old(out)@ + concat_map(s@.take(i as int), f),
        decreases n - i,
    {
        let c: char = s.get_char(i);
        if c == '-' {
            crate::push_char(out, '_');
            proof {
                assert(seq!['_'] =~= f(s@[i as int]));
            }
        } else {
            crate::push_char(out, c);
            proof {
                assert(seq![c] =~= f(s@[i as int]));
            }
        }
        proof {
            lemma_concat_map_step(s@, f, i as int);
            assert(out@ =~= old(out)@ + concat_map(s@.take(i as int + 1), f));
        }
        i = i + 1;
    }
    proof {
        lemma_concat_map_full(s@, f);
    }
}

/// Whether `s` holds the character `c`.
#[verifier::loop_isolation(false)]
pub fn str_contains_char(s: &str, c: char) -> (r: bool)
    ensures
        r == contains_char(s@, c),
{
    let n: usize = s.unicode_len();
    let mut i: usize = 0;
    while i < n
        invariant
            i <= n,
            forall|k: int| 0 <= k < i ==> s@[k] != c,
        decreases n - i,
    {
        if s.get_char(i) == c {
            return true;
        }
        i = i + 1;
    }
    false
}

/// Resolves a declaration to the text of its type expression, exactly as
/// [`resolve_text`] specifies; `None` is a resolution failure.
pub fn resolve_type_text(decl: &TypeDecl, parent: Option<&str>, abs: &str, rel: &str) -> (r:
    Option<String>)
    ensures
        r is Some <==> resolve_text(*decl, opt_str_view(parent), abs@, rel@) is Some,
        r matches Some(s) ==> s@ == resolve_text(*decl, opt_str_view(parent), abs@, rel@).unwrap(),
    decreases *decl,
{
    let base: Option<String> = if let Some(t) = &decl.kind {
        if crate::json::str_eq(t.as_str(), "boolean") {
            Some(String::from_str("bool"))
        } else if crate::json::str_eq(t.as_str(), "string") {
            Some(String::from_str("String"))
        } else if crate::json::str_eq(t.as_str(), "integer") {
            Some(String::from_str("i64"))
        } else if crate::json::str_eq(t.as_str(), "number") {
            Some(String::from_str("f64"))
        } else if crate::json::str_eq(t.as_str(), "any") || crate::json::str_eq(
            t.as_str(),
            "object",
        ) {
            Some(String::from_str("JsonValue"))
        } else if crate::json::str_eq(t.as_str(), "array") {
            if let Some(it) = &decl.items {
                proof {
                    assert(decreases_to!(*decl => decl.items));
                    assert(decreases_to!(decl.items => *it));
                }
                match resolve_type_text(&*it, None, abs, rel) {
                    Some(inner) => {
                        let mut s = String::from_str("Vec<");
                        s.append(inner.as_str());
                        s.append(">");
                        proof {
                            assert(s@ =~= "Vec<"@ + inner@ + ">"@);
                        }
                        Some(s)
                    },
                    None => None,
                }
            } else {
                None
            }
        } else {
            None
        }
    } else if let Some(rf) = &decl.reference {
        if str_contains_char(rf.as_str(), '.') {
            let mut s = String::from_str(abs);
            append_replace_dots(&mut s, rf.as_str());
            Some(s)
        } else {
            let mut s = String::from_str(rel);
            s.append(rf.as_str());
            Some(s)
        }
    } else {
        None
    };
    match base {
        None => None,
        Some(s) => {
            let is_self = match parent {
                Some(p) => crate::json::str_eq(s.as_str(), p),
                None => false,
            };
            let boxed: String = if is_self {
                let mut b = String::from_str("Box<");
                b.append(s.as_str());
                b.append(">");
                proof {
                    assert(b@ =~= "Box<"@ + s@ + ">"@);
                }
                b
            } else {
                s
            };
            let is_optional = match decl.optional {
                Some(b) => b,
                None => false,
            };
            if is_optional {
                let mut o = String::from_str("Option<");
                o.append(boxed.as_str());
                o.append(">");
                proof {
                    assert(o@ =~= "Option<"@ + boxed@ + ">"@);
                }
                Some(o)
            } else {
                Some(boxed)
            }
        },
    }
}

/// Law: a direct self-reference is emitted behind a heap box. A property
/// whose bare relative reference names its enclosing type resolves to
/// exactly that name boxed, wrapped as optional only when so marked, so the
/// generated definition is finitely sized.
pub proof fn lemma_self_reference_boxed(decl: TypeDecl, p: Seq<char>, abs: Seq<char>)
    requires
        decl.kind is None,
        decl.reference matches Some(r) && r@ == p,
        !contains_char(p, '.'),
    ensures
        resolve_text(decl, Some(p), abs, Seq::<char>::empty()) == Some(
            if decl.optional == Some(true) {
                "Option<"@ + "Box<"@ + p + ">"@ + ">"@
            } else {
                "Box<"@ + p + ">"@
            },
        ),
{
    assert(Seq::<char>::empty() + p =~= p);
}

} // verus!
