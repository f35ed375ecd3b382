//! The wire value model.
//!
//! Every payload the client sends or receives is held as a `Json` value of
//! plain data. Serialization to wire text is specified exactly, character by
//! character; object member order is preserved, so the serialized form of a
//! value is unique.

use vstd::prelude::*;
use crate::text::{concat_map, dec_str, lemma_concat_map_step, lemma_concat_map_full, append_dec};

verus! {

broadcast use vstd::std_specs::vec::axiom_vec_index_decreases;

/// An untyped wire value. Numbers are modeled as 64-bit signed integers,
/// which covers every field this protocol core reads (ids, codes, counts).
#[derive(Debug, PartialEq, Eq)]
pub enum Json {
    Null,
    Bool(bool),
    Int(i64),
    Str(String),
    Arr(Vec<Json>),
    Obj(Vec<(String, Json)>),
}

/// The lower-case hex digit for `d` (0..16).
pub open spec fn hex_digit(d: nat) -> char {
    if d == 0 {
        '0'
    } else if d == 1 {
        '1'
    } else if d == 2 {
        '2'
    } else if d == 3 {
        '3'
    } else if d == 4 {
        '4'
    } else if d == 5 {
        '5'
    } else if d == 6 {
        '6'
    } else if d == 7 {
        '7'
    } else if d == 8 {
        '8'
    } else if d == 9 {
        '9'
    } else if d == 10 {
        'a'
    } else if d == 11 {
        'b'
    } else if d == 12 {
        'c'
    } else if d == 13 {
        'd'
    } else if d == 14 {
        'e'
    } else {
        'f'
    }
}

/// How one character appears inside a JSON string literal.
pub open spec fn esc_char(c: char) -> Seq<char> {
    if c == '"' {
        seq!['\\', '"']
    } else if c == '\\' {
        seq!['\\', '\\']
    } else if c == '\n' {
        seq!['\\', 'n']
    } else if c == '\r' {
        seq!['\\', 'r']
    } else if c == '\t' {
        seq!['\\', 't']
    } else if (c as u32) < 32 {
        seq!['\\', 'u', '0', '0', hex_digit((c as u32 / 16) as nat), hex_digit(
            (c as u32 % 16) as nat,
        )]
    } else {
        seq![c]
    }
}

/// The body of a JSON string literal for `s` (without the quotes).
pub open spec fn escaped(s: Seq<char>) -> Seq<char> {
    concat_map(s, |c: char| esc_char(c))
}

/// A JSON string literal for `s`, quotes included.
pub open spec fn quoted(s: Seq<char>) -> Seq<char> {
    seq!['"'] + escaped(s) + seq!['"']
}

/// The wire text of an integer.
pub open spec fn int_text(n: int) -> Seq<char> {
    if n < 0 {
        seq!['-'] + dec_str((-n) as nat)
    } else {
        dec_str(n as nat)
    }
}

/// The serialized text of a value.
pub open spec fn json_text(j: Json) -> Seq<char>
    decreases j, 0int,
{
    match j {
        Json::Null => "null"@,
        Json::Bool(b) => if b {
            "true"@
        } else {
            "false"@
        },
        Json::Int(n) => int_text(n as int),
        Json::Str(s) => quoted(s@),
        Json::Arr(items) => seq!['['] + arr_prefix_text(items, items.len() as int) + seq![']'],
        Json::Obj(fields) => seq!['{'] + obj_prefix_text(fields, fields.len() as int) + seq!['}'],
    }
}

/// The comma-separated text of the first `i` elements of `v`.
pub open spec fn arr_prefix_text(v: Vec<Json>, i: int) -> Seq<char>
    decreases v, i,
{
    if i <= 0 || i > v.len() {
        Seq::<char>::empty()
    } else if i == 1 {
        json_text(v[0])
    } else {
        arr_prefix_text(v, i - 1) + seq![','] + json_text(v[i - 1])
    }
}

/// The comma-separated text of the first `i` members of `v`.
pub open spec fn obj_prefix_text(v: Vec<(String, Json)>, i: int) -> Seq<char>
    decreases v, i,
{
    if i <= 0 || i > v.len() {
        Seq::<char>::empty()
    } else if i == 1 {
        quoted(v[0].0@) + seq![':'] + json_text(v[0].1)
    } else {
        obj_prefix_text(v, i - 1) + seq![','] + quoted(v[i - 1].0@) + seq![':'] + json_text(
            v[i - 1].1,
        )
    }
}

/// Appends the escaped body of a string literal for `s`.
#[verifier::loop_isolation(false)]
pub fn append_escaped(out: &mut String, s: &str)
    ensures
        final(out)@ == old(out)@ + escaped(s@),
{
    let ghost f = |c: char| esc_char(c);
    let n: usize = s.unicode_len();
    let mut i: usize = 0;
    proof {
        assert(concat_map(s@.take(0), f) =~= Seq::<char>::empty());
    }
    while i < n
        invariant
            n == s@.len(),
            i <= n,
            out@ == old(out)@ + concat_map(s@.take(i as int), f),
        decreases n - i,
    {
        let c: char = s.get_char(i);
        let code: u32 = c as u32;
        if c == '"' {
            out.append("\\\"");
        } else if c == '\\' {
            out.append("\\\\");
        } else if c == '\n' {
            out.append("\\n");
        } else if c == '\r' {
            out.append("\\r");
        } else if c == '\t' {
            out.append("\\t");
        } else if code < 32 {
            out.append("\\u00");
            let hi: u32 = code / 16;
            let lo: u32 = code % 16;
            let hc: char = if hi == 0 {
                '0'
            } else {
                '1'
            };
            let lc: char = if lo == 0 {
                '0'
            } else if lo == 1 {
                '1'
            } else if lo == 2 {
                '2'
            } else if lo == 3 {
                '3'
            } else if lo == 4 {
                '4'
            } else if lo == 5 {
                '5'
            } else if lo == 6 {
                '6'
            } else if lo == 7 {
                '7'
            } else if lo == 8 {
                '8'
            } else if lo == 9 {
                '9'
            } else if lo == 10 {
                'a'
            } else if lo == 11 {
                'b'
            } else if lo == 12 {
                'c'
            } else if lo == 13 {
                'd'
            } else if lo == 14 {
                'e'
            } else {
                'f'
            };
            crate::push_char(out, hc);
            crate::push_char(out, lc);
            proof {
                reveal_strlit("\\u00");
                assert(hc == hex_digit((code / 16) as nat));
                assert(lc == hex_digit((code % 16) as nat));
                assert("\\u00"@ + seq![hc] + seq![lc] =~= esc_char(c));
            }
        } else {
            crate::push_char(out, c);
        }
        proof {
            reveal_strlit("\\\"");
            reveal_strlit("\\\\");
            reveal_strlit("\\n");
            reveal_strlit("\\r");
            reveal_strlit("\\t");
            if c == '"' {
                assert("\\\""@ =~= esc_char(c));
            } else if c == '\\' {
                assert("\\\\"@ =~= esc_char(c));
            } else if c == '\n' {
                assert("\\n"@ =~= esc_char(c));
            } else if c == '\r' {
                assert("\\r"@ =~= esc_char(c));
            } else if c == '\t' {
                assert("\\t"@ =~= esc_char(c));
            } else if code >= 32 {
                assert(seq![c] =~= esc_char(c));
            }
            assert(c == s@[i as int]);
            assert(f(s@[i as int]) == esc_char(c));
            lemma_concat_map_step(s@, f, i as int);
            assert(out@ =~= old(out)@ + concat_map(s@.take(i as int + 1), f));
        }
        i = i + 1;
    }
    proof {
        lemma_concat_map_full(s@, f);
    }
}

/// Appends a JSON string literal for `s`, quotes included.
pub fn append_quoted(out: &mut String, s: &str)
    ensures
        final(out)@ == old(out)@ + quoted(s@),
{
    out.append("\"");
    append_escaped(out, s);
    out.append("\"");
    proof {
        reveal_strlit("\"");
        assert(old(out)@ + "\""@ + escaped(s@) + "\""@ =~= old(out)@ + quoted(s@));
    }
}

/// Appends the serialized text of `j`.
#[verifier::loop_isolation(false)]
pub fn append_json(out: &mut String, j: &Json)
    ensures
        final(out)@ == old(out)@ + json_text(*j),
    decreases *j,
{
    match j {
        Json::Null => {
            out.append("null");
        },
        Json::Bool(b) => {
            if *b {
                out.append("true");
            } else {
                out.append("false");
            }
        },
        Json::Int(n) => {
            if *n < 0 {
                out.append("-");
                let m: u64 = if *n == i64::MIN {
                    9223372036854775808u64
                } else {
                    (-*n) as u64
                };
                proof {
                    reveal_strlit("-");
                    assert(m == -(*n as int));
                }
                append_dec(out, m);
                proof {
                    assert(old(out)@ + "-"@ + dec_str(m as nat) =~= old(out)@ + int_text(
                        *n as int,
                    ));
                }
            } else {
                append_dec(out, *n as u64);
            }
        },
        Json::Str(s) => {
            append_quoted(out, s.as_str());
        },
        Json::Arr(items) => {
            out.append("[");
            let n: usize = items.len();
            let mut i: usize = 0;
            proof {
                reveal_strlit("[");
                assert(out@ =~= old(out)@ + seq!['['] + arr_prefix_text(*items, 0));
            }
            while i < n
                invariant
                    n == items.len(),
                    i <= n,
                    out@ == old(out)@ + seq!['['] + arr_prefix_text(*items, i as int),
                decreases n - i,
            {
                if i > 0 {
                    out.append(",");
                    proof {
                        reveal_strlit(",");
                    }
                }
                proof {
                    assert(decreases_to!(*j => *items));
                    assert(decreases_to!(*items => items@[i as int]));
                }
                append_json(out, &items[i]);
                proof {
                    assert(out@ =~= old(out)@ + seq!['['] + arr_prefix_text(
                        *items,
                        i as int + 1,
                    ));
                }
                i = i + 1;
            }
            out.append("]");
            proof {
                reveal_strlit("]");
                assert(out@ =~= old(out)@ + json_text(*j));
            }
        },
        Json::Obj(fields) => {
            out.append("{");
            let n: usize = fields.len();
            let mut i: usize = 0;
            proof {
                reveal_strlit("{");
                assert(out@ =~= old(out)@ + seq!['{'] + obj_prefix_text(*fields, 0));
            }
            while i < n
                invariant
                    n == fields.len(),
                    i <= n,
                    out@ == old(out)@ + seq!['{'] + obj_prefix_text(*fields, i as int),
                decreases n - i,
            {
                if i > 0 {
                    out.append(",");
                    proof {
                        reveal_strlit(",");
                    }
                }
                append_quoted(out, fields[i].0.as_str());
                out.append(":");
                proof {
                    reveal_strlit(":");
                }
                proof {
                    assert(decreases_to!(*j => *fields));
                    assert(decreases_to!(*fields => fields@[i as int]));
                    assert(decreases_to!(fields@[i as int] => fields@[i as int].1));
                }
                append_json(out, &fields[i].1);
                proof {
                    assert(out@ =~= old(out)@ + seq!['{'] + obj_prefix_text(
                        *fields,
                        i as int + 1,
                    ));
                }
                i = i + 1;
            }
            out.append("}");
            proof {
                reveal_strlit("}");
                assert(out@ =~= old(out)@ + json_text(*j));
            }
        },
    }
}

/// Serializes `j` to wire text.
pub fn to_text(j: &Json) -> (r: String)
    ensures
        r@ == json_text(*j),
{
    let mut out = String::new();
    append_json(&mut out, j);
    out
}

/// Whether two strings hold the same characters.
pub fn str_eq(a: &str, b: &str) -> (r: bool)
    ensures
        r == (a@ == b@),
{
    let la: usize = a.unicode_len();
    let lb: usize = b.unicode_len();
    if la != lb {
        return false;
    }
    let mut i: usize = 0;
    while i < la
        invariant
            la == a@.len(),
            la == b@.len(),
            i <= la,
            forall|k: int| 0 <= k < i ==> a@[k] == b@[k],
        decreases la - i,
    {
        if a.get_char(i) != b.get_char(i) {
            return false;
        }
        i = i + 1;
    }
    proof {
        assert(a@ =~= b@);
    }
    true
}

/// The first member of `fields` named `key`, if any.
pub open spec fn lookup(fields: Seq<(String, Json)>, key: Seq<char>) -> Option<Json>
    decreases fields.len(),
{
    if fields.len() == 0 {
        None
    } else if fields[0].0@ == key {
        Some(fields[0].1)
    } else {
        lookup(fields.drop_first(), key)
    }
}

/// Whether some member of `fields` is named `key`.
pub open spec fn has_key(fields: Seq<(String, Json)>, key: Seq<char>) -> bool {
    lookup(fields, key) is Some
}

/// Finds the first member named `key`.
pub fn obj_get<'a>(fields: &'a Vec<(String, Json)>, key: &str) -> (r: Option<&'a Json>)
    ensures
        match r {
            Some(v) => lookup(fields@, key@) == Some(*v),
            None => lookup(fields@, key@) is None,
        },
{
    let n: usize = fields.len();
    let mut i: usize = 0;
    proof {
        assert(fields@.skip(0) =~= fields@);
    }
    while i < n
        invariant
            n == fields.len(),
            i <= n,
            lookup(fields@, key@) == lookup(fields@.skip(i as int), key@),
        decreases n - i,
    {
        proof {
            assert(fields@.skip(i as int).drop_first() =~= fields@.skip(i as int + 1));
            assert(fields@.skip(i as int)[0] == fields@[i as int]);
        }
        if str_eq(fields[i].0.as_str(), key) {
            return Some(&fields[i].1);
        }
        i = i + 1;
    }
    proof {
        assert(fields@.skip(n as int).len() == 0);
    }
    None
}


/// Appending one member changes a lookup only where the key was absent.
pub proof fn lemma_lookup_snoc(s: Seq<(String, Json)>, e: (String, Json), k: Seq<char>)
    ensures
        lookup(s.push(e), k) == if lookup(s, k) is Some {
            lookup(s, k)
        } else if e.0@ == k {
            Some(e.1)
        } else {
            None::<Json>
        },
    decreases s.len(),
{
    let t = s.push(e);
    if s.len() == 0 {
        assert(t[0] == e);
        assert(t.drop_first() =~= Seq::<(String, Json)>::empty());
        assert(lookup(t.drop_first(), k) is None);
    } else {
        assert(t[0] == s[0]);
        assert(t.drop_first() =~= s.drop_first().push(e));
        lemma_lookup_snoc(s.drop_first(), e, k);
        if s[0].0@ != k {
            assert(lookup(t, k) == lookup(t.drop_first(), k));
            assert(lookup(s, k) == lookup(s.drop_first(), k));
        }
    }
}

} // verus!
