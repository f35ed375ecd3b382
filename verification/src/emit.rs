//! The binding emitter.
//!
//! Reads a schema document and produces the source text of the typed
//! bindings: per-domain type declarations, request and return wrapper
//! types, an API trait with one operation per command, a binding of that
//! trait to the client, and one closed event enumeration spanning all
//! domains. The emitted text is a function of the document alone, so
//! generation is deterministic; every generation-time failure (a type
//! without an identifier, a nameless property or parameter, an
//! unresolvable return or parameter type) is fatal and yields an error for
//! the whole run.

use vstd::prelude::*;
use crate::schema::{
    TypeDecl, Command, Event, Domain, SchemaDocument, resolve_text, dash_to_underscore,
    append_dash_to_underscore, resolve_type_text,
};
use crate::text::{
    concat_map, concat_map_opt, lemma_concat_map_step, lemma_concat_map_full,
    lemma_concat_map_opt_step, lemma_concat_map_opt_full, lemma_concat_map_opt_fail,
};

verus! {

/// A fatal generation failure: the schema declares something no type or
/// name can be emitted for.
#[derive(Debug, PartialEq, Eq)]
pub struct GenError;

/// A doc-comment line for an optional description, at the given indent.
pub open spec fn desc_text(indent: Seq<char>, d: Option<String>) -> Seq<char> {
    match d {
        Some(s) => indent + "/// "@ + s@ + "\n"@,
        None => Seq::<char>::empty(),
    }
}

/// Appends a doc-comment line when a description is present.
pub fn append_desc(out: &mut String, indent: &str, d: &Option<String>)
    ensures
        final(out)@ == old(out)@ + desc_text(indent@, *d),
{
    match d {
        Some(s) => {
            out.append(indent);
            out.append("/// ");
            out.append(s.as_str());
            out.append("\n");
            proof {
                assert(out@ =~= old(out)@ + desc_text(indent@, *d));
            }
        },
        None => {
        },
    }
}

/// One variant of an emitted enumeration: the wire string is kept exactly
/// in a rename attribute, the identifier replaces `-` by `_`.
pub open spec fn variant_text(v: String) -> Seq<char> {
    "            #[serde(rename = \""@ + v@ + "\")]\n"@ + "            _"@ + dash_to_underscore(
        v@,
    ) + ",\n"@
}

/// The emitted closed enumeration for a type with declared `enum` values;
/// fails when the type has no identifier.
pub open spec fn enum_decl_text(dtype: TypeDecl) -> Option<Seq<char>> {
    match (dtype.id, dtype.enum_values) {
        (Some(id), Some(vs)) => Some(
            desc_text("    "@, dtype.description)
                + "        #[derive(Deserialize, Debug, Serialize)]\n"@ + "        pub enum "@
                + id@ + " {\n"@ + concat_map(vs@, |v: String| variant_text(v)) + "        }\n"@,
        ),
        _ => None,
    }
}

/// Appends the enumeration for a type with `enum` values.
#[verifier::loop_isolation(false)]
fn append_enum_decl(out: &mut String, dtype: &TypeDecl) -> (r: Result<(), GenError>)
    requires
        dtype.enum_values is Some,
    ensures
        r is Ok <==> enum_decl_text(*dtype) is Some,
        r is Ok ==> final(out)@ == old(out)@ + enum_decl_text(*dtype).unwrap(),
{
    let vs = match &dtype.enum_values {
        Some(vs) => vs,
        None => {
            return Err(GenError);
        },
    };
    let id = match &dtype.id {
        Some(id) => id,
        None => {
            return Err(GenError);
        },
    };
    let ghost f = |v: String| variant_text(v);
    append_desc(out, "    ", &dtype.description);
    out.append("        #[derive(Deserialize, Debug, Serialize)]\n");
    out.append("        pub enum ");
    out.append(id.as_str());
    out.append(" {\n");
    let ghost head = out@;
    let n: usize = vs.len();
    let mut i: usize = 0;
    proof {
        assert(concat_map(vs@.take(0), f) =~= Seq::<char>::empty());
    }
    while i < n
        invariant
            i <= n,
            out@ == head + concat_map(vs@.take(i as int), f),
        decreases n - i,
    {
        out.append("            #[serde(rename = \"");
        out.append(vs[i].as_str());
        out.append("\")]\n");
        out.append("            _");
        append_dash_to_underscore(out, vs[i].as_str());
        out.append(",\n");
        proof {
            lemma_concat_map_step(vs@, f, i as int);
            assert(out@ =~= head + concat_map(vs@.take(i as int + 1), f));
        }
        i = i + 1;
    }
    out.append("        }\n");
    proof {
        lemma_concat_map_full(vs@, f);
        assert(out@ =~= old(out)@ + enum_decl_text(*dtype).unwrap());
    }
    Ok(())
}

/// One emitted property of a named aggregate type: fails when the property
/// has no name; a property whose type does not resolve is silently dropped.
pub open spec fn prop_text(parent: Seq<char>, p: TypeDecl) -> Option<Seq<char>> {
    match p.name {
        None => None,
        Some(nm) => match resolve_text(p, Some(parent), "super::"@, ""@) {
            None => Some(Seq::<char>::empty()),
            Some(t) => Some(
                "        #[serde(rename = \""@ + nm@ + "\")]\n"@ + "        pub _"@ + nm@ + ": "@
                    + t + ",\n"@,
            ),
        },
    }
}

/// The emitted aggregate type for a declaration with `properties`; fails
/// when the type has no identifier or a property has no name.
pub open spec fn struct_decl_text(dtype: TypeDecl) -> Option<Seq<char>> {
    match (dtype.id, dtype.properties) {
        (Some(id), Some(props)) => match concat_map_opt(
            props@,
            |p: TypeDecl| prop_text(id@, p),
        ) {
            Some(body) => Some(
                desc_text("    "@, dtype.description)
                    + "    #[derive(Deserialize, Debug, Serialize)]\n"@ + "    pub struct "@ + id@
                    + " {\n"@ + body + "    }\n"@,
            ),
            None => None,
        },
        _ => None,
    }
}

/// Appends one emitted property of a named aggregate type.
fn append_prop_field(out: &mut String, id: &str, p: &TypeDecl) -> (r: Result<(), GenError>)
    ensures
        r is Ok <==> prop_text(id@, *p) is Some,
        r is Ok ==> final(out)@ == old(out)@ + prop_text(id@, *p).unwrap(),
{
    let nm = match &p.name {
        Some(nm) => nm,
        None => {
            return Err(GenError);
        },
    };
    match resolve_type_text(p, Some(id), "super::", "") {
        Some(t) => {
            out.append("        #[serde(rename = \"");
            out.append(nm.as_str());
            out.append("\")]\n");
            out.append("        pub _");
            out.append(nm.as_str());
            out.append(": ");
            out.append(t.as_str());
            out.append(",\n");
            proof {
                assert(out@ =~= old(out)@ + prop_text(id@, *p).unwrap());
            }
        },
        None => {
            proof {
                assert(old(out)@ + prop_text(id@, *p).unwrap() =~= old(out)@);
            }
        },
    }
    Ok(())
}

/// Appends the aggregate type for a declaration with `properties`.
#[verifier::loop_isolation(false)]
#[verifier::rlimit(100)]
fn append_struct_decl(out: &mut String, dtype: &TypeDecl) -> (r: Result<(), GenError>)
    requires
        dtype.properties is Some,
    ensures
        r is Ok <==> struct_decl_text(*dtype) is Some,
        r is Ok ==> final(out)@ == old(out)@ + struct_decl_text(*dtype).unwrap(),
{
    let props = match &dtype.properties {
        Some(props) => props,
        None => {
            return Err(GenError);
        },
    };
    let id = match &dtype.id {
        Some(id) => id,
        None => {
            return Err(GenError);
        },
    };
    let ghost f = |p: TypeDecl| prop_text(id@, p);
    append_desc(out, "    ", &dtype.description);
    out.append("    #[derive(Deserialize, Debug, Serialize)]\n");
    out.append("    pub struct ");
    out.append(id.as_str());
    out.append(" {\n");
    let ghost head = out@;
    let n: usize = props.len();
    let mut i: usize = 0;
    proof {
        assert(head + Seq::<char>::empty() =~= head);
    }
    while i < n
        invariant
            i <= n,
            concat_map_opt(props@.take(i as int), f) is Some,
            out@ == head + concat_map_opt(props@.take(i as int), f).unwrap(),
        decreases n - i,
    {
        match append_prop_field(out, id.as_str(), &props[i]) {
            Ok(()) => {
            },
            Err(e) => {
                proof {
                    lemma_concat_map_opt_fail(props@, f, i as int);
                }
                return Err(e);
            },
        }
        proof {
            lemma_concat_map_opt_step(props@, f, i as int);
            assert(out@ =~= head + concat_map_opt(props@.take(i as int + 1), f).unwrap());
        }
        i = i + 1;
    }
    out.append("    }\n");
    proof {
        lemma_concat_map_opt_full(props@, f);
        assert(out@ =~= old(out)@ + struct_decl_text(*dtype).unwrap());
    }
    Ok(())
}

/// The emitted alias for a type that is neither an enumeration nor an
/// aggregate: its resolved type, or the opaque JSON value when nothing
/// resolves; fails when the type has no identifier.
pub open spec fn alias_text(dtype: TypeDecl) -> Option<Seq<char>> {
    match dtype.id {
        None => None,
        Some(id) => Some(
            "    pub type "@ + id@ + " = "@ + match resolve_text(dtype, None, "super::"@, ""@) {
                Some(t) => t,
                None => "JsonValue"@,
            } + ";\n"@,
        ),
    }
}

/// Appends the alias for a plain named type.
fn append_alias(out: &mut String, dtype: &TypeDecl) -> (r: Result<(), GenError>)
    ensures
        r is Ok <==> alias_text(*dtype) is Some,
        r is Ok ==> final(out)@ == old(out)@ + alias_text(*dtype).unwrap(),
{
    let id = match &dtype.id {
        Some(id) => id,
        None => {
            return Err(GenError);
        },
    };
    out.append("    pub type ");
    out.append(id.as_str());
    out.append(" = ");
    match resolve_type_text(dtype, None, "super::", "") {
        Some(t) => out.append(t.as_str()),
        None => out.append("JsonValue"),
    }
    out.append(";\n");
    proof {
        assert(out@ =~= old(out)@ + alias_text(*dtype).unwrap());
    }
    Ok(())
}

/// The emitted declaration for one named domain type.
pub open spec fn type_decl_text(dtype: TypeDecl) -> Option<Seq<char>> {
    if dtype.enum_values is Some {
        enum_decl_text(dtype)
    } else if dtype.properties is Some {
        struct_decl_text(dtype)
    } else {
        alias_text(dtype)
    }
}

/// Appends the declaration for one named domain type.
fn append_type_decl(out: &mut String, dtype: &TypeDecl) -> (r: Result<(), GenError>)
    ensures
        r is Ok <==> type_decl_text(*dtype) is Some,
        r is Ok ==> final(out)@ == old(out)@ + type_decl_text(*dtype).unwrap(),
{
    if dtype.enum_values.is_some() {
        append_enum_decl(out, dtype)
    } else if dtype.properties.is_some() {
        append_struct_decl(out, dtype)
    } else {
        append_alias(out, dtype)
    }
}

/// Whether a command declares at least one return value.
pub open spec fn has_returns(cmd: Command) -> bool {
    cmd.returns matches Some(rs) && rs@.len() > 0
}

/// The name of a command's return type: a synthesized wrapper when it
/// declares return values, the `Nothing` sentinel otherwise.
pub open spec fn return_type_name(cmd: Command) -> Seq<char> {
    if has_returns(cmd) {
        "ReturnType_"@ + cmd.name@
    } else {
        "Nothing"@
    }
}

/// Appends the name of a command's return type.
fn append_return_type_name(out: &mut String, cmd: &Command)
    ensures
        final(out)@ == old(out)@ + return_type_name(*cmd),
{
    let mut named = false;
    if let Some(rs) = &cmd.returns {
        if rs.len() > 0 {
            out.append("ReturnType_");
            out.append(cmd.name.as_str());
            named = true;
        }
    }
    if !named {
        out.append("Nothing");
    }
}

/// The name of a command's request wrapper: synthesized when it declares
/// parameters, the `Nothing` sentinel otherwise.
pub open spec fn request_type_name(cmd: Command) -> Seq<char> {
    if cmd.parameters is Some {
        "Request_"@ + cmd.name@
    } else {
        "Nothing"@
    }
}

/// One emitted field of a return wrapper; fails when the return value has
/// no name or its type does not resolve.
pub open spec fn return_field_text(r: TypeDecl) -> Option<Seq<char>> {
    match r.name {
        None => None,
        Some(nm) => match resolve_text(r, None, "super::"@, ""@) {
            None => None,
            Some(t) => Some(
                "        #[serde(rename = \""@ + nm@ + "\")]\n"@ + "        pub "@ + nm@ + ": "@
                    + t + ",\n"@,
            ),
        },
    }
}

/// The emitted return wrapper for a command, empty when it declares no
/// return values.
pub open spec fn return_struct_text(cmd: Command) -> Option<Seq<char>> {
    if !has_returns(cmd) {
        Some(Seq::<char>::empty())
    } else {
        match concat_map_opt(cmd.returns.unwrap()@, |r: TypeDecl| return_field_text(r)) {
            Some(body) => Some(
                "    #[derive(Deserialize, Debug)]\n"@ + "    pub struct ReturnType_"@ + cmd.name@
                    + " {\n"@ + body + "    }\n"@,
            ),
            None => None,
        }
    }
}

/// Appends one emitted return-wrapper field.
fn append_return_field(out: &mut String, rf: &TypeDecl) -> (r: Result<(), GenError>)
    ensures
        r is Ok <==> return_field_text(*rf) is Some,
        r is Ok ==> final(out)@ == old(out)@ + return_field_text(*rf).unwrap(),
{
    let nm = match &rf.name {
        Some(nm) => nm,
        None => {
            return Err(GenError);
        },
    };
    let t = match resolve_type_text(rf, None, "super::", "") {
        Some(t) => t,
        None => {
            return Err(GenError);
        },
    };
    out.append("        #[serde(rename = \"");
    out.append(nm.as_str());
    out.append("\")]\n");
    out.append("        pub ");
    out.append(nm.as_str());
    out.append(": ");
    out.append(t.as_str());
    out.append(",\n");
    proof {
        assert(out@ =~= old(out)@ + return_field_text(*rf).unwrap());
    }
    Ok(())
}

/// Appends the return wrapper for a command.
#[verifier::loop_isolation(false)]
#[verifier::rlimit(100)]
fn append_return_struct(out: &mut String, cmd: &Command) -> (r: Result<(), GenError>)
    ensures
        r is Ok <==> return_struct_text(*cmd) is Some,
        r is Ok ==> final(out)@ == old(out)@ + return_struct_text(*cmd).unwrap(),
{
    let rs = match &cmd.returns {
        Some(rs) => rs,
        None => {
            return Ok(());
        },
    };
    if rs.len() == 0 {
        return Ok(());
    }
    let ghost f = |r: TypeDecl| return_field_text(r);
    out.append("    #[derive(Deserialize, Debug)]\n");
    out.append("    pub struct ReturnType_");
    out.append(cmd.name.as_str());
    out.append(" {\n");
    let ghost head = out@;
    let n: usize = rs.len();
    let mut i: usize = 0;
    proof {
        assert(head + Seq::<char>::empty() =~= head);
    }
    while i < n
        invariant
            i <= n,
            concat_map_opt(rs@.take(i as int), f) is Some,
            out@ == head + concat_map_opt(rs@.take(i as int), f).unwrap(),
        decreases n - i,
    {
        match append_return_field(out, &rs[i]) {
            Ok(()) => {
            },
            Err(e) => {
                proof {
                    lemma_concat_map_opt_fail(rs@, f, i as int);
                }
                return Err(e);
            },
        }
        proof {
            lemma_concat_map_opt_step(rs@, f, i as int);
            assert(out@ =~= head + concat_map_opt(rs@.take(i as int + 1), f).unwrap());
        }
        i = i + 1;
    }
    out.append("    }\n");
    proof {
        lemma_concat_map_opt_full(rs@, f);
        assert(out@ =~= old(out)@ + return_struct_text(*cmd).unwrap());
    }
    Ok(())
}

/// One emitted field of a request wrapper. A field marked optional gets
/// the attribute that omits it from the serialized object when unset —
/// never an explicit null; all other fields are always serialized. Fails
/// when the parameter has no name or its type does not resolve.
pub open spec fn param_field_text(p: TypeDecl) -> Option<Seq<char>> {
    match p.name {
        None => None,
        Some(nm) => match resolve_text(p, None, "super::"@, ""@) {
            None => None,
            Some(t) => Some(
                desc_text("        "@, p.description) + "        #[serde(rename = \""@ + nm@
                    + "\")]\n"@ + (if p.optional == Some(true) {
                    "        #[serde(skip_serializing_if = \"Option::is_none\")]\n"@
                } else {
                    Seq::<char>::empty()
                }) + "        _"@ + nm@ + ": "@ + t + ",\n"@,
            ),
        },
    }
}

/// The emitted request wrapper for a command, empty when it declares no
/// parameters.
pub open spec fn request_struct_text(cmd: Command) -> Option<Seq<char>> {
    match cmd.parameters {
        None => Some(Seq::<char>::empty()),
        Some(ps) => match concat_map_opt(ps@, |p: TypeDecl| param_field_text(p)) {
            Some(body) => Some(
                "    #[derive(Serialize, Debug)]\n    struct Request_"@ + cmd.name@ + " {\n"@
                    + body + "    }\n"@,
            ),
            None => None,
        },
    }
}

/// Appends one emitted request-wrapper field.
fn append_param_field(out: &mut String, p: &TypeDecl) -> (r: Result<(), GenError>)
    ensures
        r is Ok <==> param_field_text(*p) is Some,
        r is Ok ==> final(out)@ == old(out)@ + param_field_text(*p).unwrap(),
{
    let nm = match &p.name {
        Some(nm) => nm,
        None => {
            return Err(GenError);
        },
    };
    let t = match resolve_type_text(p, None, "super::", "") {
        Some(t) => t,
        None => {
            return Err(GenError);
        },
    };
    append_desc(out, "        ", &p.description);
    out.append("        #[serde(rename = \"");
    out.append(nm.as_str());
    out.append("\")]\n");
    let optional = match p.optional {
        Some(b) => b,
        None => false,
    };
    if optional {
        out.append("        #[serde(skip_serializing_if = \"Option::is_none\")]\n");
    }
    out.append("        _");
    out.append(nm.as_str());
    out.append(": ");
    out.append(t.as_str());
    out.append(",\n");
    proof {
        assert(out@ =~= old(out)@ + param_field_text(*p).unwrap());
    }
    Ok(())
}

/// Appends the request wrapper for a command.
#[verifier::loop_isolation(false)]
fn append_request_struct(out: &mut String, cmd: &Command) -> (r: Result<(), GenError>)
    ensures
        r is Ok <==> request_struct_text(*cmd) is Some,
        r is Ok ==> final(out)@ == old(out)@ + request_struct_text(*cmd).unwrap(),
{
    let ps = match &cmd.parameters {
        Some(ps) => ps,
        None => {
            return Ok(());
        },
    };
    let ghost f = |p: TypeDecl| param_field_text(p);
    out.append("    #[derive(Serialize, Debug)]\n    struct Request_");
    out.append(cmd.name.as_str());
    out.append(" {\n");
    let ghost head = out@;
    let n: usize = ps.len();
    let mut i: usize = 0;
    proof {
        assert(head + Seq::<char>::empty() =~= head);
    }
    while i < n
        invariant
            i <= n,
            concat_map_opt(ps@.take(i as int), f) is Some,
            out@ == head + concat_map_opt(ps@.take(i as int), f).unwrap(),
        decreases n - i,
    {
        match append_param_field(out, &ps[i]) {
            Ok(()) => {
            },
            Err(e) => {
                proof {
                    lemma_concat_map_opt_fail(ps@, f, i as int);
                }
                return Err(e);
            },
        }
        proof {
            lemma_concat_map_opt_step(ps@, f, i as int);
            assert(out@ =~= head + concat_map_opt(ps@.take(i as int + 1), f).unwrap());
        }
        i = i + 1;
    }
    out.append("    }\n");
    proof {
        lemma_concat_map_opt_full(ps@, f);
        assert(out@ =~= old(out)@ + request_struct_text(*cmd).unwrap());
    }
    Ok(())
}

/// One positional operation parameter in a contract signature.
pub open spec fn param_sig_text(p: TypeDecl) -> Option<Seq<char>> {
    match p.name {
        None => None,
        Some(nm) => match resolve_text(p, None, "super::"@, ""@) {
            None => None,
            Some(t) => Some(", _"@ + nm@ + ": "@ + t),
        },
    }
}

/// The positional parameter list of one operation, after `&mut self`.
pub open spec fn params_sig_text(cmd: Command) -> Option<Seq<char>> {
    match cmd.parameters {
        None => Some(Seq::<char>::empty()),
        Some(ps) => concat_map_opt(ps@, |p: TypeDecl| param_sig_text(p)),
    }
}

/// Appends the positional parameter list of one operation.
#[verifier::loop_isolation(false)]
fn append_params_sig(out: &mut String, cmd: &Command) -> (r: Result<(), GenError>)
    ensures
        r is Ok <==> params_sig_text(*cmd) is Some,
        r is Ok ==> final(out)@ == old(out)@ + params_sig_text(*cmd).unwrap(),
{
    let ps = match &cmd.parameters {
        Some(ps) => ps,
        None => {
            return Ok(());
        },
    };
    let ghost f = |p: TypeDecl| param_sig_text(p);
    let ghost head = out@;
    let n: usize = ps.len();
    let mut i: usize = 0;
    proof {
        assert(head + Seq::<char>::empty() =~= head);
    }
    while i < n
        invariant
            i <= n,
            concat_map_opt(ps@.take(i as int), f) is Some,
            out@ == head + concat_map_opt(ps@.take(i as int), f).unwrap(),
        decreases n - i,
    {
        let nm = match &ps[i].name {
            Some(nm) => nm,
            None => {
                proof {
                    lemma_concat_map_opt_fail(ps@, f, i as int);
                }
                return Err(GenError);
            },
        };
        let t = match resolve_type_text(&ps[i], None, "super::", "") {
            Some(t) => t,
            None => {
                proof {
                    lemma_concat_map_opt_fail(ps@, f, i as int);
                }
                return Err(GenError);
            },
        };
        out.append(", _");
        out.append(nm.as_str());
        out.append(": ");
        out.append(t.as_str());
        proof {
            lemma_concat_map_opt_step(ps@, f, i as int);
            assert(out@ =~= head + concat_map_opt(ps@.take(i as int + 1), f).unwrap());
        }
        i = i + 1;
    }
    proof {
        lemma_concat_map_opt_full(ps@, f);
    }
    Ok(())
}

/// One operation of a domain's API contract.
pub open spec fn trait_method_text(c: Command) -> Option<Seq<char>> {
    match params_sig_text(c) {
        None => None,
        Some(sig) => Some(
            desc_text("        "@, c.description) + "        fn "@ + c.name@ + "(&mut self"@ + sig
                + ") -> Result<"@ + return_type_name(c) + ", ClientError>;\n"@,
        ),
    }
}

/// The domain's API contract: one operation per command.
pub open spec fn trait_text(d: Domain) -> Option<Seq<char>> {
    match concat_map_opt(d.commands@, |c: Command| trait_method_text(c)) {
        None => None,
        Some(body) => Some("    pub trait "@ + d.name@ + "Api {\n"@ + body + "    }\n"@),
    }
}

/// The positional arguments packed into a request wrapper literal: the
/// first `i` parameter names, comma-separated.
pub open spec fn args_prefix(ps: Seq<TypeDecl>, i: int) -> Option<Seq<char>>
    decreases i,
{
    if i <= 0 || i > ps.len() {
        Some(Seq::<char>::empty())
    } else {
        match (args_prefix(ps, i - 1), ps[i - 1].name) {
            (Some(a), Some(nm)) => Some(
                a + if i == 1 {
                    "_"@ + nm@
                } else {
                    ",_"@ + nm@
                },
            ),
            _ => None,
        }
    }
}

/// A failed prefix never recovers.
proof fn lemma_args_prefix_none(ps: Seq<TypeDecl>, i: int, j: int)
    requires
        0 <= i <= j <= ps.len(),
        args_prefix(ps, i) is None,
    ensures
        args_prefix(ps, j) is None,
    decreases j - i,
{
    if j > i {
        lemma_args_prefix_none(ps, i, j - 1);
    }
}

/// The full argument list of one operation.
pub open spec fn args_text(cmd: Command) -> Option<Seq<char>> {
    match cmd.parameters {
        None => Some(Seq::<char>::empty()),
        Some(ps) => args_prefix(ps@, ps@.len() as int),
    }
}

/// Appends the argument list packed into the request wrapper literal.
#[verifier::loop_isolation(false)]
fn append_args(out: &mut String, cmd: &Command) -> (r: Result<(), GenError>)
    ensures
        r is Ok <==> args_text(*cmd) is Some,
        r is Ok ==> final(out)@ == old(out)@ + args_text(*cmd).unwrap(),
{
    let ps = match &cmd.parameters {
        Some(ps) => ps,
        None => {
            return Ok(());
        },
    };
    let ghost head = out@;
    let n: usize = ps.len();
    let mut i: usize = 0;
    proof {
        assert(head + Seq::<char>::empty() =~= head);
    }
    while i < n
        invariant
            i <= n,
            args_prefix(ps@, i as int) is Some,
            out@ == head + args_prefix(ps@, i as int).unwrap(),
        decreases n - i,
    {
        let nm = match &ps[i].name {
            Some(nm) => nm,
            None => {
                proof {
                    lemma_args_prefix_none(ps@, i as int + 1, ps@.len() as int);
                }
                return Err(GenError);
            },
        };
        if i == 0 {
            out.append("_");
        } else {
            out.append(",_");
        }
        out.append(nm.as_str());
        proof {
            assert(out@ =~= head + args_prefix(ps@, i as int + 1).unwrap());
        }
        i = i + 1;
    }
    Ok(())
}

/// One operation of the binding: packs its positional arguments into the
/// request wrapper and delegates to the client under the fully qualified
/// `"Domain.command"` method name.
pub open spec fn impl_method_text(dn: Seq<char>, c: Command) -> Option<Seq<char>> {
    match (params_sig_text(c), args_text(c)) {
        (Some(sig), Some(args)) => Some(
            "        fn "@ + c.name@ + "(&mut self"@ + sig + ") -> Result<"@ + return_type_name(c)
                + ", ClientError> {\n"@ + "            self.call(\""@ + dn + "."@ + c.name@
                + "\", "@ + request_type_name(c) + " {"@ + args + "})\n"@ + "        }\n"@,
        ),
        _ => None,
    }
}

/// The binding of the domain's contract to the client.
pub open spec fn impl_text(d: Domain) -> Option<Seq<char>> {
    match concat_map_opt(d.commands@, |c: Command| impl_method_text(d.name@, c)) {
        None => None,
        Some(body) => Some(
            "    impl "@ + d.name@ + "Api for DebugClient {\n"@ + body + "    }\n"@,
        ),
    }
}

/// Appends one contract operation.
fn append_trait_method(out: &mut String, c: &Command) -> (r: Result<(), GenError>)
    ensures
        r is Ok <==> trait_method_text(*c) is Some,
        r is Ok ==> final(out)@ == old(out)@ + trait_method_text(*c).unwrap(),
{
    append_desc(out, "        ", &c.description);
    out.append("        fn ");
    out.append(c.name.as_str());
    out.append("(&mut self");
    match append_params_sig(out, c) {
        Ok(()) => {
        },
        Err(e) => {
            return Err(e);
        },
    }
    out.append(") -> Result<");
    append_return_type_name(out, c);
    out.append(", ClientError>;\n");
    proof {
        assert(out@ =~= old(out)@ + trait_method_text(*c).unwrap());
    }
    Ok(())
}

/// Appends one binding operation.
fn append_impl_method(out: &mut String, dn: &str, c: &Command) -> (r: Result<(), GenError>)
    ensures
        r is Ok <==> impl_method_text(dn@, *c) is Some,
        r is Ok ==> final(out)@ == old(out)@ + impl_method_text(dn@, *c).unwrap(),
{
    out.append("        fn ");
    out.append(c.name.as_str());
    out.append("(&mut self");
    match append_params_sig(out, c) {
        Ok(()) => {
        },
        Err(e) => {
            return Err(e);
        },
    }
    out.append(") -> Result<");
    append_return_type_name(out, c);
    out.append(", ClientError> {\n");
    out.append("            self.call(\"");
    out.append(dn);
    out.append(".");
    out.append(c.name.as_str());
    out.append("\", ");
    let mut named = false;
    if cmd_has_parameters(c) {
        out.append("Request_");
        out.append(c.name.as_str());
        named = true;
    }
    if !named {
        out.append("Nothing");
    }
    out.append(" {");
    match append_args(out, c) {
        Ok(()) => {
        },
        Err(e) => {
            return Err(e);
        },
    }
    out.append("})\n");
    out.append("        }\n");
    proof {
        assert(out@ =~= old(out)@ + impl_method_text(dn@, *c).unwrap());
    }
    Ok(())
}

/// Whether a command declares a parameter list.
fn cmd_has_parameters(c: &Command) -> (r: bool)
    ensures
        r == (c.parameters is Some),
{
    c.parameters.is_some()
}

/// The emitted declarations for all of a domain's named types.
pub open spec fn types_part_text(d: Domain) -> Option<Seq<char>> {
    match d.types {
        None => Some(Seq::<char>::empty()),
        Some(ts) => concat_map_opt(ts@, |t: TypeDecl| type_decl_text(t)),
    }
}

/// The request and return wrappers for one command.
pub open spec fn cmd_structs_text(c: Command) -> Option<Seq<char>> {
    match (return_struct_text(c), request_struct_text(c)) {
        (Some(a), Some(b)) => Some(a + b),
        _ => None,
    }
}

/// Everything emitted for one domain: a module holding its named types,
/// the per-command wrappers, the API contract and its binding.
pub open spec fn domain_text(d: Domain) -> Option<Seq<char>> {
    match (types_part_text(d), concat_map_opt(d.commands@, |c: Command| cmd_structs_text(c)),
    trait_text(d), impl_text(d)) {
        (Some(ts), Some(cs), Some(tr), Some(im)) => Some(
            "pub mod "@ + d.name@ + " {\n"@
                + "    #[allow(unused_imports)] use serde_json::Value as JsonValue;\n"@
                + "    #[allow(unused_imports)] use super::Nothing;\n"@ + "    use super::*;\n"@
                + ts + cs + tr + im + "} // "@ + d.name@ + "\n"@,
        ),
        _ => None,
    }
}

/// A domain's module followed by the re-export of its contract.
pub open spec fn per_domain_text(d: Domain) -> Option<Seq<char>> {
    match domain_text(d) {
        None => None,
        Some(t) => Some(t + "pub use self::"@ + d.name@ + "::"@ + d.name@ + "Api;\n"@),
    }
}

/// Appends the declarations for all of a domain's named types.
#[verifier::loop_isolation(false)]
fn append_types_part(out: &mut String, d: &Domain) -> (r: Result<(), GenError>)
    ensures
        r is Ok <==> types_part_text(*d) is Some,
        r is Ok ==> final(out)@ == old(out)@ + types_part_text(*d).unwrap(),
{
    let ts = match &d.types {
        Some(ts) => ts,
        None => {
            return Ok(());
        },
    };
    let ghost f = |t: TypeDecl| type_decl_text(t);
    let ghost head = out@;
    let n: usize = ts.len();
    let mut i: usize = 0;
    proof {
        assert(head + Seq::<char>::empty() =~= head);
    }
    while i < n
        invariant
            i <= n,
            concat_map_opt(ts@.take(i as int), f) is Some,
            out@ == head + concat_map_opt(ts@.take(i as int), f).unwrap(),
        decreases n - i,
    {
        match append_type_decl(out, &ts[i]) {
            Ok(()) => {
            },
            Err(e) => {
                proof {
                    lemma_concat_map_opt_fail(ts@, f, i as int);
                }
                return Err(e);
            },
        }
        proof {
            lemma_concat_map_opt_step(ts@, f, i as int);
            assert(out@ =~= head + concat_map_opt(ts@.take(i as int + 1), f).unwrap());
        }
        i = i + 1;
    }
    proof {
        lemma_concat_map_opt_full(ts@, f);
    }
    Ok(())
}

/// Appends the request and return wrappers of every command of a domain.
#[verifier::loop_isolation(false)]
fn append_cmd_wrappers(out: &mut String, d: &Domain) -> (r: Result<(), GenError>)
    ensures
        r is Ok <==> concat_map_opt(d.commands@, |c: Command| cmd_structs_text(c)) is Some,
        r is Ok ==> final(out)@ == old(out)@ + concat_map_opt(
            d.commands@,
            |c: Command| cmd_structs_text(c),
        ).unwrap(),
{
    let ghost g = |c: Command| cmd_structs_text(c);
    let ghost head = out@;
    let n: usize = d.commands.len();
    let mut k: usize = 0;
    proof {
        assert(head + Seq::<char>::empty() =~= head);
    }
    while k < n
        invariant
            k <= n,
            concat_map_opt(d.commands@.take(k as int), g) is Some,
            out@ == head + concat_map_opt(d.commands@.take(k as int), g).unwrap(),
        decreases n - k,
    {
        match append_return_struct(out, &d.commands[k]) {
            Ok(()) => {
            },
            Err(e) => {
                proof {
                    lemma_concat_map_opt_fail(d.commands@, g, k as int);
                }
                return Err(e);
            },
        }
        match append_request_struct(out, &d.commands[k]) {
            Ok(()) => {
            },
            Err(e) => {
                proof {
                    lemma_concat_map_opt_fail(d.commands@, g, k as int);
                }
                return Err(e);
            },
        }
        proof {
            lemma_concat_map_opt_step(d.commands@, g, k as int);
            assert(out@ =~= head + concat_map_opt(d.commands@.take(k as int + 1), g).unwrap());
        }
        k = k + 1;
    }
    proof {
        lemma_concat_map_opt_full(d.commands@, g);
    }
    Ok(())
}

/// Appends the domain's API contract.
#[verifier::loop_isolation(false)]
#[verifier::rlimit(100)]
fn append_trait(out: &mut String, d: &Domain) -> (r: Result<(), GenError>)
    ensures
        r is Ok <==> trait_text(*d) is Some,
        r is Ok ==> final(out)@ == old(out)@ + trait_text(*d).unwrap(),
{
    out.append("    pub trait ");
    out.append(d.name.as_str());
    out.append("Api {\n");
    let ghost h = |c: Command| trait_method_text(c);
    let ghost head = out@;
    let n: usize = d.commands.len();
    let mut k: usize = 0;
    proof {
        assert(head + Seq::<char>::empty() =~= head);
    }
    while k < n
        invariant
            k <= n,
            concat_map_opt(d.commands@.take(k as int), h) is Some,
            out@ == head + concat_map_opt(d.commands@.take(k as int), h).unwrap(),
        decreases n - k,
    {
        match append_trait_method(out, &d.commands[k]) {
            Ok(()) => {
            },
            Err(e) => {
                proof {
                    lemma_concat_map_opt_fail(d.commands@, h, k as int);
                }
                return Err(e);
            },
        }
        proof {
            lemma_concat_map_opt_step(d.commands@, h, k as int);
            assert(out@ =~= head + concat_map_opt(d.commands@.take(k as int + 1), h).unwrap());
        }
        k = k + 1;
    }
    out.append("    }\n");
    proof {
        lemma_concat_map_opt_full(d.commands@, h);
        assert(out@ =~= old(out)@ + trait_text(*d).unwrap());
    }
    Ok(())
}

/// Appends the binding of the domain's contract to the client.
#[verifier::loop_isolation(false)]
#[verifier::rlimit(100)]
fn append_impl(out: &mut String, d: &Domain) -> (r: Result<(), GenError>)
    ensures
        r is Ok <==> impl_text(*d) is Some,
        r is Ok ==> final(out)@ == old(out)@ + impl_text(*d).unwrap(),
{
    out.append("    impl ");
    out.append(d.name.as_str());
    out.append("Api for DebugClient {\n");
    let ghost m = |c: Command| impl_method_text(d.name@, c);
    let ghost head = out@;
    let n: usize = d.commands.len();
    let mut k: usize = 0;
    proof {
        assert(head + Seq::<char>::empty() =~= head);
    }
    while k < n
        invariant
            k <= n,
            concat_map_opt(d.commands@.take(k as int), m) is Some,
            out@ == head + concat_map_opt(d.commands@.take(k as int), m).unwrap(),
        decreases n - k,
    {
        match append_impl_method(out, d.name.as_str(), &d.commands[k]) {
            Ok(()) => {
            },
            Err(e) => {
                proof {
                    lemma_concat_map_opt_fail(d.commands@, m, k as int);
                }
                return Err(e);
            },
        }
        proof {
            lemma_concat_map_opt_step(d.commands@, m, k as int);
            assert(out@ =~= head + concat_map_opt(d.commands@.take(k as int + 1), m).unwrap());
        }
        k = k + 1;
    }
    out.append("    }\n");
    proof {
        lemma_concat_map_opt_full(d.commands@, m);
        assert(out@ =~= old(out)@ + impl_text(*d).unwrap());
    }
    Ok(())
}

/// Appends everything emitted for one domain.
#[verifier::rlimit(60)]
fn append_domain(out: &mut String, d: &Domain) -> (r: Result<(), GenError>)
    ensures
        r is Ok <==> domain_text(*d) is Some,
        r is Ok ==> final(out)@ == old(out)@ + domain_text(*d).unwrap(),
{
    out.append("pub mod ");
    out.append(d.name.as_str());
    out.append(" {\n");
    out.append("    #[allow(unused_imports)] use serde_json::Value as JsonValue;\n");
    out.append("    #[allow(unused_imports)] use super::Nothing;\n");
    out.append("    use super::*;\n");
    match append_types_part(out, d) {
        Ok(()) => {
        },
        Err(e) => {
            return Err(e);
        },
    }
    match append_cmd_wrappers(out, d) {
        Ok(()) => {
        },
        Err(e) => {
            return Err(e);
        },
    }
    match append_trait(out, d) {
        Ok(()) => {
        },
        Err(e) => {
            return Err(e);
        },
    }
    match append_impl(out, d) {
        Ok(()) => {
        },
        Err(e) => {
            return Err(e);
        },
    }
    out.append("} // ");
    out.append(d.name.as_str());
    out.append("\n");
    proof {
        assert(out@ =~= old(out)@ + domain_text(*d).unwrap());
    }
    Ok(())
}

/// One emitted field of an event variant: the wire name is kept in a
/// rename attribute, the reserved identifier `type` becomes `_type`, and a
/// relative reference resolves within the event's own domain. Fails when
/// the parameter has no name or its type does not resolve.
pub open spec fn event_field_text(dn: Seq<char>, p: TypeDecl) -> Option<Seq<char>> {
    match p.name {
        None => None,
        Some(nm) => match resolve_text(p, None, ""@, dn + "::"@) {
            None => None,
            Some(t) => Some(
                "        #[serde(rename = \""@ + nm@ + "\")]\n        "@ + (if nm@ == "type"@ {
                    "_type"@
                } else {
                    nm@
                }) + ": "@ + t + ",\n"@,
            ),
        },
    }
}

/// Appends one event variant field.
fn append_event_field(out: &mut String, dn: &str, p: &TypeDecl) -> (r: Result<(), GenError>)
    ensures
        r is Ok <==> event_field_text(dn@, *p) is Some,
        r is Ok ==> final(out)@ == old(out)@ + event_field_text(dn@, *p).unwrap(),
{
    let nm = match &p.name {
        Some(nm) => nm,
        None => {
            return Err(GenError);
        },
    };
    let mut rel = String::new();
    rel.append(dn);
    rel.append("::");
    let t = match resolve_type_text(p, None, "", rel.as_str()) {
        Some(t) => t,
        None => {
            return Err(GenError);
        },
    };
    out.append("        #[serde(rename = \"");
    out.append(nm.as_str());
    out.append("\")]\n        ");
    if crate::json::str_eq(nm.as_str(), "type") {
        out.append("_type");
        proof {
            reveal_strlit("type");
            reveal_strlit("_type");
        }
    } else {
        out.append(nm.as_str());
    }
    out.append(": ");
    out.append(t.as_str());
    out.append(",\n");
    proof {
        assert(out@ =~= old(out)@ + event_field_text(dn@, *p).unwrap());
    }
    Ok(())
}

/// One variant of the closed event enumeration, tagged by the exact wire
/// string `"Domain.event"`. A variant whose event declares parameters
/// carries one named field per parameter; one without parameters carries no
/// payload and is marked for the permissive decode path, so that it decodes
/// whether the wire supplies an empty payload or none at all.
pub open spec fn event_variant_text(dn: Seq<char>, ev: Event) -> Option<Seq<char>> {
    let head = desc_text("    "@, ev.description) + "    #[serde(rename = \""@ + dn + "."@
        + ev.name@ + "\")]\n"@;
    match ev.parameters {
        Some(ps) => match concat_map_opt(ps@, |p: TypeDecl| event_field_text(dn, p)) {
            Some(body) => Some(
                head + "    "@ + dn + "_"@ + ev.name@ + " {\n"@ + body + "    },\n"@,
            ),
            None => None,
        },
        None => Some(
            head + "    #[serde(deserialize_with=\"deserialize_unit_enum\")]\n"@ + "    "@ + dn
                + "_"@ + ev.name@ + ",\n"@,
        ),
    }
}

/// Appends one variant of the event enumeration.
#[verifier::loop_isolation(false)]
#[verifier::rlimit(100)]
fn append_event_variant(out: &mut String, dn: &str, ev: &Event) -> (r: Result<(), GenError>)
    ensures
        r is Ok <==> event_variant_text(dn@, *ev) is Some,
        r is Ok ==> final(out)@ == old(out)@ + event_variant_text(dn@, *ev).unwrap(),
{
    append_desc(out, "    ", &ev.description);
    out.append("    #[serde(rename = \"");
    out.append(dn);
    out.append(".");
    out.append(ev.name.as_str());
    out.append("\")]\n");
    match &ev.parameters {
        Some(ps) => {
            out.append("    ");
            out.append(dn);
            out.append("_");
            out.append(ev.name.as_str());
            out.append(" {\n");
            let ghost f = |p: TypeDecl| event_field_text(dn@, p);
            let ghost head = out@;
            let n: usize = ps.len();
            let mut i: usize = 0;
            proof {
                assert(head + Seq::<char>::empty() =~= head);
            }
            while i < n
                invariant
                    i <= n,
                    concat_map_opt(ps@.take(i as int), f) is Some,
                    out@ == head + concat_map_opt(ps@.take(i as int), f).unwrap(),
                decreases n - i,
            {
                match append_event_field(out, dn, &ps[i]) {
                    Ok(()) => {
                    },
                    Err(e) => {
                        proof {
                            lemma_concat_map_opt_fail(ps@, f, i as int);
                        }
                        return Err(e);
                    },
                }
                proof {
                    lemma_concat_map_opt_step(ps@, f, i as int);
                    assert(out@ =~= head + concat_map_opt(ps@.take(i as int + 1), f).unwrap());
                }
                i = i + 1;
            }
            out.append("    },\n");
            proof {
                lemma_concat_map_opt_full(ps@, f);
                assert(out@ =~= old(out)@ + event_variant_text(dn@, *ev).unwrap());
            }
            Ok(())
        },
        None => {
            out.append("    #[serde(deserialize_with=\"deserialize_unit_enum\")]\n");
            out.append("    ");
            out.append(dn);
            out.append("_");
            out.append(ev.name.as_str());
            out.append(",\n");
            proof {
                assert(out@ =~= old(out)@ + event_variant_text(dn@, *ev).unwrap());
            }
            Ok(())
        },
    }
}

/// The event variants contributed by one domain.
pub open spec fn domain_events_text(d: Domain) -> Option<Seq<char>> {
    match d.events {
        None => Some(Seq::<char>::empty()),
        Some(evs) => concat_map_opt(evs@, |e: Event| event_variant_text(d.name@, e)),
    }
}

/// Appends the event variants of one domain.
#[verifier::loop_isolation(false)]
fn append_domain_events(out: &mut String, d: &Domain) -> (r: Result<(), GenError>)
    ensures
        r is Ok <==> domain_events_text(*d) is Some,
        r is Ok ==> final(out)@ == old(out)@ + domain_events_text(*d).unwrap(),
{
    let evs = match &d.events {
        Some(evs) => evs,
        None => {
            return Ok(());
        },
    };
    let ghost f = |e: Event| event_variant_text(d.name@, e);
    let ghost head = out@;
    let n: usize = evs.len();
    let mut i: usize = 0;
    proof {
        assert(head + Seq::<char>::empty() =~= head);
    }
    while i < n
        invariant
            i <= n,
            concat_map_opt(evs@.take(i as int), f) is Some,
            out@ == head + concat_map_opt(evs@.take(i as int), f).unwrap(),
        decreases n - i,
    {
        match append_event_variant(out, d.name.as_str(), &evs[i]) {
            Ok(()) => {
            },
            Err(e) => {
                proof {
                    lemma_concat_map_opt_fail(evs@, f, i as int);
                }
                return Err(e);
            },
        }
        proof {
            lemma_concat_map_opt_step(evs@, f, i as int);
            assert(out@ =~= head + concat_map_opt(evs@.take(i as int + 1), f).unwrap());
        }
        i = i + 1;
    }
    proof {
        lemma_concat_map_opt_full(evs@, f);
    }
    Ok(())
}

/// The one closed sum type spanning every domain's events.
pub open spec fn event_enum_text(doc: SchemaDocument) -> Option<Seq<char>> {
    match concat_map_opt(doc.domains@, |d: Domain| domain_events_text(d)) {
        None => None,
        Some(body) => Some(
            "#[derive(Deserialize, Debug)]\n"@ + "#[serde(tag = \"method\", content = \"params\")]\n"@
                + "pub enum Event {\n"@ + body + "}\n"@,
        ),
    }
}

/// The fixed head of the emitted bindings: the client imports, the empty
/// `Nothing` sentinel, and the permissive decoder for payload-less event
/// variants.
pub open spec fn preamble_text() -> Seq<char> {
    "\nuse DebugClient;\nuse Error as ClientError;\nuse serde;\nuse serde_json::Value as JsonValue;\n\n/// A dummy type for commands that return nothing\n#[derive(Serialize, Deserialize, Debug)]\npub struct Nothing {\n}\n\nfn deserialize_unit_enum<'de, D: serde::Deserializer<'de>>(_d: D) -> Result<(), D::Error> {\n    Ok(())\n}\n\n"@
}

/// The whole emitted bindings: the preamble, every domain's module and
/// re-export, and the closed event enumeration.
pub open spec fn protocol_text(doc: SchemaDocument) -> Option<Seq<char>> {
    match (concat_map_opt(doc.domains@, |d: Domain| per_domain_text(d)), event_enum_text(doc)) {
        (Some(body), Some(ev)) => Some(preamble_text() + body + ev),
        _ => None,
    }
}

/// Appends one domain's module and the re-export of its contract.
fn append_per_domain(out: &mut String, d: &Domain) -> (r: Result<(), GenError>)
    ensures
        r is Ok <==> per_domain_text(*d) is Some,
        r is Ok ==> final(out)@ == old(out)@ + per_domain_text(*d).unwrap(),
{
    match append_domain(out, d) {
        Ok(()) => {
        },
        Err(e) => {
            return Err(e);
        },
    }
    out.append("pub use self::");
    out.append(d.name.as_str());
    out.append("::");
    out.append(d.name.as_str());
    out.append("Api;\n");
    proof {
        assert(out@ =~= old(out)@ + per_domain_text(*d).unwrap());
    }
    Ok(())
}

/// Appends every domain's module and re-export.
#[verifier::loop_isolation(false)]
fn append_all_domains(out: &mut String, doc: &SchemaDocument) -> (r: Result<(), GenError>)
    ensures
        r is Ok <==> concat_map_opt(doc.domains@, |d: Domain| per_domain_text(d)) is Some,
        r is Ok ==> final(out)@ == old(out)@ + concat_map_opt(
            doc.domains@,
            |d: Domain| per_domain_text(d),
        ).unwrap(),
{
    let ghost f = |d: Domain| per_domain_text(d);
    let ghost head = out@;
    let n: usize = doc.domains.len();
    let mut i: usize = 0;
    proof {
        assert(head + Seq::<char>::empty() =~= head);
    }
    while i < n
        invariant
            i <= n,
            concat_map_opt(doc.domains@.take(i as int), f) is Some,
            out@ == head + concat_map_opt(doc.domains@.take(i as int), f).unwrap(),
        decreases n - i,
    {
        match append_per_domain(out, &doc.domains[i]) {
            Ok(()) => {
            },
            Err(e) => {
                proof {
                    lemma_concat_map_opt_fail(doc.domains@, f, i as int);
                }
                return Err(e);
            },
        }
        proof {
            lemma_concat_map_opt_step(doc.domains@, f, i as int);
            assert(out@ =~= head + concat_map_opt(doc.domains@.take(i as int + 1), f).unwrap());
        }
        i = i + 1;
    }
    proof {
        lemma_concat_map_opt_full(doc.domains@, f);
    }
    Ok(())
}

/// Appends the closed event enumeration.
#[verifier::loop_isolation(false)]
fn append_event_enum(out: &mut String, doc: &SchemaDocument) -> (r: Result<(), GenError>)
    ensures
        r is Ok <==> event_enum_text(*doc) is Some,
        r is Ok ==> final(out)@ == old(out)@ + event_enum_text(*doc).unwrap(),
{
    out.append("#[derive(Deserialize, Debug)]\n");
    out.append("#[serde(tag = \"method\", content = \"params\")]\n");
    out.append("pub enum Event {\n");
    let ghost g = |d: Domain| domain_events_text(d);
    let ghost head = out@;
    let n: usize = doc.domains.len();
    let mut k: usize = 0;
    proof {
        assert(head + Seq::<char>::empty() =~= head);
    }
    while k < n
        invariant
            k <= n,
            concat_map_opt(doc.domains@.take(k as int), g) is Some,
            out@ == head + concat_map_opt(doc.domains@.take(k as int), g).unwrap(),
        decreases n - k,
    {
        match append_domain_events(out, &doc.domains[k]) {
            Ok(()) => {
            },
            Err(e) => {
                proof {
                    lemma_concat_map_opt_fail(doc.domains@, g, k as int);
                }
                return Err(e);
            },
        }
        proof {
            lemma_concat_map_opt_step(doc.domains@, g, k as int);
            assert(out@ =~= head + concat_map_opt(doc.domains@.take(k as int + 1), g).unwrap());
        }
        k = k + 1;
    }
    out.append("}\n");
    proof {
        lemma_concat_map_opt_full(doc.domains@, g);
        assert(out@ =~= old(out)@ + event_enum_text(*doc).unwrap());
    }
    Ok(())
}

/// Generates the bindings for a schema document. The output is pinned to
/// [`protocol_text`], a function of the document alone; the run fails
/// exactly when some declaration is unemittable.
pub fn emit_protocol(doc: &SchemaDocument) -> (r: Result<String, GenError>)
    ensures
        r is Ok <==> protocol_text(*doc) is Some,
        r matches Ok(s) ==> s@ == protocol_text(*doc).unwrap(),
{
    let mut out = String::new();
    out.append("\nuse DebugClient;\nuse Error as ClientError;\nuse serde;\nuse serde_json::Value as JsonValue;\n\n/// A dummy type for commands that return nothing\n#[derive(Serialize, Deserialize, Debug)]\npub struct Nothing {\n}\n\nfn deserialize_unit_enum<'de, D: serde::Deserializer<'de>>(_d: D) -> Result<(), D::Error> {\n    Ok(())\n}\n\n");
    match append_all_domains(&mut out, doc) {
        Ok(()) => {
        },
        Err(e) => {
            return Err(e);
        },
    }
    match append_event_enum(&mut out, doc) {
        Ok(()) => {
        },
        Err(e) => {
            return Err(e);
        },
    }
    proof {
        assert(out@ =~= protocol_text(*doc).unwrap());
    }
    Ok(out)
}

/// The event tags one domain contributes: `"Domain.event"` for each event.
pub open spec fn dom_tags(d: Domain) -> Seq<Seq<char>> {
    match d.events {
        None => Seq::<Seq<char>>::empty(),
        Some(evs) => evs@.map_values(|e: Event| d.name@ + "."@ + e.name@),
    }
}

/// The closed set of event tags a schema document declares, in order.
pub open spec fn doc_tags(doms: Seq<Domain>) -> Seq<Seq<char>>
    decreases doms.len(),
{
    if doms.len() == 0 {
        Seq::<Seq<char>>::empty()
    } else {
        doc_tags(doms.drop_last()) + dom_tags(doms.last())
    }
}

/// Builds the closed event-tag table of a document, constructed once and
/// never mutated: exactly the declared `"Domain.event"` strings, in order.
#[verifier::loop_isolation(false)]
pub fn event_tags(doc: &SchemaDocument) -> (r: Vec<String>)
    ensures
        r@.map_values(|s: String| s@) == doc_tags(doc.domains@),
{
    let ghost view_of = |s: String| s@;
    let mut tags: Vec<String> = Vec::new();
    let n: usize = doc.domains.len();
    let mut i: usize = 0;
    proof {
        assert(tags@.map_values(view_of) =~= doc_tags(doc.domains@.take(0)));
    }
    while i < n
        invariant
            i <= n,
            tags@.map_values(view_of) == doc_tags(doc.domains@.take(i as int)),
        decreases n - i,
    {
        let d = &doc.domains[i];
        if let Some(evs) = &d.events {
            let ghost tag_of = |e: Event| d.name@ + "."@ + e.name@;
            let m: usize = evs.len();
            let mut j: usize = 0;
            proof {
                assert(evs@.take(0).map_values(tag_of) =~= Seq::<Seq<char>>::empty());
                assert(tags@.map_values(view_of) + Seq::<Seq<char>>::empty() =~= tags@.map_values(
                    view_of,
                ));
            }
            let ghost base = tags@.map_values(view_of);
            while j < m
                invariant
                    j <= m,
                    tags@.map_values(view_of) == base + evs@.take(j as int).map_values(tag_of),
                decreases m - j,
            {
                let mut t = String::new();
                t.append(d.name.as_str());
                t.append(".");
                t.append(evs[j].name.as_str());
                proof {
                    assert(t@ =~= tag_of(evs@[j as int]));
                }
                let ghost tags_before = tags@;
                tags.push(t);
                proof {
                    assert(tags@ == tags_before.push(t));
                    assert(tags@.map_values(view_of) =~= tags_before.map_values(view_of).push(t@));
                    assert(evs@.take(j as int + 1) =~= evs@.take(j as int).push(evs@[j as int]));
                    assert(evs@.take(j as int + 1).map_values(tag_of) =~= evs@.take(
                        j as int,
                    ).map_values(tag_of).push(tag_of(evs@[j as int])));
                    assert(tags@.map_values(view_of) =~= base + evs@.take(j as int + 1).map_values(
                        tag_of,
                    ));
                }
                j = j + 1;
            }
            proof {
                assert(evs@.take(m as int) =~= evs@);
                assert(dom_tags(doc.domains@[i as int]) == evs@.map_values(tag_of));
            }
        }
        proof {
            assert(doc.domains@.take(i as int + 1).drop_last() =~= doc.domains@.take(i as int));
            assert(doc.domains@.take(i as int + 1).last() == doc.domains@[i as int]);
            if doc.domains@[i as int].events is None {
                assert(tags@.map_values(view_of) =~= doc_tags(doc.domains@.take(i as int))
                    + dom_tags(doc.domains@[i as int]));
            }
        }
        i = i + 1;
    }
    proof {
        assert(doc.domains@.take(n as int) =~= doc.domains@);
    }
    tags
}

/// Law: generation is deterministic. Two runs over identical schema
/// documents emit byte-identical bindings — the emitted text is a function
/// of the document and of nothing else.
pub proof fn lemma_generation_deterministic(a: SchemaDocument, b: SchemaDocument)
    requires
        a.domains@ == b.domains@,
    ensures
        protocol_text(a) == protocol_text(b),
{
    assert(a.domains@ =~= b.domains@);
}

} // verus!
