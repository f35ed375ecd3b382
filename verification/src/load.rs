//! The load phase: turns a parsed wire value into the immutable schema
//! model, validating its shape.
//!
//! A member with the wrong type is a load failure; an absent or `null`
//! optional member means "not declared". Loading is specified by two
//! predicates: [`decl_loadable`] says exactly which values load, and
//! [`decl_matches`] pins the loaded model down field by field.

use vstd::prelude::*;
use crate::json::{Json, lookup, str_eq, lemma_lookup_snoc};
use crate::schema::{TypeDecl, Command, Event, Domain, SchemaDocument};
use crate::emit::GenError;

verus! {

broadcast use vstd::std_specs::vec::axiom_vec_index_decreases;

/// An optional string member: absent or `null` is `None`, a string is
/// itself, anything else refuses to load.
pub open spec fn str_field(fields: Seq<(String, Json)>, k: Seq<char>, v: Option<String>) -> bool {
    match lookup(fields, k) {
        None => v is None,
        Some(Json::Null) => v is None,
        Some(Json::Str(s)) => v == Some(s),
        Some(_) => false,
    }
}

pub open spec fn str_field_ok(fields: Seq<(String, Json)>, k: Seq<char>) -> bool {
    match lookup(fields, k) {
        None => true,
        Some(Json::Null) => true,
        Some(Json::Str(_)) => true,
        Some(_) => false,
    }
}

/// An optional boolean member.
pub open spec fn bool_field(fields: Seq<(String, Json)>, k: Seq<char>, v: Option<bool>) -> bool {
    match lookup(fields, k) {
        None => v is None,
        Some(Json::Null) => v is None,
        Some(Json::Bool(b)) => v == Some(b),
        Some(_) => false,
    }
}

pub open spec fn bool_field_ok(fields: Seq<(String, Json)>, k: Seq<char>) -> bool {
    match lookup(fields, k) {
        None => true,
        Some(Json::Null) => true,
        Some(Json::Bool(_)) => true,
        Some(_) => false,
    }
}

/// An optional list-of-strings member.
pub open spec fn strs_field(
    fields: Seq<(String, Json)>,
    k: Seq<char>,
    v: Option<Vec<String>>,
) -> bool {
    match lookup(fields, k) {
        None => v is None,
        Some(Json::Null) => v is None,
        Some(Json::Arr(arr)) => v matches Some(vs) && vs@.len() == arr@.len() && (forall|i: int|
            #![trigger arr@[i]]
            0 <= i < arr@.len() ==> (arr@[i] matches Json::Str(s) && vs@[i] == s)),
        Some(_) => false,
    }
}

pub open spec fn strs_field_ok(fields: Seq<(String, Json)>, k: Seq<char>) -> bool {
    match lookup(fields, k) {
        None => true,
        Some(Json::Null) => true,
        Some(Json::Arr(arr)) => forall|i: int|
            #![trigger arr@[i]]
            0 <= i < arr@.len() ==> arr@[i] matches Json::Str(_),
        Some(_) => false,
    }
}

/// The `items` member, a nested declaration: stated by scanning the
/// members in order, so the first occurrence decides.
pub open spec fn items_field(fields: Seq<(String, Json)>, v: Option<Box<TypeDecl>>) -> bool
    decreases fields,
{
    if fields.len() == 0 {
        v is None
    } else if fields[0].0@ == "items"@ {
        match fields[0].1 {
            Json::Null => v is None,
            jv => v matches Some(b) && decl_matches(jv, *b),
        }
    } else {
        items_field(fields.drop_first(), v)
    }
}

pub open spec fn items_field_ok(fields: Seq<(String, Json)>) -> bool
    decreases fields,
{
    if fields.len() == 0 {
        true
    } else if fields[0].0@ == "items"@ {
        match fields[0].1 {
            Json::Null => true,
            jv => decl_loadable(jv),
        }
    } else {
        items_field_ok(fields.drop_first())
    }
}

/// The `properties` member, a list of nested declarations.
pub open spec fn props_field(fields: Seq<(String, Json)>, v: Option<Vec<TypeDecl>>) -> bool
    decreases fields,
{
    if fields.len() == 0 {
        v is None
    } else if fields[0].0@ == "properties"@ {
        match fields[0].1 {
            Json::Null => v is None,
            Json::Arr(arr) => v matches Some(ds) && decls_match(arr@, ds@),
            _ => false,
        }
    } else {
        props_field(fields.drop_first(), v)
    }
}

pub open spec fn props_field_ok(fields: Seq<(String, Json)>) -> bool
    decreases fields,
{
    if fields.len() == 0 {
        true
    } else if fields[0].0@ == "properties"@ {
        match fields[0].1 {
            Json::Null => true,
            Json::Arr(arr) => decls_loadable(arr@),
            _ => false,
        }
    } else {
        props_field_ok(fields.drop_first())
    }
}

pub open spec fn decls_match(arr: Seq<Json>, ds: Seq<TypeDecl>) -> bool
    decreases arr,
{
    if arr.len() == 0 {
        ds.len() == 0
    } else {
        ds.len() == arr.len() && decl_matches(arr[0], ds[0]) && decls_match(
            arr.drop_first(),
            ds.drop_first(),
        )
    }
}

pub open spec fn decls_loadable(arr: Seq<Json>) -> bool
    decreases arr,
{
    if arr.len() == 0 {
        true
    } else {
        decl_loadable(arr[0]) && decls_loadable(arr.drop_first())
    }
}

/// Whether `d` is the model of the type declaration `j` holds.
pub open spec fn decl_matches(j: Json, d: TypeDecl) -> bool
    decreases j,
{
    match j {
        Json::Obj(fields) => str_field(fields@, "id"@, d.id) && str_field(
            fields@,
            "type"@,
            d.kind,
        ) && bool_field(fields@, "optional"@, d.optional) && str_field(
            fields@,
            "$ref"@,
            d.reference,
        ) && items_field(fields@, d.items) && strs_field(fields@, "enum"@, d.enum_values)
            && str_field(fields@, "description"@, d.description) && str_field(
            fields@,
            "name"@,
            d.name,
        ) && props_field(fields@, d.properties),
        _ => false,
    }
}

/// Whether `j` has the shape of a type declaration.
pub open spec fn decl_loadable(j: Json) -> bool
    decreases j,
{
    match j {
        Json::Obj(fields) => str_field_ok(fields@, "id"@) && str_field_ok(fields@, "type"@)
            && bool_field_ok(fields@, "optional"@) && str_field_ok(fields@, "$ref"@)
            && items_field_ok(fields@) && strs_field_ok(fields@, "enum"@) && str_field_ok(
            fields@,
            "description"@,
        ) && str_field_ok(fields@, "name"@) && props_field_ok(fields@),
        _ => false,
    }
}

/// The scanned `items` member is the looked-up one.
proof fn lemma_items_field_is_lookup(fields: Seq<(String, Json)>, v: Option<Box<TypeDecl>>)
    ensures
        items_field(fields, v) == match lookup(fields, "items"@) {
            None => v is None,
            Some(Json::Null) => v is None,
            Some(jv) => v matches Some(b) && decl_matches(jv, *b),
        },
        items_field_ok(fields) == match lookup(fields, "items"@) {
            None => true,
            Some(Json::Null) => true,
            Some(jv) => decl_loadable(jv),
        },
    decreases fields.len(),
{
    if fields.len() > 0 && fields[0].0@ != "items"@ {
        lemma_items_field_is_lookup(fields.drop_first(), v);
    }
}

/// The scanned `properties` member is the looked-up one.
proof fn lemma_props_field_is_lookup(fields: Seq<(String, Json)>, v: Option<Vec<TypeDecl>>)
    ensures
        props_field(fields, v) == match lookup(fields, "properties"@) {
            None => v is None,
            Some(Json::Null) => v is None,
            Some(Json::Arr(arr)) => v matches Some(ds) && decls_match(arr@, ds@),
            Some(_) => false,
        },
        props_field_ok(fields) == match lookup(fields, "properties"@) {
            None => true,
            Some(Json::Null) => true,
            Some(Json::Arr(arr)) => decls_loadable(arr@),
            Some(_) => false,
        },
    decreases fields.len(),
{
    if fields.len() > 0 && fields[0].0@ != "properties"@ {
        lemma_props_field_is_lookup(fields.drop_first(), v);
    }
}

/// A looked-up value is one of the members.
proof fn lemma_lookup_is_member(s: Seq<(String, Json)>, k: Seq<char>)
    ensures
        lookup(s, k) matches Some(v) ==> exists|i: int| 0 <= i < s.len() && s[i].1 == v,
    decreases s.len(),
{
    if s.len() > 0 && s[0].0@ != k {
        lemma_lookup_is_member(s.drop_first(), k);
        if lookup(s, k) is Some {
            let v = lookup(s, k).unwrap();
            let i = choose|i: int| 0 <= i < s.drop_first().len() && s.drop_first()[i].1 == v;
            assert(s[i + 1].1 == v);
        }
    }
}

/// Extending the list extends the match.
proof fn lemma_decls_match_snoc(arr: Seq<Json>, ds: Seq<TypeDecl>, x: Json, d: TypeDecl)
    requires
        decls_match(arr, ds),
        decl_matches(x, d),
    ensures
        decls_match(arr.push(x), ds.push(d)),
    decreases arr.len(),
{
    let ta = arr.push(x);
    let td = ds.push(d);
    if arr.len() == 0 {
        assert(ta[0] == x);
        assert(td[0] == d);
        assert(ta.drop_first() =~= Seq::<Json>::empty());
        assert(td.drop_first() =~= Seq::<TypeDecl>::empty());
        assert(decls_match(Seq::<Json>::empty(), Seq::<TypeDecl>::empty()));
    } else {
        assert(ta[0] == arr[0]);
        assert(td[0] == ds[0]);
        assert(ta.drop_first() =~= arr.drop_first().push(x));
        assert(td.drop_first() =~= ds.drop_first().push(d));
        lemma_decls_match_snoc(arr.drop_first(), ds.drop_first(), x, d);
    }
}

proof fn lemma_decls_loadable_snoc(arr: Seq<Json>, x: Json)
    requires
        decls_loadable(arr),
        decl_loadable(x),
    ensures
        decls_loadable(arr.push(x)),
    decreases arr.len(),
{
    let ta = arr.push(x);
    if arr.len() == 0 {
        assert(ta[0] == x);
        assert(ta.drop_first() =~= Seq::<Json>::empty());
        assert(decls_loadable(Seq::<Json>::empty()));
    } else {
        assert(ta[0] == arr[0]);
        assert(ta.drop_first() =~= arr.drop_first().push(x));
        lemma_decls_loadable_snoc(arr.drop_first(), x);
    }
}

/// One unloadable element makes the list unloadable.
proof fn lemma_decls_loadable_at(arr: Seq<Json>, i: int)
    requires
        0 <= i < arr.len(),
        !decl_loadable(arr[i]),
    ensures
        !decls_loadable(arr),
    decreases i,
{
    if i > 0 {
        assert(arr.drop_first()[i - 1] == arr[i]);
        lemma_decls_loadable_at(arr.drop_first(), i - 1);
    }
}

/// Splits the members a type declaration reads out of an object, by move:
/// the first occurrence of each declaration key.
#[verifier::loop_isolation(false)]
#[verifier::rlimit(100)]
fn take_decl_fields(fields: Vec<(String, Json)>) -> (r: (
    Option<Json>,
    Option<Json>,
    Option<Json>,
    Option<Json>,
    Option<Json>,
    Option<Json>,
    Option<Json>,
    Option<Json>,
    Option<Json>,
))
    ensures
        r.0 == lookup(fields@, "id"@),
        r.1 == lookup(fields@, "type"@),
        r.2 == lookup(fields@, "optional"@),
        r.3 == lookup(fields@, "$ref"@),
        r.4 == lookup(fields@, "items"@),
        r.5 == lookup(fields@, "enum"@),
        r.6 == lookup(fields@, "description"@),
        r.7 == lookup(fields@, "name"@),
        r.8 == lookup(fields@, "properties"@),
{
    proof {
        reveal_strlit("id");
        reveal_strlit("type");
        reveal_strlit("optional");
        reveal_strlit("$ref");
        reveal_strlit("items");
        reveal_strlit("enum");
        reveal_strlit("description");
        reveal_strlit("name");
        reveal_strlit("properties");
        assert("id"@.len() == 2 && "type"@.len() == 4 && "optional"@.len() == 8 && "$ref"@.len()
            == 4 && "items"@.len() == 5 && "enum"@.len() == 4 && "description"@.len() == 11
            && "name"@.len() == 4 && "properties"@.len() == 10);
        assert("type"@[0] == 't' && "$ref"@[0] == '$' && "enum"@[0] == 'e' && "name"@[0] == 'n');
    }
    let ghost all = fields@;
    let total: usize = fields.len();
    let mut fields = fields;
    let mut s0: Option<Json> = None;
    let mut s1: Option<Json> = None;
    let mut s2: Option<Json> = None;
    let mut s3: Option<Json> = None;
    let mut s4: Option<Json> = None;
    let mut s5: Option<Json> = None;
    let mut s6: Option<Json> = None;
    let mut s7: Option<Json> = None;
    let mut s8: Option<Json> = None;
    let mut i: usize = 0;
    proof {
        assert(all.take(0) =~= Seq::<(String, Json)>::empty());
    }
    while fields.len() > 0
        invariant
            0 <= i,
            i as int + fields.len() == total,
            fields@ == all.skip(i as int),
            s0 == lookup(all.take(i as int), "id"@),
            s1 == lookup(all.take(i as int), "type"@),
            s2 == lookup(all.take(i as int), "optional"@),
            s3 == lookup(all.take(i as int), "$ref"@),
            s4 == lookup(all.take(i as int), "items"@),
            s5 == lookup(all.take(i as int), "enum"@),
            s6 == lookup(all.take(i as int), "description"@),
            s7 == lookup(all.take(i as int), "name"@),
            s8 == lookup(all.take(i as int), "properties"@),
        decreases fields.len(),
    {
        proof {
            assert(all.skip(i as int)[0] == all[i as int]);
        }
        let (key, v) = fields.remove(0);
        let ghost e = all[i as int];
        if s0.is_none() && str_eq(key.as_str(), "id") {
            s0 = Some(v);
        } else if s1.is_none() && str_eq(key.as_str(), "type") {
            s1 = Some(v);
        } else if s2.is_none() && str_eq(key.as_str(), "optional") {
            s2 = Some(v);
        } else if s3.is_none() && str_eq(key.as_str(), "$ref") {
            s3 = Some(v);
        } else if s4.is_none() && str_eq(key.as_str(), "items") {
            s4 = Some(v);
        } else if s5.is_none() && str_eq(key.as_str(), "enum") {
            s5 = Some(v);
        } else if s6.is_none() && str_eq(key.as_str(), "description") {
            s6 = Some(v);
        } else if s7.is_none() && str_eq(key.as_str(), "name") {
            s7 = Some(v);
        } else if s8.is_none() && str_eq(key.as_str(), "properties") {
            s8 = Some(v);
        }
        proof {
            assert(all.take(i as int + 1) =~= all.take(i as int).push(e));
            lemma_lookup_snoc(all.take(i as int), e, "id"@);
            lemma_lookup_snoc(all.take(i as int), e, "type"@);
            lemma_lookup_snoc(all.take(i as int), e, "optional"@);
            lemma_lookup_snoc(all.take(i as int), e, "$ref"@);
            lemma_lookup_snoc(all.take(i as int), e, "items"@);
            lemma_lookup_snoc(all.take(i as int), e, "enum"@);
            lemma_lookup_snoc(all.take(i as int), e, "description"@);
            lemma_lookup_snoc(all.take(i as int), e, "name"@);
            lemma_lookup_snoc(all.take(i as int), e, "properties"@);
            assert(all.skip(i as int).remove(0) =~= all.skip(i as int + 1));
        }
        i = i + 1;
    }
    proof {
        assert(all.take(total as int) =~= all);
    }
    (s0, s1, s2, s3, s4, s5, s6, s7, s8)
}

/// An optional string member, from its raw value.
fn opt_str_slot(s: Option<Json>) -> (r: Result<Option<String>, GenError>)
    ensures
        match s {
            None => r == Ok::<Option<String>, GenError>(None),
            Some(Json::Null) => r == Ok::<Option<String>, GenError>(None),
            Some(Json::Str(st)) => r == Ok::<Option<String>, GenError>(Some(st)),
            Some(_) => r is Err,
        },
{
    match s {
        None => Ok(None),
        Some(Json::Null) => Ok(None),
        Some(Json::Str(st)) => Ok(Some(st)),
        Some(_) => Err(GenError),
    }
}

/// An optional boolean member, from its raw value.
fn opt_bool_slot(s: Option<Json>) -> (r: Result<Option<bool>, GenError>)
    ensures
        match s {
            None => r == Ok::<Option<bool>, GenError>(None),
            Some(Json::Null) => r == Ok::<Option<bool>, GenError>(None),
            Some(Json::Bool(b)) => r == Ok::<Option<bool>, GenError>(Some(b)),
            Some(_) => r is Err,
        },
{
    match s {
        None => Ok(None),
        Some(Json::Null) => Ok(None),
        Some(Json::Bool(b)) => Ok(Some(b)),
        Some(_) => Err(GenError),
    }
}

/// An optional list-of-strings member, from its raw value.
#[verifier::loop_isolation(false)]
fn opt_strs_slot(s: Option<Json>) -> (r: Result<Option<Vec<String>>, GenError>)
    ensures
        match s {
            None => r == Ok::<Option<Vec<String>>, GenError>(None),
            Some(Json::Null) => r == Ok::<Option<Vec<String>>, GenError>(None),
            Some(Json::Arr(arr)) => {
                &&& r is Ok <==> (forall|k: int|
                    #![trigger arr@[k]]
                    0 <= k < arr@.len() ==> arr@[k] matches Json::Str(_))
                &&& r matches Ok(v) ==> (v matches Some(vs) && vs@.len() == arr@.len() && (forall|
                    k: int,
                |
                    #![trigger arr@[k]]
                    0 <= k < arr@.len() ==> (arr@[k] matches Json::Str(st) && vs@[k] == st)))
            },
            Some(_) => r is Err,
        },
{
    let arr = match s {
        None => {
            return Ok(None);
        },
        Some(Json::Null) => {
            return Ok(None);
        },
        Some(Json::Arr(arr)) => arr,
        Some(_) => {
            return Err(GenError);
        },
    };
    let ghost a0 = arr@;
    let total: usize = arr.len();
    let mut arr = arr;
    let mut out: Vec<String> = Vec::new();
    let mut i: usize = 0;
    while arr.len() > 0
        invariant
            i as int + arr.len() == total,
            arr@ == a0.skip(i as int),
            out@.len() == i,
            forall|k: int|
                #![trigger a0[k]]
                0 <= k < i ==> (a0[k] matches Json::Str(st) && out@[k] == st),
        decreases arr.len(),
    {
        proof {
            assert(a0.skip(i as int)[0] == a0[i as int]);
        }
        let v = arr.remove(0);
        match v {
            Json::Str(st) => out.push(st),
            _ => {
                return Err(GenError);
            },
        }
        proof {
            assert(a0.skip(i as int).remove(0) =~= a0.skip(i as int + 1));
        }
        i = i + 1;
    }
    Ok(Some(out))
}

/// Loads one type declaration from a wire value; fails exactly on a value
/// that [`decl_loadable`] refuses, and the loaded model is pinned by
/// [`decl_matches`].
#[verifier::loop_isolation(false)]
#[verifier::rlimit(100)]
pub fn parse_decl(j: Json) -> (r: Result<TypeDecl, GenError>)
    ensures
        r is Ok <==> decl_loadable(j),
        r matches Ok(d) ==> decl_matches(j, d),
    decreases j,
{
    let fields = match j {
        Json::Obj(fields) => fields,
        _ => {
            return Err(GenError);
        },
    };
    let ghost fv = fields;
    let (s_id, s_kind, s_opt, s_ref, s_items, s_enum, s_desc, s_name, s_props) = take_decl_fields(
        fields,
    );
    proof {
        lemma_items_field_is_lookup(fv@, None);
        lemma_props_field_is_lookup(fv@, None);
        lemma_lookup_is_member(fv@, "items"@);
        lemma_lookup_is_member(fv@, "properties"@);
    }
    let id = match opt_str_slot(s_id) {
        Ok(v) => v,
        Err(e) => {
            return Err(e);
        },
    };
    let kind = match opt_str_slot(s_kind) {
        Ok(v) => v,
        Err(e) => {
            return Err(e);
        },
    };
    let optional = match opt_bool_slot(s_opt) {
        Ok(v) => v,
        Err(e) => {
            return Err(e);
        },
    };
    let reference = match opt_str_slot(s_ref) {
        Ok(v) => v,
        Err(e) => {
            return Err(e);
        },
    };
    let enum_values = match opt_strs_slot(s_enum) {
        Ok(v) => v,
        Err(e) => {
            return Err(e);
        },
    };
    let description = match opt_str_slot(s_desc) {
        Ok(v) => v,
        Err(e) => {
            return Err(e);
        },
    };
    let name = match opt_str_slot(s_name) {
        Ok(v) => v,
        Err(e) => {
            return Err(e);
        },
    };
    let items: Option<Box<TypeDecl>> = match s_items {
        None => None,
        Some(Json::Null) => None,
        Some(jv) => {
            proof {
                let i = choose|i: int| 0 <= i < fv@.len() && fv@[i].1 == jv;
                assert(decreases_to!(j => fv));
                assert(decreases_to!(fv => fv@[i]));
                assert(decreases_to!(fv@[i] => fv@[i].1));
            }
            match parse_decl(jv) {
                Ok(d) => Some(Box::new(d)),
                Err(e) => {
                    return Err(e);
                },
            }
        },
    };
    proof {
        lemma_items_field_is_lookup(fv@, items);
    }
    let properties: Option<Vec<TypeDecl>> = match s_props {
        None => None,
        Some(Json::Null) => None,
        Some(Json::Arr(arrv)) => {
            let ghost pi = choose|i: int| 0 <= i < fv@.len() && fv@[i].1 == Json::Arr(arrv);
            let ghost av = arrv;
            let ghost a0 = arrv@;
            let total: usize = arrv.len();
            let mut arrv = arrv;
            let mut ds: Vec<TypeDecl> = Vec::new();
            let mut k: usize = 0;
            proof {
                assert(a0.take(0) =~= Seq::<Json>::empty());
            }
            while arrv.len() > 0
                invariant
                    k as int + arrv.len() == total,
                    arrv@ == a0.skip(k as int),
                    ds@.len() == k,
                    decls_match(a0.take(k as int), ds@),
                    decls_loadable(a0.take(k as int)),
                decreases arrv.len(),
            {
                proof {
                    assert(a0.skip(k as int)[0] == a0[k as int]);
                }
                let v = arrv.remove(0);
                proof {
                    assert(decreases_to!(j => fv));
                    assert(decreases_to!(fv => fv@[pi]));
                    assert(decreases_to!(fv@[pi] => fv@[pi].1));
                    assert(fv@[pi].1 == Json::Arr(av));
                    assert(decreases_to!(Json::Arr(av) => av));
                    assert(decreases_to!(av => av@[k as int]));
                    assert(av@[k as int] == v);
                }
                match parse_decl(v) {
                    Ok(d) => {
                        proof {
                            lemma_decls_match_snoc(a0.take(k as int), ds@, a0[k as int], d);
                            lemma_decls_loadable_snoc(a0.take(k as int), a0[k as int]);
                            assert(a0.take(k as int + 1) =~= a0.take(k as int).push(
                                a0[k as int],
                            ));
                        }
                        ds.push(d);
                    },
                    Err(e) => {
                        proof {
                            lemma_decls_loadable_at(a0, k as int);
                        }
                        return Err(e);
                    },
                }
                proof {
                    assert(a0.skip(k as int).remove(0) =~= a0.skip(k as int + 1));
                }
                k = k + 1;
            }
            proof {
                assert(a0.take(total as int) =~= a0);
            }
            Some(ds)
        },
        Some(_) => {
            return Err(GenError);
        },
    };
    proof {
        lemma_props_field_is_lookup(fv@, properties);
    }
    Ok(
        TypeDecl {
            id,
            kind,
            optional,
            reference,
            items,
            enum_values,
            description,
            name,
            properties,
        },
    )
}

/// Loads a list of type declarations — a `parameters`, `returns`, `types`
/// or `properties` array — failing exactly when some element does.
#[verifier::loop_isolation(false)]
pub fn parse_decls(arr: Vec<Json>) -> (r: Result<Vec<TypeDecl>, GenError>)
    ensures
        r is Ok <==> decls_loadable(arr@),
        r matches Ok(ds) ==> decls_match(arr@, ds@),
{
    let ghost a0 = arr@;
    let total: usize = arr.len();
    let mut arr = arr;
    let mut ds: Vec<TypeDecl> = Vec::new();
    let mut k: usize = 0;
    proof {
        assert(a0.take(0) =~= Seq::<Json>::empty());
    }
    while arr.len() > 0
        invariant
            k as int + arr.len() == total,
            arr@ == a0.skip(k as int),
            ds@.len() == k,
            decls_match(a0.take(k as int), ds@),
            decls_loadable(a0.take(k as int)),
        decreases arr.len(),
    {
        proof {
            assert(a0.skip(k as int)[0] == a0[k as int]);
        }
        let v = arr.remove(0);
        match parse_decl(v) {
            Ok(d) => {
                proof {
                    lemma_decls_match_snoc(a0.take(k as int), ds@, a0[k as int], d);
                    lemma_decls_loadable_snoc(a0.take(k as int), a0[k as int]);
                    assert(a0.take(k as int + 1) =~= a0.take(k as int).push(a0[k as int]));
                }
                ds.push(d);
            },
            Err(e) => {
                proof {
                    lemma_decls_loadable_at(a0, k as int);
                }
                return Err(e);
            },
        }
        proof {
            assert(a0.skip(k as int).remove(0) =~= a0.skip(k as int + 1));
        }
        k = k + 1;
    }
    proof {
        assert(a0.take(total as int) =~= a0);
    }
    Ok(ds)
}

/// A required string member.
pub open spec fn req_str_field(fields: Seq<(String, Json)>, k: Seq<char>, v: String) -> bool {
    lookup(fields, k) == Some(Json::Str(v))
}

pub open spec fn req_str_field_ok(fields: Seq<(String, Json)>, k: Seq<char>) -> bool {
    lookup(fields, k) matches Some(Json::Str(_))
}

/// An optional list-of-declarations member.
pub open spec fn decls_opt_field(
    fields: Seq<(String, Json)>,
    k: Seq<char>,
    v: Option<Vec<TypeDecl>>,
) -> bool {
    match lookup(fields, k) {
        None => v is None,
        Some(Json::Null) => v is None,
        Some(Json::Arr(arr)) => v matches Some(ds) && decls_match(arr@, ds@),
        Some(_) => false,
    }
}

pub open spec fn decls_opt_field_ok(fields: Seq<(String, Json)>, k: Seq<char>) -> bool {
    match lookup(fields, k) {
        None => true,
        Some(Json::Null) => true,
        Some(Json::Arr(arr)) => decls_loadable(arr@),
        Some(_) => false,
    }
}

/// Whether `c` is the model of the command `j` holds.
pub open spec fn command_matches(j: Json, c: Command) -> bool {
    match j {
        Json::Obj(f) => req_str_field(f@, "name"@, c.name) && str_field(
            f@,
            "description"@,
            c.description,
        ) && decls_opt_field(f@, "parameters"@, c.parameters) && decls_opt_field(
            f@,
            "returns"@,
            c.returns,
        ),
        _ => false,
    }
}

pub open spec fn command_loadable(j: Json) -> bool {
    match j {
        Json::Obj(f) => req_str_field_ok(f@, "name"@) && str_field_ok(f@, "description"@)
            && decls_opt_field_ok(f@, "parameters"@) && decls_opt_field_ok(f@, "returns"@),
        _ => false,
    }
}

/// Whether `e` is the model of the event `j` holds.
pub open spec fn event_matches(j: Json, e: Event) -> bool {
    match j {
        Json::Obj(f) => req_str_field(f@, "name"@, e.name) && str_field(
            f@,
            "description"@,
            e.description,
        ) && decls_opt_field(f@, "parameters"@, e.parameters),
        _ => false,
    }
}

pub open spec fn event_loadable(j: Json) -> bool {
    match j {
        Json::Obj(f) => req_str_field_ok(f@, "name"@) && str_field_ok(f@, "description"@)
            && decls_opt_field_ok(f@, "parameters"@),
        _ => false,
    }
}

/// Elementwise loading of a list.
pub open spec fn list_match<A>(arr: Seq<Json>, xs: Seq<A>, f: spec_fn(Json, A) -> bool) -> bool
    decreases arr.len(),
{
    if arr.len() == 0 {
        xs.len() == 0
    } else {
        xs.len() == arr.len() && f(arr[0], xs[0]) && list_match(
            arr.drop_first(),
            xs.drop_first(),
            f,
        )
    }
}

pub open spec fn list_ok(arr: Seq<Json>, ok: spec_fn(Json) -> bool) -> bool
    decreases arr.len(),
{
    if arr.len() == 0 {
        true
    } else {
        ok(arr[0]) && list_ok(arr.drop_first(), ok)
    }
}

proof fn lemma_list_match_snoc<A>(
    arr: Seq<Json>,
    xs: Seq<A>,
    f: spec_fn(Json, A) -> bool,
    j: Json,
    x: A,
)
    requires
        list_match(arr, xs, f),
        f(j, x),
    ensures
        list_match(arr.push(j), xs.push(x), f),
    decreases arr.len(),
{
    let ta = arr.push(j);
    let tx = xs.push(x);
    if arr.len() == 0 {
        assert(ta[0] == j);
        assert(tx[0] == x);
        assert(ta.drop_first() =~= Seq::<Json>::empty());
        assert(tx.drop_first() =~= Seq::<A>::empty());
        assert(list_match(Seq::<Json>::empty(), Seq::<A>::empty(), f));
    } else {
        assert(ta[0] == arr[0]);
        assert(tx[0] == xs[0]);
        assert(ta.drop_first() =~= arr.drop_first().push(j));
        assert(tx.drop_first() =~= xs.drop_first().push(x));
        lemma_list_match_snoc(arr.drop_first(), xs.drop_first(), f, j, x);
    }
}

proof fn lemma_list_ok_snoc(arr: Seq<Json>, ok: spec_fn(Json) -> bool, j: Json)
    requires
        list_ok(arr, ok),
        ok(j),
    ensures
        list_ok(arr.push(j), ok),
    decreases arr.len(),
{
    let ta = arr.push(j);
    if arr.len() == 0 {
        assert(ta[0] == j);
        assert(ta.drop_first() =~= Seq::<Json>::empty());
        assert(list_ok(Seq::<Json>::empty(), ok));
    } else {
        assert(ta[0] == arr[0]);
        assert(ta.drop_first() =~= arr.drop_first().push(j));
        lemma_list_ok_snoc(arr.drop_first(), ok, j);
    }
}

proof fn lemma_list_ok_at(arr: Seq<Json>, ok: spec_fn(Json) -> bool, i: int)
    requires
        0 <= i < arr.len(),
        !ok(arr[i]),
    ensures
        !list_ok(arr, ok),
    decreases i,
{
    if i > 0 {
        assert(arr.drop_first()[i - 1] == arr[i]);
        lemma_list_ok_at(arr.drop_first(), ok, i - 1);
    }
}

/// Whether `d` is the model of the domain `j` holds: a required name and
/// command list, optional events and named types.
pub open spec fn domain_matches(j: Json, d: Domain) -> bool {
    match j {
        Json::Obj(f) => req_str_field(f@, "domain"@, d.name) && (match lookup(f@, "commands"@) {
            Some(Json::Arr(arr)) => list_match(
                arr@,
                d.commands@,
                |jj: Json, c: Command| command_matches(jj, c),
            ),
            _ => false,
        }) && (match lookup(f@, "events"@) {
            None => d.events is None,
            Some(Json::Null) => d.events is None,
            Some(Json::Arr(arr)) => d.events matches Some(evs) && list_match(
                arr@,
                evs@,
                |jj: Json, e: Event| event_matches(jj, e),
            ),
            Some(_) => false,
        }) && decls_opt_field(f@, "types"@, d.types),
        _ => false,
    }
}

pub open spec fn domain_loadable(j: Json) -> bool {
    match j {
        Json::Obj(f) => req_str_field_ok(f@, "domain"@) && (match lookup(f@, "commands"@) {
            Some(Json::Arr(arr)) => list_ok(arr@, |jj: Json| command_loadable(jj)),
            _ => false,
        }) && (match lookup(f@, "events"@) {
            None => true,
            Some(Json::Null) => true,
            Some(Json::Arr(arr)) => list_ok(arr@, |jj: Json| event_loadable(jj)),
            Some(_) => false,
        }) && decls_opt_field_ok(f@, "types"@),
        _ => false,
    }
}

/// Whether `doc` is the model of the schema document `j` holds.
pub open spec fn document_matches(j: Json, doc: SchemaDocument) -> bool {
    match j {
        Json::Obj(f) => match lookup(f@, "domains"@) {
            Some(Json::Arr(arr)) => list_match(
                arr@,
                doc.domains@,
                |jj: Json, d: Domain| domain_matches(jj, d),
            ),
            _ => false,
        },
        _ => false,
    }
}

pub open spec fn document_loadable(j: Json) -> bool {
    match j {
        Json::Obj(f) => match lookup(f@, "domains"@) {
            Some(Json::Arr(arr)) => list_ok(arr@, |jj: Json| domain_loadable(jj)),
            _ => false,
        },
        _ => false,
    }
}

/// Splits the first occurrences of four distinct keys out of an object's
/// members, by move.
#[verifier::loop_isolation(false)]
fn take4(fields: Vec<(String, Json)>, k0: &str, k1: &str, k2: &str, k3: &str) -> (r: (
    Option<Json>,
    Option<Json>,
    Option<Json>,
    Option<Json>,
))
    requires
        k0@ != k1@,
        k0@ != k2@,
        k0@ != k3@,
        k1@ != k2@,
        k1@ != k3@,
        k2@ != k3@,
    ensures
        r.0 == lookup(fields@, k0@),
        r.1 == lookup(fields@, k1@),
        r.2 == lookup(fields@, k2@),
        r.3 == lookup(fields@, k3@),
{
    let ghost all = fields@;
    let total: usize = fields.len();
    let mut fields = fields;
    let mut s0: Option<Json> = None;
    let mut s1: Option<Json> = None;
    let mut s2: Option<Json> = None;
    let mut s3: Option<Json> = None;
    let mut i: usize = 0;
    proof {
        assert(all.take(0) =~= Seq::<(String, Json)>::empty());
    }
    while fields.len() > 0
        invariant
            0 <= i,
            i as int + fields.len() == total,
            fields@ == all.skip(i as int),
            s0 == lookup(all.take(i as int), k0@),
            s1 == lookup(all.take(i as int), k1@),
            s2 == lookup(all.take(i as int), k2@),
            s3 == lookup(all.take(i as int), k3@),
        decreases fields.len(),
    {
        proof {
            assert(all.skip(i as int)[0] == all[i as int]);
        }
        let (key, v) = fields.remove(0);
        let ghost e = all[i as int];
        if s0.is_none() && str_eq(key.as_str(), k0) {
            s0 = Some(v);
        } else if s1.is_none() && str_eq(key.as_str(), k1) {
            s1 = Some(v);
        } else if s2.is_none() && str_eq(key.as_str(), k2) {
            s2 = Some(v);
        } else if s3.is_none() && str_eq(key.as_str(), k3) {
            s3 = Some(v);
        }
        proof {
            assert(all.take(i as int + 1) =~= all.take(i as int).push(e));
            lemma_lookup_snoc(all.take(i as int), e, k0@);
            lemma_lookup_snoc(all.take(i as int), e, k1@);
            lemma_lookup_snoc(all.take(i as int), e, k2@);
            lemma_lookup_snoc(all.take(i as int), e, k3@);
            assert(all.skip(i as int).remove(0) =~= all.skip(i as int + 1));
        }
        i = i + 1;
    }
    proof {
        assert(all.take(total as int) =~= all);
    }
    (s0, s1, s2, s3)
}

/// An optional list-of-declarations member, from its raw value.
fn opt_decls_slot(s: Option<Json>) -> (r: Result<Option<Vec<TypeDecl>>, GenError>)
    ensures
        match s {
            None => r == Ok::<Option<Vec<TypeDecl>>, GenError>(None),
            Some(Json::Null) => r == Ok::<Option<Vec<TypeDecl>>, GenError>(None),
            Some(Json::Arr(arr)) => {
                &&& r is Ok <==> decls_loadable(arr@)
                &&& r matches Ok(v) ==> (v matches Some(ds) && decls_match(arr@, ds@))
            },
            Some(_) => r is Err,
        },
{
    match s {
        None => Ok(None),
        Some(Json::Null) => Ok(None),
        Some(Json::Arr(arr)) => match parse_decls(arr) {
            Ok(ds) => Ok(Some(ds)),
            Err(e) => Err(e),
        },
        Some(_) => Err(GenError),
    }
}

/// Loads one command.
pub fn parse_command(j: Json) -> (r: Result<Command, GenError>)
    ensures
        r is Ok <==> command_loadable(j),
        r matches Ok(c) ==> command_matches(j, c),
{
    let fields = match j {
        Json::Obj(fields) => fields,
        _ => {
            return Err(GenError);
        },
    };
    proof {
        reveal_strlit("name");
        reveal_strlit("description");
        reveal_strlit("parameters");
        reveal_strlit("returns");
        assert("name"@.len() == 4 && "description"@.len() == 11 && "parameters"@.len() == 10
            && "returns"@.len() == 7);
    }
    let (s_name, s_desc, s_params, s_returns) = take4(
        fields,
        "name",
        "description",
        "parameters",
        "returns",
    );
    let name = match s_name {
        Some(Json::Str(s)) => s,
        _ => {
            return Err(GenError);
        },
    };
    let description = match opt_str_slot(s_desc) {
        Ok(v) => v,
        Err(e) => {
            return Err(e);
        },
    };
    let parameters = match opt_decls_slot(s_params) {
        Ok(v) => v,
        Err(e) => {
            return Err(e);
        },
    };
    let rets = match opt_decls_slot(s_returns) {
        Ok(v) => v,
        Err(e) => {
            return Err(e);
        },
    };
    Ok(Command { name, description, parameters, returns: rets })
}

/// Loads one event.
pub fn parse_event(j: Json) -> (r: Result<Event, GenError>)
    ensures
        r is Ok <==> event_loadable(j),
        r matches Ok(e) ==> event_matches(j, e),
{
    let fields = match j {
        Json::Obj(fields) => fields,
        _ => {
            return Err(GenError);
        },
    };
    proof {
        reveal_strlit("name");
        reveal_strlit("description");
        reveal_strlit("parameters");
        reveal_strlit("experimental");
        assert("name"@.len() == 4 && "description"@.len() == 11 && "parameters"@.len() == 10
            && "experimental"@.len() == 12);
    }
    let (s_name, s_desc, s_params, _s_exp) = take4(
        fields,
        "name",
        "description",
        "parameters",
        "experimental",
    );
    let name = match s_name {
        Some(Json::Str(s)) => s,
        _ => {
            return Err(GenError);
        },
    };
    let description = match opt_str_slot(s_desc) {
        Ok(v) => v,
        Err(e) => {
            return Err(e);
        },
    };
    let parameters = match opt_decls_slot(s_params) {
        Ok(v) => v,
        Err(e) => {
            return Err(e);
        },
    };
    Ok(Event { name, description, parameters })
}

/// Loads a list of commands.
#[verifier::loop_isolation(false)]
pub fn parse_commands(arr: Vec<Json>) -> (r: Result<Vec<Command>, GenError>)
    ensures
        r is Ok <==> list_ok(arr@, |jj: Json| command_loadable(jj)),
        r matches Ok(cs) ==> list_match(arr@, cs@, |jj: Json, c: Command| command_matches(jj, c)),
{
    let ghost f = |jj: Json, c: Command| command_matches(jj, c);
    let ghost ok = |jj: Json| command_loadable(jj);
    let ghost a0 = arr@;
    let total: usize = arr.len();
    let mut arr = arr;
    let mut out: Vec<Command> = Vec::new();
    let mut k: usize = 0;
    proof {
        assert(a0.take(0) =~= Seq::<Json>::empty());
    }
    while arr.len() > 0
        invariant
            k as int + arr.len() == total,
            arr@ == a0.skip(k as int),
            out@.len() == k,
            list_match(a0.take(k as int), out@, f),
            list_ok(a0.take(k as int), ok),
        decreases arr.len(),
    {
        proof {
            assert(a0.skip(k as int)[0] == a0[k as int]);
        }
        let v = arr.remove(0);
        match parse_command(v) {
            Ok(c) => {
                proof {
                    lemma_list_match_snoc(a0.take(k as int), out@, f, a0[k as int], c);
                    lemma_list_ok_snoc(a0.take(k as int), ok, a0[k as int]);
                    assert(a0.take(k as int + 1) =~= a0.take(k as int).push(a0[k as int]));
                }
                out.push(c);
            },
            Err(e) => {
                proof {
                    lemma_list_ok_at(a0, ok, k as int);
                }
                return Err(e);
            },
        }
        proof {
            assert(a0.skip(k as int).remove(0) =~= a0.skip(k as int + 1));
        }
        k = k + 1;
    }
    proof {
        assert(a0.take(total as int) =~= a0);
    }
    Ok(out)
}

/// Loads a list of events.
#[verifier::loop_isolation(false)]
pub fn parse_events(arr: Vec<Json>) -> (r: Result<Vec<Event>, GenError>)
    ensures
        r is Ok <==> list_ok(arr@, |jj: Json| event_loadable(jj)),
        r matches Ok(es) ==> list_match(arr@, es@, |jj: Json, e: Event| event_matches(jj, e)),
{
    let ghost f = |jj: Json, e: Event| event_matches(jj, e);
    let ghost ok = |jj: Json| event_loadable(jj);
    let ghost a0 = arr@;
    let total: usize = arr.len();
    let mut arr = arr;
    let mut out: Vec<Event> = Vec::new();
    let mut k: usize = 0;
    proof {
        assert(a0.take(0) =~= Seq::<Json>::empty());
    }
    while arr.len() > 0
        invariant
            k as int + arr.len() == total,
            arr@ == a0.skip(k as int),
            out@.len() == k,
            list_match(a0.take(k as int), out@, f),
            list_ok(a0.take(k as int), ok),
        decreases arr.len(),
    {
        proof {
            assert(a0.skip(k as int)[0] == a0[k as int]);
        }
        let v = arr.remove(0);
        match parse_event(v) {
            Ok(e) => {
                proof {
                    lemma_list_match_snoc(a0.take(k as int), out@, f, a0[k as int], e);
                    lemma_list_ok_snoc(a0.take(k as int), ok, a0[k as int]);
                    assert(a0.take(k as int + 1) =~= a0.take(k as int).push(a0[k as int]));
                }
                out.push(e);
            },
            Err(e) => {
                proof {
                    lemma_list_ok_at(a0, ok, k as int);
                }
                return Err(e);
            },
        }
        proof {
            assert(a0.skip(k as int).remove(0) =~= a0.skip(k as int + 1));
        }
        k = k + 1;
    }
    proof {
        assert(a0.take(total as int) =~= a0);
    }
    Ok(out)
}

/// Loads one domain.
pub fn parse_domain(j: Json) -> (r: Result<Domain, GenError>)
    ensures
        r is Ok <==> domain_loadable(j),
        r matches Ok(d) ==> domain_matches(j, d),
{
    let fields = match j {
        Json::Obj(fields) => fields,
        _ => {
            return Err(GenError);
        },
    };
    proof {
        reveal_strlit("domain");
        reveal_strlit("commands");
        reveal_strlit("events");
        reveal_strlit("types");
        assert("domain"@.len() == 6 && "commands"@.len() == 8 && "events"@.len() == 6
            && "types"@.len() == 5);
        assert("domain"@[0] == 'd' && "events"@[0] == 'e');
    }
    let (s_name, s_cmds, s_events, s_types) = take4(fields, "domain", "commands", "events", "types");
    let name = match s_name {
        Some(Json::Str(s)) => s,
        _ => {
            return Err(GenError);
        },
    };
    let commands = match s_cmds {
        Some(Json::Arr(arr)) => match parse_commands(arr) {
            Ok(cs) => cs,
            Err(e) => {
                return Err(e);
            },
        },
        _ => {
            return Err(GenError);
        },
    };
    let events = match s_events {
        None => None,
        Some(Json::Null) => None,
        Some(Json::Arr(arr)) => match parse_events(arr) {
            Ok(es) => Some(es),
            Err(e) => {
                return Err(e);
            },
        },
        Some(_) => {
            return Err(GenError);
        },
    };
    let types = match opt_decls_slot(s_types) {
        Ok(v) => v,
        Err(e) => {
            return Err(e);
        },
    };
    Ok(Domain { name, commands, events, types })
}

/// Loads a whole schema document: an object whose `domains` member is an
/// array of loadable domains; fails exactly when that shape is broken.
#[verifier::loop_isolation(false)]
pub fn parse_document(j: Json) -> (r: Result<SchemaDocument, GenError>)
    ensures
        r is Ok <==> document_loadable(j),
        r matches Ok(doc) ==> document_matches(j, doc),
{
    let fields = match j {
        Json::Obj(fields) => fields,
        _ => {
            return Err(GenError);
        },
    };
    proof {
        reveal_strlit("domains");
        reveal_strlit("commands");
        reveal_strlit("events");
        reveal_strlit("types");
        assert("domains"@.len() == 7 && "commands"@.len() == 8 && "events"@.len() == 6
            && "types"@.len() == 5);
    }
    let (s_domains, _a, _b, _c) = take4(fields, "domains", "commands", "events", "types");
    let arr = match s_domains {
        Some(Json::Arr(arr)) => arr,
        _ => {
            return Err(GenError);
        },
    };
    let ghost f = |jj: Json, d: Domain| domain_matches(jj, d);
    let ghost ok = |jj: Json| domain_loadable(jj);
    let ghost a0 = arr@;
    let total: usize = arr.len();
    let mut arr = arr;
    let mut out: Vec<Domain> = Vec::new();
    let mut k: usize = 0;
    proof {
        assert(a0.take(0) =~= Seq::<Json>::empty());
    }
    while arr.len() > 0
        invariant
            k as int + arr.len() == total,
            arr@ == a0.skip(k as int),
            out@.len() == k,
            list_match(a0.take(k as int), out@, f),
            list_ok(a0.take(k as int), ok),
        decreases arr.len(),
    {
        proof {
            assert(a0.skip(k as int)[0] == a0[k as int]);
        }
        let v = arr.remove(0);
        match parse_domain(v) {
            Ok(d) => {
                proof {
                    lemma_list_match_snoc(a0.take(k as int), out@, f, a0[k as int], d);
                    lemma_list_ok_snoc(a0.take(k as int), ok, a0[k as int]);
                    assert(a0.take(k as int + 1) =~= a0.take(k as int).push(a0[k as int]));
                }
                out.push(d);
            },
            Err(e) => {
                proof {
                    lemma_list_ok_at(a0, ok, k as int);
                }
                return Err(e);
            },
        }
        proof {
            assert(a0.skip(k as int).remove(0) =~= a0.skip(k as int + 1));
        }
        k = k + 1;
    }
    proof {
        assert(a0.take(total as int) =~= a0);
    }
    Ok(SchemaDocument { domains: out })
}

} // verus!
