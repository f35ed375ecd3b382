//! The protocol client core: request framing, response correlation, and
//! event buffering.
//!
//! The transport (HTTP discovery, the persistent socket) lives outside this
//! crate; it hands every received wire value to [`DebugClient::accept_message`]
//! and sends the text produced by [`DebugClient::next_request`]. The state
//! kept here — the monotonic request id and the two buffers — and every
//! decision taken on a wire value are verified.

use vstd::prelude::*;
use crate::json::{Json, json_text, quoted, lookup, has_key, obj_get, str_eq, lemma_lookup_snoc};
use crate::text::dec_str;

verus! {

/// The error object a server may attach to a response.
#[derive(Debug)]
pub struct ErrorInfo {
    pub code: i64,
    pub message: String,
    pub data: Option<String>,
}

/// A failure surfaced to the caller of the client.
#[derive(Debug)]
pub enum Error {
    /// The connection failed to open, read or write. Raised by the
    /// transport, never by this module.
    Transport(String),
    /// A wire payload did not have the expected shape.
    Decode(String),
    /// The server answered a request with an explicit error object.
    CallError(Option<ErrorInfo>),
}

/// A buffered response, correlated to a request by `id`.
#[derive(Debug)]
pub struct Response {
    pub id: u64,
    pub result: Option<Json>,
    pub error: Option<ErrorInfo>,
}

/// A buffered server-pushed event.
#[derive(Debug)]
pub struct EventMsg {
    /// The wire tag, `"Domain.event"`.
    pub method: String,
    /// The payload, absent when the wire message had no `params` member.
    pub params: Option<Json>,
}

/// Client state: the next request id and the two unbounded buffers.
pub struct DebugClient {
    /// Next request id to assign; starts at 1 and only ever grows.
    pub id: u64,
    /// Events received and not yet consumed, in arrival order.
    pub pending_events: Vec<EventMsg>,
    /// Responses received and not yet claimed by their request.
    pub pending_responses: Vec<Response>,
}

/// The serialized request envelope `{"id":...,"method":"...","params":...}`.
pub open spec fn request_text(id: nat, method: Seq<char>, params: Json) -> Seq<char> {
    "{\"id\":"@ + dec_str(id) + ",\"method\":"@ + quoted(method) + ",\"params\":"@ + json_text(
        params,
    ) + "}"@
}

/// The error object parsed from a wire value, if it has the expected shape:
/// an object with an integer `code`, a string `message`, and an optional
/// string `data` (absent or `null` both mean "no data").
pub open spec fn parse_error_info(j: Json) -> Option<ErrorInfo> {
    match j {
        Json::Obj(ef) => match (lookup(ef@, "code"@), lookup(ef@, "message"@)) {
            (Some(Json::Int(c)), Some(Json::Str(m))) => match lookup(ef@, "data"@) {
                None => Some(ErrorInfo { code: c, message: m, data: None }),
                Some(Json::Null) => Some(ErrorInfo { code: c, message: m, data: None }),
                Some(Json::Str(d)) => Some(ErrorInfo { code: c, message: m, data: Some(d) }),
                Some(_) => None,
            },
            _ => None,
        },
        _ => None,
    }
}

/// The response parsed from the members of a wire object that carries an
/// `id`: the id must be a non-negative integer, `result` is kept as-is
/// (`null` meaning absent), and `error`, when present, must parse as an
/// [`ErrorInfo`].
pub open spec fn parse_response_obj(fields: Seq<(String, Json)>) -> Option<Response> {
    match lookup(fields, "id"@) {
        Some(Json::Int(n)) => if n >= 0 {
            match lookup(fields, "error"@) {
                None => Some(
                    Response { id: n as u64, result: norm_result(lookup(fields, "result"@)), error: None },
                ),
                Some(Json::Null) => Some(
                    Response { id: n as u64, result: norm_result(lookup(fields, "result"@)), error: None },
                ),
                Some(e) => match parse_error_info(e) {
                    Some(info) => Some(
                        Response {
                            id: n as u64,
                            result: norm_result(lookup(fields, "result"@)),
                            error: Some(info),
                        },
                    ),
                    None => None,
                },
            }
        } else {
            None
        },
        _ => None,
    }
}

/// A `result` member that is absent or `null` both mean "no result".
pub open spec fn norm_result(r: Option<Json>) -> Option<Json> {
    match r {
        Some(Json::Null) => None,
        other => other,
    }
}

/// Whether `tag` is one of the declared event tags.
pub open spec fn known_tag(tags: Seq<String>, tag: Seq<char>) -> bool {
    exists|k: int| 0 <= k < tags.len() && tags[k]@ == tag
}

/// The event parsed from the members of a wire object without an `id`:
/// `method` must be a string naming a declared event; the payload is kept
/// as-is and may be absent or empty.
pub open spec fn parse_event_obj(fields: Seq<(String, Json)>, tags: Seq<String>) -> Option<
    EventMsg,
> {
    match lookup(fields, "method"@) {
        Some(Json::Str(m)) => if known_tag(tags, m@) {
            Some(EventMsg { method: m, params: lookup(fields, "params"@) })
        } else {
            None
        },
        _ => None,
    }
}

/// What one classify-and-buffer step does: a wire object with an `id` that
/// parses as a response is appended to the response buffer; one without an
/// `id` that parses as a declared event is appended to the event buffer;
/// anything else is a decode failure that leaves both buffers untouched.
pub open spec fn accept_outcome(
    pre: DebugClient,
    post: DebugClient,
    r: Result<(), Error>,
    msg: Json,
    tags: Seq<String>,
) -> bool {
    match msg {
        Json::Obj(fields) => if has_key(fields@, "id"@) {
            match parse_response_obj(fields@) {
                Some(resp) => r is Ok && post.pending_responses@ == pre.pending_responses@.push(
                    resp,
                ) && post.pending_events == pre.pending_events,
                None => r is Err && post.pending_responses == pre.pending_responses
                    && post.pending_events == pre.pending_events,
            }
        } else {
            match parse_event_obj(fields@, tags) {
                Some(ev) => r is Ok && post.pending_events@ == pre.pending_events@.push(ev)
                    && post.pending_responses == pre.pending_responses,
                None => r is Err && post.pending_responses == pre.pending_responses
                    && post.pending_events == pre.pending_events,
            }
        },
        _ => r is Err && post.pending_responses == pre.pending_responses && post.pending_events
            == pre.pending_events,
    }
}

/// The index of the first buffered response bearing `id`, if any.
pub open spec fn first_match(q: Seq<Response>, id: u64) -> Option<int>
    decreases q.len(),
{
    if q.len() == 0 {
        None
    } else if q[0].id == id {
        Some(0int)
    } else {
        match first_match(q.drop_first(), id) {
            Some(k) => Some(k + 1),
            None => None,
        }
    }
}

/// Response correlation never yields a mismatched id: whatever the order in
/// which responses and events were delivered and buffered, the entry that a
/// request claims is the first one bearing exactly the id assigned to that
/// request at send time.
pub proof fn lemma_response_correlation(q: Seq<Response>, id: u64)
    ensures
        match first_match(q, id) {
            Some(k) => 0 <= k < q.len() && q[k].id == id && (forall|j: int|
                0 <= j < k ==> q[j].id != id),
            None => forall|j: int| 0 <= j < q.len() ==> q[j].id != id,
        },
    decreases q.len(),
{
    if q.len() > 0 && q[0].id != id {
        lemma_response_correlation(q.drop_first(), id);
        match first_match(q.drop_first(), id) {
            Some(k) => {
                assert(q.drop_first()[k] == q[k + 1]);
                assert forall|j: int| 0 <= j < k + 1 implies q[j].id != id by {
                    if j > 0 {
                        assert(q.drop_first()[j - 1] == q[j]);
                    }
                }
            },
            None => {
                assert forall|j: int| 0 <= j < q.len() implies q[j].id != id by {
                    if j > 0 {
                        assert(q.drop_first()[j - 1] == q[j]);
                    }
                }
            },
        }
    }
}

/// Splits the first occurrences of three distinct keys out of an object's
/// members, handing their values over by move.
#[verifier::loop_isolation(false)]
fn take3(
    fields: Vec<(String, Json)>,
    k0: &str,
    k1: &str,
    k2: &str,
) -> (r: (Option<Json>, Option<Json>, Option<Json>))
    requires
        k0@ != k1@,
        k0@ != k2@,
        k1@ != k2@,
    ensures
        r.0 == lookup(fields@, k0@),
        r.1 == lookup(fields@, k1@),
        r.2 == lookup(fields@, k2@),
{
    let ghost all = fields@;
    let total: usize = fields.len();
    let mut fields = fields;
    let mut s0: Option<Json> = None;
    let mut s1: Option<Json> = None;
    let mut s2: Option<Json> = None;
    let mut i: usize = 0;
    let ghost n = all.len();
    proof {
        assert(all.take(0) =~= Seq::<(String, Json)>::empty());
    }
    while fields.len() > 0
        invariant
            0 <= i,
            i as int + fields.len() == n,
            n == total,
            fields@ == all.skip(i as int),
            s0 == lookup(all.take(i as int), k0@),
            s1 == lookup(all.take(i as int), k1@),
            s2 == lookup(all.take(i as int), k2@),
        decreases fields.len(),
    {
        proof {
            assert(all.skip(i as int)[0] == all[i as int]);
        }
        let (key, v) = fields.remove(0);
        let ghost e = all[i as int];
        if s0.is_none() && str_eq(key.as_str(), k0) {
            s0 = Some(v);
        } else if s1.is_none() && str_eq(key.as_str(), k1) {
            s1 = Some(v);
        } else if s2.is_none() && str_eq(key.as_str(), k2) {
            s2 = Some(v);
        }
        proof {
            assert(all.take(i as int + 1) =~= all.take(i as int).push(e));
            lemma_lookup_snoc(all.take(i as int), e, k0@);
            lemma_lookup_snoc(all.take(i as int), e, k1@);
            lemma_lookup_snoc(all.take(i as int), e, k2@);
            assert(all.skip(i as int).remove(0) =~= all.skip(i as int + 1));
        }
        i = i + 1;
    }
    proof {
        assert(all.take(n as int) =~= all);
    }
    (s0, s1, s2)
}

impl DebugClient {
    /// A fresh client: the first request will carry id 1, nothing buffered.
    pub fn new() -> (r: DebugClient)
        ensures
            r.id == 1,
            r.pending_events@ =~= Seq::<EventMsg>::empty(),
            r.pending_responses@ =~= Seq::<Response>::empty(),
    {
        DebugClient { id: 1, pending_events: Vec::new(), pending_responses: Vec::new() }
    }

    /// Assigns the next request id — unique for the client's lifetime,
    /// strictly increasing, never reused — and frames the request envelope
    /// exactly as it goes on the wire.
    pub fn next_request(&mut self, method: &str, params: &Json) -> (r: (u64, String))
        requires
            old(self).id < u64::MAX,
        ensures
            r.0 == old(self).id,
            r.1@ == request_text(old(self).id as nat, method@, *params),
            final(self).id == old(self).id + 1,
            final(self).pending_events == old(self).pending_events,
            final(self).pending_responses == old(self).pending_responses,
    {
        let reqid = self.id;
        self.id = self.id + 1;
        let mut out = String::new();
        out.append("{\"id\":");
        crate::text::append_dec(&mut out, reqid);
        out.append(",\"method\":");
        crate::json::append_quoted(&mut out, method);
        out.append(",\"params\":");
        crate::json::append_json(&mut out, params);
        out.append("}");
        proof {
            assert(out@ =~= request_text(reqid as nat, method@, *params));
        }
        (reqid, out)
    }

    /// Classifies one received wire value and buffers it: a value carrying
    /// an `id` member is a response, any other is an event — that absence is
    /// the sole discriminator. `tags` is the closed set of event tags the
    /// schema declares; an event with any other tag fails to decode. An
    /// event's payload may be an empty object or missing entirely. On a
    /// decode failure nothing is buffered.
    #[verifier::loop_isolation(false)]
    pub fn accept_message(&mut self, msg: Json, tags: &Vec<String>) -> (r: Result<(), Error>)
        ensures
            final(self).id == old(self).id,
            accept_outcome(*old(self), *final(self), r, msg, tags@),
    {
        match msg {
            Json::Obj(fields) => {
                let is_response = obj_get(&fields, "id").is_some();
                if is_response {
                    proof {
                        reveal_strlit("id");
                        reveal_strlit("result");
                        reveal_strlit("error");
                        assert("id"@.len() == 2 && "result"@.len() == 6 && "error"@.len() == 5);
                    }
                    let (idv, resv, errv) = take3(fields, "id", "result", "error");
                    let id: u64 = match idv {
                        Some(Json::Int(n)) => {
                            if n >= 0 {
                                n as u64
                            } else {
                                return Err(Error::Decode(String::from_str(
                                    "response id is negative",
                                )));
                            }
                        },
                        _ => {
                            return Err(Error::Decode(String::from_str(
                                "response id is not an integer",
                            )));
                        },
                    };
                    let result: Option<Json> = match resv {
                        Some(Json::Null) => None,
                        other => other,
                    };
                    let error: Option<ErrorInfo> = match errv {
                        None => None,
                        Some(Json::Null) => None,
                        Some(e) => match parse_error_info_exec(e) {
                            Some(info) => Some(info),
                            None => {
                                return Err(Error::Decode(String::from_str(
                                    "malformed error object",
                                )));
                            },
                        },
                    };
                    self.pending_responses.push(Response { id, result, error });
                    Ok(())
                } else {
                    proof {
                        reveal_strlit("method");
                        reveal_strlit("params");
                        reveal_strlit("id");
                        assert("method"@.len() == 6 && "params"@.len() == 6 && "id"@.len() == 2);
                        assert("method"@[0] == 'm' && "params"@[0] == 'p');
                    }
                    let (mv, pv, _unused) = take3(fields, "method", "params", "id");
                    let method: String = match mv {
                        Some(Json::Str(m)) => m,
                        _ => {
                            return Err(Error::Decode(String::from_str(
                                "event has no method string",
                            )));
                        },
                    };
                    let mut known = false;
                    let mut k: usize = 0;
                    while k < tags.len()
                        invariant
                            k <= tags.len(),
                            known == exists|j: int| 0 <= j < k && tags@[j]@ == method@,
                        decreases tags.len() - k,
                    {
                        if str_eq(tags[k].as_str(), method.as_str()) {
                            known = true;
                        }
                        k = k + 1;
                    }
                    if !known {
                        return Err(Error::Decode(String::from_str("unknown event tag")));
                    }
                    self.pending_events.push(EventMsg { method, params: pv });
                    Ok(())
                }
            },
            _ => Err(Error::Decode(String::from_str("wire message is not an object"))),
        }
    }

    /// Claims the first buffered response bearing `id`, removing it from the
    /// buffer; every other buffered message stays, in order.
    #[verifier::loop_isolation(false)]
    pub fn take_response(&mut self, id: u64) -> (r: Option<Response>)
        ensures
            final(self).id == old(self).id,
            final(self).pending_events == old(self).pending_events,
            match first_match(old(self).pending_responses@, id) {
                Some(k) => r == Some(old(self).pending_responses@[k]) && r.unwrap().id == id
                    && final(self).pending_responses@ == old(
                    self,
                ).pending_responses@.remove(k),
                None => r is None && final(self).pending_responses == old(
                    self,
                ).pending_responses,
            },
    {
        proof {
            lemma_response_correlation(self.pending_responses@, id);
        }
        let n = self.pending_responses.len();
        let mut i: usize = 0;
        while i < n
            invariant
                n == self.pending_responses.len(),
                i <= n,
                forall|j: int| 0 <= j < i ==> self.pending_responses@[j].id != id,
                *self == *old(self),
            decreases n - i,
        {
            if self.pending_responses[i].id == id {
                proof {
                    lemma_first_match_at(self.pending_responses@, id, i as int);
                }
                let resp = self.pending_responses.remove(i);
                return Some(resp);
            }
            i = i + 1;
        }
        None
    }

    /// The outcome of a claimed response: a present `result` is success, a
    /// missing one surfaces the server's error object as a call error.
    pub fn complete(resp: Response) -> (r: Result<Json, Error>)
        ensures
            match resp.result {
                Some(v) => r == Ok::<Json, Error>(v),
                None => r matches Err(e) && e matches Error::CallError(info) && info
                    == resp.error,
            },
    {
        match resp.result {
            Some(v) => Ok(v),
            None => Err(Error::CallError(resp.error)),
        }
    }
}

/// The first id-bearing position pins down `first_match`.
proof fn lemma_first_match_at(q: Seq<Response>, id: u64, i: int)
    requires
        0 <= i < q.len(),
        q[i].id == id,
        forall|j: int| 0 <= j < i ==> q[j].id != id,
    ensures
        first_match(q, id) == Some(i),
    decreases q.len(),
{
    if i > 0 {
        assert forall|j: int| 0 <= j < i - 1 implies q.drop_first()[j].id != id by {
            assert(q.drop_first()[j] == q[j + 1]);
        }
        assert(q.drop_first()[i - 1] == q[i]);
        lemma_first_match_at(q.drop_first(), id, i - 1);
    }
}

/// Parses a wire error object, or rejects it.
fn parse_error_info_exec(j: Json) -> (r: Option<ErrorInfo>)
    ensures
        r == parse_error_info(j),
{
    match j {
        Json::Obj(ef) => {
            proof {
                reveal_strlit("code");
                reveal_strlit("message");
                reveal_strlit("data");
                assert("code"@.len() == 4 && "message"@.len() == 7 && "data"@.len() == 4);
                assert("code"@[0] == 'c' && "data"@[0] == 'd');
            }
            let (cv, mv, dv) = take3(ef, "code", "message", "data");
            match (cv, mv) {
                (Some(Json::Int(c)), Some(Json::Str(m))) => match dv {
                    None => Some(ErrorInfo { code: c, message: m, data: None }),
                    Some(Json::Null) => Some(ErrorInfo { code: c, message: m, data: None }),
                    Some(Json::Str(d)) => Some(ErrorInfo { code: c, message: m, data: Some(d) }),
                    Some(_) => None,
                },
                _ => None,
            }
        },
        _ => None,
    }
}

/// Extracts the connection endpoint from a discovery payload: the
/// `webSocketDebuggerUrl` string of the first element of the target list.
/// Fails exactly when the payload is not a non-empty array whose first
/// element carries that member as a string.
pub fn discovery_url(v: &Json) -> (r: Result<String, Error>)
    ensures
        match *v {
            Json::Arr(targets) => if targets.len() > 0 {
                match targets[0] {
                    Json::Obj(fields) => match lookup(fields@, "webSocketDebuggerUrl"@) {
                        Some(Json::Str(s)) => r matches Ok(u) && u@ == s@,
                        _ => r is Err,
                    },
                    _ => r is Err,
                }
            } else {
                r is Err
            },
            _ => r is Err,
        },
{
    match v {
        Json::Arr(targets) => {
            if targets.len() == 0 {
                return Err(Error::Decode(String::from_str("target list is empty")));
            }
            match &targets[0] {
                Json::Obj(fields) => {
                    proof {
                        reveal_strlit("webSocketDebuggerUrl");
                    }
                    match obj_get(fields, "webSocketDebuggerUrl") {
                        Some(Json::Str(s)) => Ok(s.clone()),
                        _ => Err(Error::Decode(String::from_str(
                            "target has no webSocketDebuggerUrl string",
                        ))),
                    }
                },
                _ => Err(Error::Decode(String::from_str("target is not an object"))),
            }
        },
        _ => Err(Error::Decode(String::from_str("discovery payload is not an array"))),
    }
}

/// The members actually serialized for a parameter set: entries whose
/// value is present, in declaration order, under their original wire
/// names; an unset optional parameter contributes nothing — never an
/// explicit null.
pub open spec fn present_entries(s: Seq<(String, Option<Json>)>) -> Seq<(String, Json)>
    decreases s.len(),
{
    if s.len() == 0 {
        Seq::<(String, Json)>::empty()
    } else {
        let rest = present_entries(s.drop_first());
        match s[0].1 {
            Some(v) => seq![(s[0].0, v)] + rest,
            None => rest,
        }
    }
}

/// Packs a parameter set into the request's `params` object, omitting
/// every unset value.
#[verifier::loop_isolation(false)]
pub fn params_object(entries: Vec<(String, Option<Json>)>) -> (r: Json)
    ensures
        r matches Json::Obj(fields) && fields@ == present_entries(entries@),
{
    let ghost all = entries@;
    let total: usize = entries.len();
    let mut entries = entries;
    let mut fields: Vec<(String, Json)> = Vec::new();
    let mut i: usize = 0;
    proof {
        assert(present_entries(all.take(0)) =~= Seq::<(String, Json)>::empty());
    }
    while entries.len() > 0
        invariant
            i as int + entries.len() == total,
            entries@ == all.skip(i as int),
            fields@ == present_entries(all.take(i as int)),
        decreases entries.len(),
    {
        proof {
            assert(all.skip(i as int)[0] == all[i as int]);
        }
        let (key, v) = entries.remove(0);
        let ghost e = all[i as int];
        match v {
            Some(v) => fields.push((key, v)),
            None => {
            },
        }
        proof {
            assert(all.take(i as int + 1) =~= all.take(i as int).push(e));
            lemma_present_snoc(all.take(i as int), e);
            assert(all.skip(i as int).remove(0) =~= all.skip(i as int + 1));
            if e.1 is Some {
                assert(fields@ =~= present_entries(all.take(i as int + 1)));
            }
        }
        i = i + 1;
    }
    proof {
        assert(all.take(total as int) =~= all);
    }
    Json::Obj(fields)
}

/// Appending one entry extends the serialized members by its value, when
/// it has one.
proof fn lemma_present_snoc(s: Seq<(String, Option<Json>)>, e: (String, Option<Json>))
    ensures
        present_entries(s.push(e)) == match e.1 {
            Some(v) => present_entries(s).push((e.0, v)),
            None => present_entries(s),
        },
    decreases s.len(),
{
    let t = s.push(e);
    assert(t.len() == s.len() + 1);
    if s.len() == 0 {
        assert(t[0] == e);
        assert(t.drop_first() =~= Seq::<(String, Option<Json>)>::empty());
        assert(present_entries(t.drop_first()) =~= Seq::<(String, Json)>::empty());
        match e.1 {
            Some(v) => {
                assert(present_entries(t) == seq![(t[0].0, v)] + present_entries(t.drop_first()));
                assert(seq![(e.0, v)] + Seq::<(String, Json)>::empty() =~= present_entries(
                    s,
                ).push((e.0, v)));
            },
            None => {
            },
        }
    } else {
        assert(t[0] == s[0]);
        assert(t.drop_first() =~= s.drop_first().push(e));
        lemma_present_snoc(s.drop_first(), e);
        match (s[0].1, e.1) {
            (Some(v0), Some(v)) => {
                assert(present_entries(t) == seq![(t[0].0, v0)] + present_entries(t.drop_first()));
                assert(present_entries(s) == seq![(s[0].0, v0)] + present_entries(s.drop_first()));
                assert(present_entries(t.drop_first()) == present_entries(s.drop_first()).push(
                    (e.0, v),
                ));
                assert(seq![(s[0].0, v0)] + present_entries(s.drop_first()).push((e.0, v)) =~=
                    present_entries(s).push((e.0, v)));
            },
            (None, Some(v)) => {
                assert(present_entries(t) == present_entries(t.drop_first()));
            },
            _ => {
            },
        }
    }
}

/// The value the serialized object carries for key `k`: that of the first
/// entry named `k` whose value is present.
pub open spec fn first_set(s: Seq<(String, Option<Json>)>, k: Seq<char>) -> Option<Json>
    decreases s.len(),
{
    if s.len() == 0 {
        None
    } else if s[0].0@ == k && s[0].1 is Some {
        Some(s[0].1.unwrap())
    } else {
        first_set(s.drop_first(), k)
    }
}

proof fn lemma_params_lookup(s: Seq<(String, Option<Json>)>, k: Seq<char>)
    ensures
        lookup(present_entries(s), k) == first_set(s, k),
    decreases s.len(),
{
    if s.len() > 0 {
        lemma_params_lookup(s.drop_first(), k);
        match s[0].1 {
            Some(v) => {
                let pe = present_entries(s);
                assert(pe == seq![(s[0].0, v)] + present_entries(s.drop_first()));
                assert(pe[0] == (s[0].0, v));
                assert(pe.drop_first() =~= present_entries(s.drop_first()));
            },
            None => {
            },
        }
    }
}

/// Law: a parameter left unset is omitted from the serialized request
/// object entirely, and one set to a value appears under its original wire
/// name with exactly that value.
pub proof fn lemma_optional_param_serialization(s: Seq<(String, Option<Json>)>, k: Seq<char>)
    ensures
        first_set(s, k) is None ==> !has_key(present_entries(s), k),
        first_set(s, k) matches Some(v) ==> lookup(present_entries(s), k) == Some(v),
{
    lemma_params_lookup(s, k);
}

/// Law: an event with no payload decodes successfully however the wire
/// spelled that absence. A wire object whose `method` is a declared tag is
/// accepted whether it carries `"params": {}`, no `params` member at all,
/// or any payload; what was on the wire is kept as-is.
pub proof fn lemma_paramless_event_decodes(
    fields: Seq<(String, Json)>,
    tags: Seq<String>,
    m: String,
)
    requires
        lookup(fields, "method"@) == Some(Json::Str(m)),
        known_tag(tags, m@),
    ensures
        parse_event_obj(fields, tags) matches Some(ev) && ev.method == m && ev.params == lookup(
            fields,
            "params"@,
        ),
{
}

/// Decodes an enumeration wire value against the schema's declared
/// variants: the first matching variant's index, or a decode failure when
/// the value is not among them — never a silent fallback.
#[verifier::loop_isolation(false)]
pub fn decode_enum_value(variants: &Vec<String>, wire: &str) -> (r: Result<usize, Error>)
    ensures
        r matches Ok(i) ==> i < variants.len() && variants@[i as int]@ == wire@ && (forall|j: int|
            0 <= j < i ==> variants@[j]@ != wire@),
        r is Ok <==> known_tag(variants@, wire@),
        r matches Err(e) ==> e matches Error::Decode(_),
{
    let n: usize = variants.len();
    let mut i: usize = 0;
    while i < n
        invariant
            i <= n,
            forall|j: int| 0 <= j < i ==> variants@[j]@ != wire@,
        decreases n - i,
    {
        if str_eq(variants[i].as_str(), wire) {
            return Ok(i);
        }
        i = i + 1;
    }
    Err(Error::Decode(String::from_str("enumeration value is not declared in the schema")))
}

} // verus!
