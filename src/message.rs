//! The four message shapes, and how a message maps to and from a JSON object.
//!
//! The wire form carries no tag: a decoder tries Request, then Response, then
//! Notification, and takes the first whose required members are present and of
//! the right kind. Unknown members are ignored. Disconnected is never decoded.

use vstd::prelude::*;
use vstd::string::StringExecFns;
use crate::json::{
    Json, entries_map, is_str_of, is_object_of, parsed_json, json_text, parse_json, print_json,
    lemma_entries_map_append,
};

verus! {

/// A call that expects exactly one Response with the same id.
#[derive(Debug)]
pub struct Request {
    pub id: String,
    pub method: String,
    pub params: Vec<(String, Json)>,
}

/// The reply to a Request. `result` and `error` are each optional, and left
/// out of the wire form when absent.
#[derive(Debug)]
pub struct Response {
    pub id: String,
    pub method: String,
    pub result: Option<Vec<(String, Json)>>,
    pub error: Option<Json>,
}

/// A message that expects no reply.
#[derive(Debug)]
pub struct Notification {
    pub method: String,
    pub params: Vec<(String, Json)>,
}

#[derive(Debug)]
pub enum Message {
    Request(Request),
    Response(Response),
    Notification(Notification),
    /// Marks an ended connection; never the result of decoding.
    Disconnected,
}

/// Why a message could not be had, or why the connection ended.
#[derive(Debug)]
pub enum BridgeError {
    /// A text frame that is not a message; the detail says why.
    MalformedMessage(String),
    /// The transport failed while reading.
    TransportReadFailure(String),
    /// The connection is closed.
    ConnectionClosed,
}

impl Notification {
    pub fn new(method: String, params: Vec<(String, Json)>) -> (r: Notification)
        ensures
            r.method == method,
            r.params == params,
    {
        Notification { method, params }
    }

    pub fn method(&self) -> (r: &String)
        ensures
            r == &self.method,
    {
        &self.method
    }

    pub fn params(&self) -> (r: &Vec<(String, Json)>)
        ensures
            r == &self.params,
    {
        &self.params
    }
}

/// A message as mathematical data: strings as character sequences, and the
/// members of an object as a map.
pub enum MessageView {
    Request { id: Seq<char>, method: Seq<char>, params: Map<Seq<char>, Json> },
    Response {
        id: Seq<char>,
        method: Seq<char>,
        result: Option<Map<Seq<char>, Json>>,
        error: Option<Json>,
    },
    Notification { method: Seq<char>, params: Map<Seq<char>, Json> },
    Disconnected,
}

pub open spec fn optional_members_view(o: Option<Vec<(String, Json)>>) -> Option<Map<Seq<char>, Json>> {
    match o {
        Some(v) => Some(entries_map(v@)),
        None => None,
    }
}

impl View for Message {
    type V = MessageView;

    open spec fn view(&self) -> MessageView {
        match self {
            Message::Request(r) => MessageView::Request {
                id: r.id@,
                method: r.method@,
                params: entries_map(r.params@),
            },
            Message::Response(r) => MessageView::Response {
                id: r.id@,
                method: r.method@,
                result: optional_members_view(r.result),
                error: r.error,
            },
            Message::Notification(n) => MessageView::Notification {
                method: n.method@,
                params: entries_map(n.params@),
            },
            Message::Disconnected => MessageView::Disconnected,
        }
    }
}

pub open spec fn id_key() -> Seq<char> {
    seq!['i', 'd']
}

pub open spec fn method_key() -> Seq<char> {
    seq!['m', 'e', 't', 'h', 'o', 'd']
}

pub open spec fn params_key() -> Seq<char> {
    seq!['p', 'a', 'r', 'a', 'm', 's']
}

pub open spec fn result_key() -> Seq<char> {
    seq!['r', 'e', 's', 'u', 'l', 't']
}

pub open spec fn error_key() -> Seq<char> {
    seq!['e', 'r', 'r', 'o', 'r']
}

pub open spec fn member(f: Map<Seq<char>, Json>, k: Seq<char>) -> Option<Json> {
    if f.contains_key(k) {
        Some(f[k])
    } else {
        None
    }
}

/// The member `k`, where it is a string.
pub open spec fn str_member(f: Map<Seq<char>, Json>, k: Seq<char>) -> Option<Seq<char>> {
    if f.contains_key(k) && f[k] is Str {
        Some(f[k]->Str_0@)
    } else {
        None
    }
}

/// The members of member `k`, where it is an object.
pub open spec fn object_member(f: Map<Seq<char>, Json>, k: Seq<char>) -> Option<Map<Seq<char>, Json>> {
    if f.contains_key(k) && f[k] is Object {
        Some(entries_map(f[k]->Object_0@))
    } else {
        None
    }
}

/// An optional object member is absent, null, or an object.
pub open spec fn optional_object_fits(f: Map<Seq<char>, Json>, k: Seq<char>) -> bool {
    !f.contains_key(k) || f[k] is Null || f[k] is Object
}

/// An optional member of any kind: absent and null both read as none.
pub open spec fn optional_member(f: Map<Seq<char>, Json>, k: Seq<char>) -> Option<Json> {
    if f.contains_key(k) && !(f[k] is Null) {
        Some(f[k])
    } else {
        None
    }
}

/// The message that an object with members `f` decodes to: the first of
/// Request, Response and Notification whose required members fit.
pub open spec fn message_of_members(f: Map<Seq<char>, Json>) -> Option<MessageView> {
    if str_member(f, id_key()) is Some && str_member(f, method_key()) is Some && object_member(
        f,
        params_key(),
    ) is Some {
        Some(
            MessageView::Request {
                id: str_member(f, id_key())->0,
                method: str_member(f, method_key())->0,
                params: object_member(f, params_key())->0,
            },
        )
    } else if str_member(f, id_key()) is Some && str_member(f, method_key()) is Some
        && optional_object_fits(f, result_key()) {
        Some(
            MessageView::Response {
                id: str_member(f, id_key())->0,
                method: str_member(f, method_key())->0,
                result: object_member(f, result_key()),
                error: optional_member(f, error_key()),
            },
        )
    } else if str_member(f, method_key()) is Some && object_member(f, params_key()) is Some {
        Some(
            MessageView::Notification {
                method: str_member(f, method_key())->0,
                params: object_member(f, params_key())->0,
            },
        )
    } else {
        None
    }
}

/// The message that a JSON value decodes to; only objects decode.
pub open spec fn message_of_json(j: Json) -> Option<MessageView> {
    match j {
        Json::Object(m) => message_of_members(entries_map(m@)),
        _ => None,
    }
}

/// The message that a text payload decodes to.
pub open spec fn message_of_text(t: Seq<char>) -> Option<MessageView> {
    match parsed_json(t) {
        Some(j) => message_of_json(j),
        None => None,
    }
}

/// The keys a Response carries on the wire.
pub open spec fn response_keys(has_result: bool, has_error: bool) -> Set<Seq<char>> {
    let base = set![id_key(), method_key()];
    let with_result = if has_result { base.insert(result_key()) } else { base };
    if has_error { with_result.insert(error_key()) } else { with_result }
}

/// `f` holds exactly the members that the wire form of `m` has.
pub open spec fn members_encode(m: MessageView, f: Map<Seq<char>, Json>) -> bool {
    match m {
        MessageView::Request { id, method, params } => {
            &&& f.dom() == set![id_key(), method_key(), params_key()]
            &&& is_str_of(f[id_key()], id)
            &&& is_str_of(f[method_key()], method)
            &&& is_object_of(f[params_key()], params)
        },
        MessageView::Response { id, method, result, error } => {
            &&& f.dom() == response_keys(result is Some, error is Some)
            &&& is_str_of(f[id_key()], id)
            &&& is_str_of(f[method_key()], method)
            &&& (result is Some ==> is_object_of(f[result_key()], result->0))
            &&& (error is Some ==> f[error_key()] == error->0)
        },
        MessageView::Notification { method, params } => {
            &&& f.dom() == set![method_key(), params_key()]
            &&& is_str_of(f[method_key()], method)
            &&& is_object_of(f[params_key()], params)
        },
        MessageView::Disconnected => false,
    }
}

/// `j` is the JSON form of `m`: an object with exactly the members of its
/// shape, or null for Disconnected.
pub open spec fn encodes(m: MessageView, j: Json) -> bool {
    match m {
        MessageView::Disconnected => j is Null,
        _ => j is Object && members_encode(m, entries_map(j->Object_0@)),
    }
}

/// A message that survives the wire: any but Disconnected, where a
/// Response's error, if present, is not null (null reads back as absent).
pub open spec fn is_wire_message(m: MessageView) -> bool {
    match m {
        MessageView::Disconnected => false,
        MessageView::Response { error, .. } => error != Some(Json::Null),
        _ => true,
    }
}

pub proof fn lemma_keys_distinct()
    ensures
        id_key() != method_key(),
        id_key() != params_key(),
        id_key() != result_key(),
        id_key() != error_key(),
        method_key() != params_key(),
        method_key() != result_key(),
        method_key() != error_key(),
        params_key() != result_key(),
        params_key() != error_key(),
        result_key() != error_key(),
{
    assert(method_key()[0] != params_key()[0]);
    assert(method_key()[0] != result_key()[0]);
    assert(params_key()[0] != result_key()[0]);
}


fn take_str(slot: Option<Json>) -> (r: Option<String>)
    ensures
        r is Some <==> (slot is Some && slot->0 is Str),
        r is Some ==> r->0 == slot->0->Str_0,
{
    match slot {
        Some(Json::Str(s)) => Some(s),
        _ => None,
    }
}

fn take_object(slot: Option<Json>) -> (r: Option<Vec<(String, Json)>>)
    ensures
        r is Some <==> (slot is Some && slot->0 is Object),
        r is Some ==> r->0 == slot->0->Object_0,
{
    match slot {
        Some(Json::Object(m)) => Some(m),
        _ => None,
    }
}

/// An optional object member: absent or null give `Ok(None)`, an object its
/// members, anything else `Err`.
fn take_optional_object(slot: Option<Json>) -> (r: Result<Option<Vec<(String, Json)>>, ()>)
    ensures
        r is Ok <==> (slot is None || slot->0 is Null || slot->0 is Object),
        r is Ok ==> (r->Ok_0 is Some <==> (slot is Some && slot->0 is Object)),
        r is Ok && r->Ok_0 is Some ==> r->Ok_0->0 == slot->0->Object_0,
{
    match slot {
        None => Ok(None),
        Some(Json::Null) => Ok(None),
        Some(Json::Object(m)) => Ok(Some(m)),
        _ => Err(()),
    }
}

fn take_optional(slot: Option<Json>) -> (r: Option<Json>)
    ensures
        r == (if slot is Some && !(slot->0 is Null) { slot } else { None }),
{
    match slot {
        Some(Json::Null) => None,
        other => other,
    }
}

/// Decodes a JSON value into a message: the first of Request, Response and
/// Notification whose required members fit, or `None` where none does.
pub fn message_from_json(j: Json) -> (r: Option<Message>)
    ensures
        r is Some <==> message_of_json(j) is Some,
        r is Some ==> r->0@ == message_of_json(j)->0,
{
    let entries = match j {
        Json::Object(m) => m,
        _ => {
            return None;
        },
    };
    let ghost all = entries@;
    let mut entries = entries;
    let id_k = String::from_str("id");
    let method_k = String::from_str("method");
    let params_k = String::from_str("params");
    let result_k = String::from_str("result");
    let error_k = String::from_str("error");
    proof {
        reveal_strlit("id");
        reveal_strlit("method");
        reveal_strlit("params");
        reveal_strlit("result");
        reveal_strlit("error");
        assert(id_k@ =~= id_key());
        assert(method_k@ =~= method_key());
        assert(params_k@ =~= params_key());
        assert(result_k@ =~= result_key());
        assert(error_k@ =~= error_key());
    }
    let mut id: Option<Json> = None;
    let mut method: Option<Json> = None;
    let mut params: Option<Json> = None;
    let mut result: Option<Json> = None;
    let mut error: Option<Json> = None;
    let ghost mut later: Seq<(String, Json)> = Seq::empty();
    while entries.len() > 0
        invariant
            all == entries@ + later,
            id_k@ == id_key(),
            method_k@ == method_key(),
            params_k@ == params_key(),
            result_k@ == result_key(),
            error_k@ == error_key(),
            id == member(entries_map(later), id_key()),
            method == member(entries_map(later), method_key()),
            params == member(entries_map(later), params_key()),
            result == member(entries_map(later), result_key()),
            error == member(entries_map(later), error_key()),
        decreases entries.len(),
    {
        let ghost e = entries@.last();
        let ghost before = entries@;
        let (k, v) = entries.pop().unwrap();
        proof {
            let one = seq![e];
            lemma_entries_map_append(one, later);
            assert(entries_map(one.drop_last()) =~= Map::empty());
            assert(entries@ + (one + later) =~= before + later);
            later = one + later;
        }
        if k == id_k {
            if id.is_none() {
                id = Some(v);
            }
        } else if k == method_k {
            if method.is_none() {
                method = Some(v);
            }
        } else if k == params_k {
            if params.is_none() {
                params = Some(v);
            }
        } else if k == result_k {
            if result.is_none() {
                result = Some(v);
            }
        } else if k == error_k {
            if error.is_none() {
                error = Some(v);
            }
        }
    }
    proof {
        assert(later =~= all);
    }
    let id = take_str(id);
    let method = take_str(method);
    let params = take_object(params);
    match id {
        Some(id) => match method {
            Some(method) => match params {
                Some(params) => Some(Message::Request(Request { id, method, params })),
                None => match take_optional_object(result) {
                    Ok(result) => {
                        let error = take_optional(error);
                        Some(Message::Response(Response { id, method, result, error }))
                    },
                    Err(()) => None,
                },
            },
            None => None,
        },
        None => match method {
            Some(method) => match params {
                Some(params) => Some(Message::Notification(Notification { method, params })),
                None => None,
            },
            None => None,
        },
    }
}


proof fn lemma_three_members(a: (String, Json), b: (String, Json), c: (String, Json))
    ensures
        entries_map(seq![a, b, c]) == Map::<Seq<char>, Json>::empty().insert(a.0@, a.1).insert(
            b.0@,
            b.1,
        ).insert(c.0@, c.1),
{
    let e = Seq::<(String, Json)>::empty();
    lemma_push_member(e, a);
    lemma_push_member(seq![a], b);
    lemma_push_member(seq![a, b], c);
    assert(e.push(a) =~= seq![a]);
    assert(seq![a].push(b) =~= seq![a, b]);
    assert(seq![a, b].push(c) =~= seq![a, b, c]);
    assert(entries_map(e) =~= Map::empty());
}

proof fn lemma_push_member(s: Seq<(String, Json)>, e: (String, Json))
    ensures
        entries_map(s.push(e)) == entries_map(s).insert(e.0@, e.1),
{
    assert(s.push(e).drop_last() =~= s);
}

/// Encodes a message as JSON: an object holding exactly the members of its
/// shape, with absent optional members left out; Disconnected is null.
pub fn message_to_json(m: Message) -> (r: Json)
    ensures
        encodes(m@, r),
{
    proof {
        lemma_keys_distinct();
        reveal_strlit("id");
        reveal_strlit("method");
        reveal_strlit("params");
        reveal_strlit("result");
        reveal_strlit("error");
    }
    match m {
        Message::Request(q) => {
            let ghost params_map = entries_map(q.params@);
            let a = (String::from_str("id"), Json::Str(q.id));
            let b = (String::from_str("method"), Json::Str(q.method));
            let c = (String::from_str("params"), Json::Object(q.params));
            proof {
                assert(a.0@ =~= id_key());
                assert(b.0@ =~= method_key());
                assert(c.0@ =~= params_key());
                lemma_three_members(a, b, c);
            }
            let mut v: Vec<(String, Json)> = Vec::new();
            v.push(a);
            v.push(b);
            v.push(c);
            proof {
                assert(v@ =~= seq![a, b, c]);
                assert(entries_map(v@).dom() =~= set![id_key(), method_key(), params_key()]);
            }
            Json::Object(v)
        },
        Message::Response(p) => {
            let ghost view = Message::Response(p)@;
            let a = (String::from_str("id"), Json::Str(p.id));
            let b = (String::from_str("method"), Json::Str(p.method));
            proof {
                assert(a.0@ =~= id_key());
                assert(b.0@ =~= method_key());
            }
            let mut v: Vec<(String, Json)> = Vec::new();
            v.push(a);
            v.push(b);
            proof {
                lemma_push_member(seq![a], b);
                lemma_push_member(Seq::empty(), a);
                assert(seq![a].push(b) =~= v@);
                assert(Seq::<(String, Json)>::empty().push(a) =~= seq![a]);
                assert(Seq::<(String, Json)>::empty() =~= seq![a].drop_last());
            }
            let ghost has_result = p.result is Some;
            match p.result {
                Some(res) => {
                    let c = (String::from_str("result"), Json::Object(res));
                    proof {
                        assert(c.0@ =~= result_key());
                        lemma_push_member(v@, c);
                    }
                    v.push(c);
                },
                None => {},
            }
            match p.error {
                Some(err) => {
                    let d = (String::from_str("error"), err);
                    proof {
                        assert(d.0@ =~= error_key());
                        lemma_push_member(v@, d);
                    }
                    v.push(d);
                },
                None => {},
            }
            proof {
                let f = entries_map(v@);
                assert(f.dom() =~= response_keys(has_result, view->Response_error is Some));
            }
            Json::Object(v)
        },
        Message::Notification(n) => {
            let b = (String::from_str("method"), Json::Str(n.method));
            let c = (String::from_str("params"), Json::Object(n.params));
            proof {
                assert(b.0@ =~= method_key());
                assert(c.0@ =~= params_key());
            }
            let mut v: Vec<(String, Json)> = Vec::new();
            v.push(b);
            v.push(c);
            proof {
                lemma_push_member(seq![b], c);
                lemma_push_member(Seq::empty(), b);
                assert(seq![b].push(c) =~= v@);
                assert(Seq::<(String, Json)>::empty().push(b) =~= seq![b]);
                assert(entries_map(v@).dom() =~= set![method_key(), params_key()]);
            }
            Json::Object(v)
        },
        Message::Disconnected => Json::Null,
    }
}

/// Decoding the JSON form of a message gives the message back, for every
/// message that survives the wire (all but Disconnected, and a Response's
/// error not null). Which members the form has, and so which optional members
/// a Response leaves out, is fixed by `encodes`.
pub proof fn lemma_round_trip(m: MessageView, j: Json)
    requires
        is_wire_message(m),
        encodes(m, j),
    ensures
        message_of_json(j) == Some(m),
{
    lemma_keys_distinct();
    let f = entries_map(j->Object_0@);
    match m {
        MessageView::Request { id, method, params } => {
            assert(f.contains_key(id_key()));
            assert(f.contains_key(method_key()));
            assert(f.contains_key(params_key()));
        },
        MessageView::Response { id, method, result, error } => {
            assert(f.contains_key(id_key()));
            assert(f.contains_key(method_key()));
            assert(!f.contains_key(params_key()));
            assert(f.contains_key(result_key()) == result is Some);
            assert(f.contains_key(error_key()) == error is Some);
        },
        MessageView::Notification { method, params } => {
            assert(!f.contains_key(id_key()));
            assert(f.contains_key(method_key()));
            assert(f.contains_key(params_key()));
        },
        MessageView::Disconnected => {},
    }
}


/// A payload that fits more than one shape decodes by priority: an object
/// with a string `id`, a string `method` and an object `params` is always a
/// Request, whatever else it holds.
pub proof fn lemma_request_has_priority(j: Json)
    requires
        j is Object,
        str_member(entries_map(j->Object_0@), id_key()) is Some,
        str_member(entries_map(j->Object_0@), method_key()) is Some,
        object_member(entries_map(j->Object_0@), params_key()) is Some,
    ensures
        message_of_json(j) is Some,
        message_of_json(j)->0 is Request,
{
}

/// Decodes a text payload: parses it as JSON, then takes the first shape
/// that fits. Invalid JSON and a value that fits no shape are both
/// `MalformedMessage`.
pub fn decode(text: &str) -> (r: Result<Message, BridgeError>)
    ensures
        r is Ok <==> message_of_text(text@) is Some,
        r is Ok ==> r->Ok_0@ == message_of_text(text@)->0,
        r is Err ==> r->Err_0 is MalformedMessage,
{
    match parse_json(text) {
        Err(detail) => Err(BridgeError::MalformedMessage(detail)),
        Ok(j) => match message_from_json(j) {
            Some(m) => Ok(m),
            None => Err(
                BridgeError::MalformedMessage(
                    String::from_str("data did not match any variant of untagged enum Message"),
                ),
            ),
        },
    }
}

/// Encodes a message as the JSON text of its JSON form.
pub fn encode(m: Message) -> (r: String)
    ensures
        exists|j: Json| encodes(m@, j) && r@ == json_text(j),
{
    let j = message_to_json(m);
    print_json(&j)
}

} // verus!
