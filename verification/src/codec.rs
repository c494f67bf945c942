//! JSON-RPC message codec: building request and notification bodies,
//! classifying incoming bodies, and the `Content-Length` framing.

use vstd::prelude::*;

use crate::json::Json;
use crate::json::JsonView;
use crate::json::json_wf;
use crate::json::json_from_str;
use crate::json::json_to_string;
use crate::json::lemma_json_view_wf;
use crate::json::lemma_json_round_trip;
use crate::json::parse_text;
use crate::json::ser_json;
use crate::text::decimal_digits;
use crate::text::decimal_val;
use crate::text::all_digits;
use crate::text::chars_starts_with;
use crate::text::chars_subrange;
use crate::text::chars_trim;
use crate::text::from_chars;
use crate::text::parse_decimal;
use crate::text::starts_with;
use crate::text::to_chars;
use crate::text::trim_spec;

verus! {

/// An error carried by a response.
#[derive(Debug)]
pub struct RpcError {
    /// Sign of the error code.
    pub code_neg: bool,
    /// Magnitude of the error code.
    pub code_mag: u64,
    pub message: String,
}

/// A decoded JSON-RPC message.
#[derive(Debug)]
pub enum DecodedMessage {
    /// A request: it has an id and a method.
    Request { id: u64, method: String, params: Json },
    /// A response: it has an id and no method.
    Response { id: u64, result: Option<Json>, error: Option<RpcError> },
    /// A notification: it has a method and no id.
    Notification { method: String, params: Json },
}

/// Mathematical shape of a decoded message.
pub enum DecodedView {
    Request { id: int, method: Seq<char>, params: JsonView },
    Response { id: int, result: Option<JsonView>, error: Option<(int, Seq<char>)> },
    Notification { method: Seq<char>, params: JsonView },
}

impl View for DecodedMessage {
    type V = DecodedView;

    open spec fn view(&self) -> DecodedView {
        match self {
            DecodedMessage::Request { id, method, params } => DecodedView::Request {
                id: *id as int,
                method: method@,
                params: params@,
            },
            DecodedMessage::Response { id, result, error } => DecodedView::Response {
                id: *id as int,
                result: match result {
                    Option::Some(r) => Option::Some(r@),
                    Option::None => Option::None,
                },
                error: match error {
                    Option::Some(e) => Option::Some(
                        (
                            if e.code_neg {
                                -(e.code_mag as int)
                            } else {
                                e.code_mag as int
                            },
                            e.message@,
                        ),
                    ),
                    Option::None => Option::None,
                },
            },
            DecodedMessage::Notification { method, params } => DecodedView::Notification {
                method: method@,
                params: params@,
            },
        }
    }
}

/// The body of a request, as a JSON value.
pub open spec fn request_view(id: int, method: Seq<char>, params: JsonView) -> JsonView {
    JsonView::Obj(
        seq![
            ("jsonrpc"@, JsonView::Str("2.0"@)),
            ("id"@, JsonView::Num(id)),
            ("method"@, JsonView::Str(method)),
            ("params"@, params),
        ],
    )
}

/// The body of a notification, as a JSON value.
pub open spec fn notification_view(method: Seq<char>, params: JsonView) -> JsonView {
    JsonView::Obj(
        seq![
            ("jsonrpc"@, JsonView::Str("2.0"@)),
            ("method"@, JsonView::Str(method)),
            ("params"@, params),
        ],
    )
}

/// Builds the body of a request with the given id, method and parameters.
pub fn encode_request(id: u64, method: &str, params: Json) -> (r: String)
    ensures
        r@ == ser_json(request_view(id as int, method@, params@)),
{
    let msg = Json::Obj(
        vec![
            ("jsonrpc".to_owned(), Json::Str("2.0".to_owned())),
            ("id".to_owned(), Json::Num { neg: false, mag: id }),
            ("method".to_owned(), Json::Str(method.to_owned())),
            ("params".to_owned(), params),
        ],
    );
    proof {
        crate::json::lemma_obj_views(msg->Obj_0@);
        assert(msg@->Obj_0 =~= request_view(id as int, method@, params@)->Obj_0);
        assert(msg@ == request_view(id as int, method@, params@));
    }
    json_to_string(&msg)
}

/// Builds the body of a notification with the given method and parameters.
pub fn encode_notification(method: &str, params: Json) -> (r: String)
    ensures
        r@ == ser_json(notification_view(method@, params@)),
{
    let msg = Json::Obj(
        vec![
            ("jsonrpc".to_owned(), Json::Str("2.0".to_owned())),
            ("method".to_owned(), Json::Str(method.to_owned())),
            ("params".to_owned(), params),
        ],
    );
    proof {
        crate::json::lemma_obj_views(msg->Obj_0@);
        assert(msg@->Obj_0 =~= notification_view(method@, params@)->Obj_0);
        assert(msg@ == notification_view(method@, params@));
    }
    json_to_string(&msg)
}

/// First value bound to `key` in an object's member list.
pub open spec fn obj_lookup(members: Seq<(Seq<char>, JsonView)>, key: Seq<char>) -> Option<
    JsonView,
>
    decreases members.len(),
{
    if members.len() == 0 {
        Option::None
    } else if members[0].0 == key {
        Option::Some(members[0].1)
    } else {
        obj_lookup(members.drop_first(), key)
    }
}

/// Values already looked past do not hold the key.
proof fn lemma_obj_lookup_skip(members: Seq<(Seq<char>, JsonView)>, key: Seq<char>, i: int)
    requires
        0 <= i <= members.len(),
        forall|j: int| 0 <= j < i ==> (#[trigger] members[j]).0 != key,
    ensures
        obj_lookup(members, key) == obj_lookup(members.skip(i), key),
    decreases i,
{
    if i == 0 {
        assert(members.skip(0) =~= members);
    } else {
        assert(members[0].0 != key);
        assert(members.drop_first() =~= members.skip(1));
        assert forall|j: int| 0 <= j < i - 1 implies (#[trigger] members.skip(1)[j]).0 != key by {
            assert(members.skip(1)[j] == members[j + 1]);
        }
        lemma_obj_lookup_skip(members.skip(1), key, i - 1);
        assert(members.skip(1).skip(i - 1) =~= members.skip(i));
    }
}

/// First member bound to `key`, if any.
pub fn obj_member<'a>(members: &'a Vec<(String, Json)>, key: &str) -> (r: Option<&'a Json>)
    ensures
        match r {
            Some(j) => obj_lookup(crate::json::obj_views(members@), key@) == Option::Some(j@),
            None => obj_lookup(crate::json::obj_views(members@), key@) is None,
        },
{
    proof {
        crate::json::lemma_obj_views(members@);
    }
    let ghost views = crate::json::obj_views(members@);
    let mut i: usize = 0;
    while i < members.len()
        invariant
            0 <= i <= members@.len(),
            views == crate::json::obj_views(members@),
            views.len() == members@.len(),
            forall|k: int|
                0 <= k < members@.len() ==> #[trigger] views[k] == ((members@[k]).0@, crate::json::json_view(
                    members@[k].1,
                )),
            forall|j: int| 0 <= j < i ==> (#[trigger] views[j]).0 != key@,
        decreases members@.len() - i,
    {
        if crate::text::str_eq(members[i].0.as_str(), key) {
            proof {
                lemma_obj_lookup_skip(views, key@, i as int);
                assert(views.skip(i as int)[0] == views[i as int]);
                assert(views.skip(i as int).len() > 0);
            }
            return Some(&members[i].1);
        }
        i = i + 1;
    }
    proof {
        lemma_obj_lookup_skip(views, key@, i as int);
        assert(views.skip(i as int) =~= Seq::<(Seq<char>, JsonView)>::empty());
    }
    None
}

/// Deep copy of a JSON value, exact in the contract.
pub fn json_copy(v: &Json) -> (r: Json)
    ensures
        r@ == v@,
    decreases v,
{
    match v {
        Json::Null => Json::Null,
        Json::Bool(b) => Json::Bool(*b),
        Json::Num { neg, mag } => Json::Num { neg: *neg, mag: *mag },
        Json::Str(s) => Json::Str(s.clone()),
        Json::Arr(items) => {
            let mut out: Vec<Json> = Vec::new();
            let mut i: usize = 0;
            proof {
                crate::json::lemma_arr_views(items@);
            }
            while i < items.len()
                invariant
                    0 <= i <= items@.len(),
                    v is Arr,
                    v->Arr_0 == *items,
                    out@.len() == i,
                    forall|k: int|
                        0 <= k < i ==> crate::json::json_view(#[trigger] out@[k])
                            == crate::json::json_view(items@[k]),
                decreases items@.len() - i,
            {
                proof {
                    assert(decreases_to!(v => v->Arr_0));
                    assert(decreases_to!(v->Arr_0 => v->Arr_0@));
                    assert(decreases_to!(v->Arr_0@ => v->Arr_0@[i as int]));
                }
                let c = json_copy(&items[i]);
                out.push(c);
                i = i + 1;
            }
            let r = Json::Arr(out);
            proof {
                crate::json::lemma_arr_views(r->Arr_0@);
                crate::json::lemma_arr_views(items@);
                assert forall|k: int| 0 <= k < r->Arr_0@.len() implies crate::json::arr_views(
                    r->Arr_0@,
                )[k] == crate::json::arr_views(items@)[k] by {
                    assert(crate::json::arr_views(r->Arr_0@)[k] == crate::json::json_view(
                        r->Arr_0@[k],
                    ));
                    assert(crate::json::arr_views(items@)[k] == crate::json::json_view(
                        items@[k],
                    ));
                }
                assert(r@->Arr_0 =~= v@->Arr_0);
            }
            r
        },
        Json::Obj(members) => {
            let mut out: Vec<(String, Json)> = Vec::new();
            let mut i: usize = 0;
            proof {
                crate::json::lemma_obj_views(members@);
            }
            while i < members.len()
                invariant
                    0 <= i <= members@.len(),
                    v is Obj,
                    v->Obj_0 == *members,
                    out@.len() == i,
                    forall|k: int|
                        0 <= k < i ==> (#[trigger] out@[k]).0@ == members@[k].0@
                            && crate::json::json_view(out@[k].1) == crate::json::json_view(
                            members@[k].1,
                        ),
                decreases members@.len() - i,
            {
                proof {
                    assert(decreases_to!(v => v->Obj_0));
                    assert(decreases_to!(v->Obj_0 => v->Obj_0@));
                    assert(decreases_to!(v->Obj_0@ => v->Obj_0@[i as int]));
                    assert(decreases_to!(v->Obj_0@[i as int] => v->Obj_0@[i as int].1));
                }
                let key = members[i].0.clone();
                let val = json_copy(&members[i].1);
                out.push((key, val));
                i = i + 1;
            }
            let r = Json::Obj(out);
            proof {
                crate::json::lemma_obj_views(r->Obj_0@);
                crate::json::lemma_obj_views(members@);
                assert forall|k: int| 0 <= k < r->Obj_0@.len() implies crate::json::obj_views(
                    r->Obj_0@,
                )[k] == crate::json::obj_views(members@)[k] by {
                    assert(crate::json::obj_views(r->Obj_0@)[k] == (r->Obj_0@[k].0@,
                    crate::json::json_view(r->Obj_0@[k].1)));
                    assert(crate::json::obj_views(members@)[k] == (members@[k].0@,
                    crate::json::json_view(members@[k].1)));
                }
                assert(r@->Obj_0 =~= v@->Obj_0);
            }
            r
        },
    }
}

/// The parameters of a message: the `params` member, or null when absent.
pub open spec fn params_of(members: Seq<(Seq<char>, JsonView)>) -> JsonView {
    match obj_lookup(members, "params"@) {
        Option::Some(p) => p,
        Option::None => JsonView::Null,
    }
}

/// The error of a response, read from its `code` and `message` members.
pub open spec fn error_of(o: Option<JsonView>) -> Option<(int, Seq<char>)> {
    match o {
        Option::Some(JsonView::Obj(em)) => {
            match (obj_lookup(em, "code"@), obj_lookup(em, "message"@)) {
                (Option::Some(JsonView::Num(c)), Option::Some(JsonView::Str(msg))) => {
                    if -(u64::MAX as int) <= c <= u64::MAX as int {
                        Option::Some((c, msg))
                    } else {
                        Option::None
                    }
                },
                _ => Option::None,
            }
        },
        _ => Option::None,
    }
}

/// Classification of a JSON body: a request has an id and a method, a
/// response an id and no method, a notification a method and no id.
pub open spec fn decode_spec(v: JsonView) -> Option<DecodedView> {
    match v {
        JsonView::Obj(members) => {
            let m = obj_lookup(members, "method"@);
            let idv = obj_lookup(members, "id"@);
            match m {
                Option::Some(JsonView::Str(name)) => {
                    match idv {
                        Option::Some(JsonView::Num(n)) => {
                            if 0 <= n <= u64::MAX as int {
                                Option::Some(
                                    DecodedView::Request {
                                        id: n,
                                        method: name,
                                        params: params_of(members),
                                    },
                                )
                            } else {
                                Option::None
                            }
                        },
                        Option::None => Option::Some(
                            DecodedView::Notification { method: name, params: params_of(members) },
                        ),
                        _ => Option::None,
                    }
                },
                Option::Some(_) => Option::None,
                Option::None => {
                    match idv {
                        Option::Some(JsonView::Num(n)) => {
                            if 0 <= n <= u64::MAX as int {
                                Option::Some(
                                    DecodedView::Response {
                                        id: n,
                                        result: obj_lookup(members, "result"@),
                                        error: error_of(obj_lookup(members, "error"@)),
                                    },
                                )
                            } else {
                                Option::None
                            }
                        },
                        _ => Option::None,
                    }
                },
            }
        },
        _ => Option::None,
    }
}

/// Reads the error object of a response.
fn read_error(j: &Json) -> (r: Option<RpcError>)
    ensures
        match r {
            Some(e) => error_of(Option::Some(j@)) == Option::Some(
                (
                    if e.code_neg {
                        -(e.code_mag as int)
                    } else {
                        e.code_mag as int
                    },
                    e.message@,
                ),
            ),
            None => error_of(Option::Some(j@)) is None,
        },
{
    match j {
        Json::Obj(em) => {
            let code = obj_member(em, "code");
            let msg = obj_member(em, "message");
            proof {
                crate::json::lemma_obj_views(em@);
                assert(j@->Obj_0 == crate::json::obj_views(em@));
            }
            match (code, msg) {
                (Some(Json::Num { neg, mag }), Some(Json::Str(m))) => Some(
                    RpcError { code_neg: *neg, code_mag: *mag, message: m.clone() },
                ),
                _ => None,
            }
        },
        _ => None,
    }
}

/// Decodes a message body. Returns nothing exactly when the text is not a
/// JSON object, or the object fits none of the three message shapes.
pub fn decode_body(text: &str) -> (r: Option<DecodedMessage>)
    ensures
        match r {
            Some(d) => exists|v: JsonView|
                parse_text(text@) == Option::Some(v) && #[trigger] decode_spec(v)
                    == Option::Some(d@),
            None => parse_text(text@) is None || decode_spec(parse_text(text@)->0) is None,
        },
{
    let parsed = match json_from_str(text) {
        Some(p) => p,
        None => {
            return None;
        },
    };
    let members = match &parsed {
        Json::Obj(m) => m,
        _ => {
            return None;
        },
    };
    proof {
        crate::json::lemma_obj_views(members@);
        assert(parsed@->Obj_0 == crate::json::obj_views(members@));
    }
    let ghost vms = crate::json::obj_views(members@);
    let params: Json = match obj_member(members, "params") {
        Some(p) => json_copy(p),
        None => Json::Null,
    };
    proof {
        assert(params@ == params_of(vms));
    }
    let method = obj_member(members, "method");
    let idv = obj_member(members, "id");
    match method {
        Some(Json::Str(name)) => {
            match idv {
                Some(Json::Num { neg, mag }) => {
                    if *neg && *mag > 0 {
                        None
                    } else {
                        Some(
                            DecodedMessage::Request {
                                id: *mag,
                                method: name.clone(),
                                params,
                            },
                        )
                    }
                },
                None => Some(DecodedMessage::Notification { method: name.clone(), params }),
                Some(_) => None,
            }
        },
        Some(_) => None,
        None => {
            match idv {
                Some(Json::Num { neg, mag }) => {
                    if *neg && *mag > 0 {
                        None
                    } else {
                        let result = match obj_member(members, "result") {
                            Some(res) => Some(json_copy(res)),
                            None => None,
                        };
                        let error = match obj_member(members, "error") {
                            Some(e) => read_error(e),
                            None => None,
                        };
                        proof {
                            if obj_lookup(vms, "error"@) is None {
                                assert(error_of(obj_lookup(vms, "error"@)) is None);
                            }
                        }
                        Some(DecodedMessage::Response { id: *mag, result, error })
                    }
                },
                _ => None,
            }
        },
    }
}

/// The framed form of a body, as `frame_message` produces it.
pub open spec fn frame_body_view(body: Seq<char>) -> Seq<char> {
    "Content-Length: "@ + decimal_digits(
        (vstd::utf8::encode_utf8(body).len() as usize) as nat,
    ) + "\r\n\r\n"@ + body
}

/// Frames a message body: the `Content-Length` header gives the body's
/// length in bytes, then a blank line, then the body.
pub fn frame_message(body: &str) -> (r: String)
    ensures
        r@ == "Content-Length: "@ + decimal_digits(
            (vstd::utf8::encode_utf8(body@).len() as usize) as nat,
        ) + "\r\n\r\n"@ + body@,
{
    let n = body.len();
    let mut out = to_chars("Content-Length: ");
    let digits = crate::text::format_decimal(n as u64);
    let mut i: usize = 0;
    let ghost base = out@;
    while i < digits.len()
        invariant
            0 <= i <= digits@.len(),
            out@ == base + digits@.take(i as int),
        decreases digits@.len() - i,
    {
        proof {
            assert(digits@.take(i as int + 1) =~= digits@.take(i as int).push(
                digits@[i as int],
            ));
            assert(base + digits@.take(i as int + 1) =~= (base + digits@.take(i as int)).push(
                digits@[i as int],
            ));
        }
        out.push(digits[i]);
        i = i + 1;
    }
    proof {
        assert(digits@.take(digits@.len() as int) =~= digits@);
    }
    let crlf = to_chars("\r\n\r\n");
    let body_chars = to_chars(body);
    let mut rest = from_chars(&out);
    let ghost mid = rest@;
    rest.append(from_chars(&crlf).as_str());
    rest.append(from_chars(&body_chars).as_str());
    proof {
        assert((n as u64) as nat == n as nat);
        assert(rest@ =~= "Content-Length: "@ + decimal_digits(
            (vstd::utf8::encode_utf8(body@).len() as usize) as nat,
        ) + "\r\n\r\n"@ + body@);
    }
    rest
}

/// The length read from a `Content-Length` header line, if the line carries
/// one that fits in `usize`.
pub open spec fn content_length_spec(line: Seq<char>) -> Option<int> {
    if starts_with(line, "Content-Length:"@) {
        let digits = trim_spec(line.skip("Content-Length:"@.len() as int));
        if digits.len() > 0 && all_digits(digits) && decimal_val(digits) <= usize::MAX {
            Option::Some(decimal_val(digits) as int)
        } else {
            Option::None
        }
    } else {
        Option::None
    }
}

/// Parses a `Content-Length` header line.
pub fn parse_content_length(line: &str) -> (r: Option<usize>)
    ensures
        match r {
            Some(n) => content_length_spec(line@) == Option::Some(n as int),
            None => content_length_spec(line@) is None,
        },
{
    let chars = to_chars(line);
    let prefix = to_chars("Content-Length:");
    if !chars_starts_with(&chars, &prefix) {
        return None;
    }
    proof {
        reveal_strlit("Content-Length:");
    }
    let restv = chars_subrange(&chars, 15, chars.len());
    proof {
        assert(restv@ =~= chars@.skip(15));
    }
    let digits = chars_trim(&restv);
    match parse_decimal(&digits) {
        Some(n) => Some(n),
        None => None,
    }
}

/// Encoding a request and decoding the same text yields a request with an
/// equal method name and id, and the same parameters.
pub proof fn lemma_request_round_trip(id: u64, method: Seq<char>, params: JsonView)
    requires
        json_wf(params),
    ensures
        parse_text(ser_json(request_view(id as int, method, params))) == Option::Some(
            request_view(id as int, method, params),
        ),
        decode_spec(request_view(id as int, method, params)) == Option::Some(
            DecodedView::Request { id: id as int, method, params },
        ),
{
    let v = request_view(id as int, method, params);
    let ms = v->Obj_0;
    assert(json_wf(v)) by {
        assert(forall|i: int| 0 <= i < ms.len() ==> json_wf((#[trigger] ms[i]).1));
    }
    lemma_json_round_trip(v);
    reveal_strlit("jsonrpc");
    reveal_strlit("method");
    reveal_strlit("params");
    reveal_strlit("id");
    assert("jsonrpc"@.len() == 7 && "method"@.len() == 6 && "params"@.len() == 6 && "id"@.len()
        == 2);
    assert("params"@[0] == 'p' && "method"@[0] == 'm');
    let m1 = ms.drop_first();
    let m2 = m1.drop_first();
    let m3 = m2.drop_first();
    assert(m1 =~= seq![("id"@, JsonView::Num(id as int)), ("method"@, JsonView::Str(method)), ("params"@, params)]);
    assert(m2 =~= seq![("method"@, JsonView::Str(method)), ("params"@, params)]);
    assert(m3 =~= seq![("params"@, params)]);
    assert(m3.drop_first() =~= Seq::<(Seq<char>, JsonView)>::empty());
    assert(obj_lookup(ms, "method"@) == obj_lookup(m1, "method"@));
    assert(obj_lookup(m1, "method"@) == obj_lookup(m2, "method"@));
    assert(obj_lookup(m2, "method"@) == Option::Some(JsonView::Str(method)));
    assert(obj_lookup(ms, "id"@) == obj_lookup(m1, "id"@));
    assert(obj_lookup(m1, "id"@) == Option::Some(JsonView::Num(id as int)));
    assert(obj_lookup(ms, "params"@) == obj_lookup(m1, "params"@));
    assert(obj_lookup(m1, "params"@) == obj_lookup(m2, "params"@));
    assert(obj_lookup(m2, "params"@) == obj_lookup(m3, "params"@));
    assert(obj_lookup(m3, "params"@) == Option::Some(params));
    assert(params_of(ms) == params);
}

} // verus!
