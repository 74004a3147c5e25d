use vstd::prelude::*;
use crate::config::{string_views, EndpointConfig};
use crate::json::{json_parse, parse_json, json_get, json_response, json_str, opt_value, extract_field, field_source, response_text, JsonValue};
use crate::notification::Notification;
use crate::query::{last_value, parse_path_query, target_path, target_query};
use crate::text::{chars_of, string_from_chars};
use crate::url::{lossy_string, utf8_lossy};
use vstd::slice::slice_subrange;

verus! {

/// What a request comes to, as the specification sees it.
pub enum Decision {
    /// Answer at once with this status and JSON text.
    Reply(u16, Seq<char>),
    /// Send a notification through the channels of endpoint `endpoint`.
    Notify {
        endpoint: int,
        title: Seq<char>,
        message: Seq<char>,
        to: Option<Seq<char>>,
        from: Option<Seq<char>>,
        level: Seq<char>,
    },
}

/// The index of the first endpoint with this path.
pub open spec fn endpoint_for(endpoints: Seq<EndpointConfig>, path: Seq<char>) -> Option<int>
    decreases endpoints.len(),
{
    if endpoints.len() == 0 {
        None
    } else if endpoints[0].path@ == path {
        Some(0)
    } else {
        match endpoint_for(endpoints.drop_first(), path) {
            Some(i) => Some(i + 1),
            None => None,
        }
    }
}

/// The text after `Bearer ` in an authorization header.
pub open spec fn bearer_token(header: Seq<char>) -> Option<Seq<char>> {
    if header.len() >= 7 && header.take(7) == "Bearer "@ {
        Some(header.skip(7))
    } else {
        None
    }
}

/// The token a request offers: the `token` parameter, else a bearer token.
pub open spec fn offered_token(query: Seq<(Seq<char>, Seq<char>)>, auth: Option<Seq<char>>) -> Option<Seq<char>> {
    match last_value(query, "token"@) {
        Some(t) => Some(t),
        None => match auth {
            Some(h) => bearer_token(h),
            None => None,
        },
    }
}

/// An endpoint without a token admits every request; one with a token
/// admits requests that offer exactly that token.
pub open spec fn admitted(endpoint: EndpointConfig, offered: Option<Seq<char>>) -> bool {
    match endpoint.token {
        Some(expected) => offered == Some(expected@),
        None => true,
    }
}

/// The level: the `level` parameter, else the body's `level` string, else `info`.
pub open spec fn chosen_level(query: Seq<(Seq<char>, Seq<char>)>, body: Option<JsonValue>) -> Seq<char> {
    match last_value(query, "level"@) {
        Some(l) => l,
        None => match body {
            Some(json) => match json_get(json, "level"@) {
                Some(v) => match json_str(v) {
                    Some(l) => l,
                    None => "info"@,
                },
                None => "info"@,
            },
            None => "info"@,
        },
    }
}

pub open spec fn prefixed_title(prefix: Option<Seq<char>>, title: Seq<char>) -> Seq<char> {
    match prefix {
        Some(p) => "["@ + p + "] "@ + title,
        None => title,
    }
}

/// How a request to `target` is decided: an unknown path is answered 404,
/// a missing or wrong token 401, a request without both title and
/// message 400; otherwise it is a notification for the endpoint.
pub open spec fn decide(
    endpoints: Seq<EndpointConfig>,
    target: Seq<char>,
    auth: Option<Seq<char>>,
    body: Option<JsonValue>,
) -> Decision {
    let path = target_path(target);
    let query = target_query(target);
    match endpoint_for(endpoints, path) {
        None => Decision::Reply(404, response_text("not_found"@, "endpoint not found"@)),
        Some(e) => if !admitted(endpoints[e], offered_token(query, auth)) {
            Decision::Reply(401, response_text("unauthorized"@, "invalid or missing token"@))
        } else {
            match (
                field_source(query, body, "title"@, "title_path"@),
                field_source(query, body, "message"@, "message_path"@),
            ) {
                (Some(title), Some(message)) => Decision::Notify {
                    endpoint: e,
                    title: prefixed_title(last_value(query, "title_prefix"@), title),
                    message,
                    to: last_value(query, "to"@),
                    from: last_value(query, "from"@),
                    level: chosen_level(query, body),
                },
                _ => Decision::Reply(
                    400,
                    response_text("bad_request"@, "missing required fields: title and message"@),
                ),
            }
        },
    }
}

/// What the handler does with a request.
pub enum RequestPlan {
    /// Answer with this status and body.
    Respond { status: u16, body: String },
    /// Send `notification` through the channels of `endpoints[endpoint]`.
    Dispatch { endpoint: usize, notification: Notification },
}

pub open spec fn opt_view(v: Option<String>) -> Option<Seq<char>> {
    match v {
        Some(s) => Some(s@),
        None => None,
    }
}

/// A plan carries out a decision.
pub open spec fn plan_is(plan: RequestPlan, d: Decision) -> bool {
    match d {
        Decision::Reply(status, body) => plan matches RequestPlan::Respond { status: s, body: b } && s
            == status && b@ == body,
        Decision::Notify { endpoint, title, message, to, from, level } => {
            &&& plan matches RequestPlan::Dispatch { endpoint: e, notification: n }
            &&& e == endpoint
            &&& n.title@ == title
            &&& n.message@ == message
            &&& opt_view(n.to) == to
            &&& opt_view(n.from) == from
            &&& n.level@ == level
        },
    }
}

fn find_endpoint(endpoints: &Vec<EndpointConfig>, path: &String) -> (res: Option<usize>)
    ensures
        match res {
            Some(i) => endpoint_for(endpoints@, path@) == Some(i as int) && i < endpoints@.len(),
            None => endpoint_for(endpoints@, path@) is None,
        },
{
    let mut i: usize = 0;
    assert(endpoints@.skip(0) =~= endpoints@);
    while i < endpoints.len()
        invariant
            0 <= i <= endpoints@.len(),
            endpoint_for(endpoints@, path@) == match endpoint_for(endpoints@.skip(i as int), path@) {
                Some(k) => Some(k + i),
                None => None,
            },
        decreases endpoints@.len() - i,
    {
        let ghost rest = endpoints@.skip(i as int);
        assert(rest[0] == endpoints@[i as int]);
        assert(rest.drop_first() =~= endpoints@.skip(i + 1));
        if endpoints[i].path == *path {
            return Some(i);
        }
        i = i + 1;
    }
    None
}

/// The token of an `Authorization: Bearer <token>` header.
pub fn strip_bearer(header: &str) -> (res: Option<String>)
    ensures
        opt_view(res) == bearer_token(header@),
{
    let cs = chars_of(header);
    let prefix = chars_of("Bearer ");
    proof {
        reveal_strlit("Bearer ");
        assert("Bearer "@.len() == 7);
    }
    if cs.len() < 7 {
        return None;
    }
    let mut i: usize = 0;
    while i < 7
        invariant
            0 <= i <= 7,
            cs@.len() >= 7,
            prefix@ == "Bearer "@,
            prefix@.len() == 7,
            cs@ == header@,
            forall|j: int| 0 <= j < i ==> cs@[j] == prefix@[j],
        decreases 7 - i,
    {
        if cs[i] != prefix[i] {
            proof {
                assert(cs@.take(7)[i as int] != "Bearer "@[i as int]);
            }
            return None;
        }
        i = i + 1;
    }
    assert(cs@.take(7) =~= "Bearer "@);
    let rest = string_from_chars(slice_subrange(cs.as_slice(), 7, cs.len()));
    assert(rest@ =~= header@.skip(7));
    Some(rest)
}

/// Decides how to answer a request to `target` (`path?query`), with its
/// `Authorization` header and its JSON body, if any.
pub fn plan_request(
    endpoints: &Vec<EndpointConfig>,
    target: &str,
    auth_header: Option<&str>,
    body_json: Option<&JsonValue>,
) -> (plan: RequestPlan)
    ensures
        plan_is(
            plan,
            decide(
                endpoints@,
                target@,
                match auth_header {
                    Some(h) => Some(h@),
                    None => None,
                },
                opt_value(body_json),
            ),
        ),
{
    let (path, query) = parse_path_query(target);
    let ghost auth = match auth_header {
        Some(h) => Some(h@),
        None => None::<Seq<char>>,
    };
    proof {
        reveal_strlit("not_found");
        reveal_strlit("endpoint not found");
    }
    let e = match find_endpoint(endpoints, &path) {
        Some(e) => e,
        None => {
            return RequestPlan::Respond {
                status: 404,
                body: json_response("not_found", "endpoint not found"),
            };
        },
    };
    let endpoint = &endpoints[e];
    if let Some(expected) = &endpoint.token {
        let provided = match query.get("token") {
            Some(t) => Some(t),
            None => match auth_header {
                Some(h) => strip_bearer(h),
                None => None,
            },
        };
        assert(opt_view(provided) == offered_token(query.pairs(), auth));
        let ok = match &provided {
            Some(t) => *t == *expected,
            None => false,
        };
        if !ok {
            return RequestPlan::Respond {
                status: 401,
                body: json_response("unauthorized", "invalid or missing token"),
            };
        }
    }
    let title = extract_field(&query, body_json, "title", "title_path");
    let message = extract_field(&query, body_json, "message", "message_path");
    match (title, message) {
        (Some(title), Some(message)) => {
            let to = query.get("to");
            let from = query.get("from");
            let title = match query.get("title_prefix") {
                Some(prefix) => {
                    let mut t = String::from_str("[");
                    t.append(prefix.as_str());
                    t.append("] ");
                    t.append(title.as_str());
                    t
                },
                None => title,
            };
            let level = match query.get("level") {
                Some(l) => l,
                None => {
                    let from_body = match body_json {
                        Some(json) => match json.get("level") {
                            Some(v) => match v.as_str() {
                                Some(s) => Some(String::from_str(s)),
                                None => None,
                            },
                            None => None,
                        },
                        None => None,
                    };
                    match from_body {
                        Some(l) => l,
                        None => String::from_str("info"),
                    }
                },
            };
            RequestPlan::Dispatch {
                endpoint: e,
                notification: Notification { title, message, to, from, level },
            }
        },
        _ => RequestPlan::Respond {
            status: 400,
            body: json_response("bad_request", "missing required fields: title and message"),
        },
    }
}

/// The position of the last name equal to `n`.
pub open spec fn last_index(names: Seq<Seq<char>>, n: Seq<char>) -> Option<int>
    decreases names.len(),
{
    if names.len() == 0 {
        None
    } else if names.last() == n {
        Some(names.len() - 1)
    } else {
        last_index(names.drop_last(), n)
    }
}

/// The channels a notification goes to: for each channel name of the
/// endpoint, in order, the last built channel of that name; names with no
/// built channel are passed over.
pub open spec fn targets(wanted: Seq<Seq<char>>, names: Seq<Seq<char>>) -> Seq<int>
    decreases wanted.len(),
{
    if wanted.len() == 0 {
        Seq::empty()
    } else {
        match last_index(names, wanted[0]) {
            Some(i) => seq![i] + targets(wanted.drop_first(), names),
            None => targets(wanted.drop_first(), names),
        }
    }
}

pub open spec fn index_views(v: Seq<usize>) -> Seq<int> {
    v.map_values(|i: usize| i as int)
}

fn last_index_of(names: &Vec<String>, n: &String) -> (res: Option<usize>)
    ensures
        match res {
            Some(i) => last_index(string_views(names@), n@) == Some(i as int) && i < names@.len(),
            None => last_index(string_views(names@), n@) is None,
        },
{
    let mut i: usize = names.len();
    assert(string_views(names@).take(i as int) =~= string_views(names@));
    while i > 0
        invariant
            0 <= i <= names@.len(),
            last_index(string_views(names@), n@) == last_index(string_views(names@).take(i as int), n@),
        decreases i,
    {
        let ghost prefix = string_views(names@).take(i as int);
        assert(prefix.drop_last() =~= string_views(names@).take(i - 1));
        if names[i - 1] == *n {
            assert(prefix.last() == n@);
            return Some(i - 1);
        }
        i = i - 1;
    }
    None
}

/// The positions, among `channel_names`, of the channels to send to.
pub fn dispatch_targets(endpoint_channels: &Vec<String>, channel_names: &Vec<String>) -> (res: Vec<usize>)
    ensures
        index_views(res@) == targets(string_views(endpoint_channels@), string_views(channel_names@)),
        forall|k: int| 0 <= k < res@.len() ==> res@[k] < channel_names@.len(),
{
    let ghost wanted = string_views(endpoint_channels@);
    let ghost names = string_views(channel_names@);
    let mut res: Vec<usize> = Vec::new();
    let mut k: usize = 0;
    assert(wanted.skip(0) =~= wanted);
    assert(index_views(res@) + targets(wanted, names) =~= targets(wanted, names));
    while k < endpoint_channels.len()
        invariant
            0 <= k <= endpoint_channels@.len(),
            wanted == string_views(endpoint_channels@),
            names == string_views(channel_names@),
            targets(wanted, names) == index_views(res@) + targets(wanted.skip(k as int), names),
            forall|j: int| 0 <= j < res@.len() ==> res@[j] < channel_names@.len(),
        decreases endpoint_channels@.len() - k,
    {
        let ghost rest = wanted.skip(k as int);
        assert(rest[0] == endpoint_channels@[k as int]@);
        assert(rest.drop_first() =~= wanted.skip(k + 1));
        let ghost before = res@;
        match last_index_of(channel_names, &endpoint_channels[k]) {
            Some(i) => {
                res.push(i);
                assert(index_views(res@) =~= index_views(before) + seq![i as int]);
            },
            None => {},
        }
        k = k + 1;
    }
    assert(wanted.skip(k as int) =~= Seq::<Seq<char>>::empty());
    assert(index_views(res@) + Seq::<int>::empty() =~= index_views(res@));
    res
}

/// The parts joined with `sep` between them.
pub open spec fn joined(parts: Seq<Seq<char>>, sep: Seq<char>) -> Seq<char>
    decreases parts.len(),
{
    if parts.len() == 0 {
        Seq::empty()
    } else if parts.len() == 1 {
        parts[0]
    } else {
        joined(parts.drop_last(), sep) + sep + parts.last()
    }
}

/// `<channel>: <error>` for each failed send.
pub open spec fn failure_lines(failures: Seq<(String, String)>) -> Seq<Seq<char>> {
    failures.map_values(|f: (String, String)| f.0@ + ": "@ + f.1@)
}

/// The answer after sending: 200 when every send succeeded, else 500
/// with each failure, as `<channel>: <error>`, joined by `; `.
pub fn send_report(failures: &Vec<(String, String)>) -> (res: (u16, String))
    ensures
        failures@.len() == 0 ==> res.0 == 200 && res.1@ == response_text("ok"@, "notification sent"@),
        failures@.len() > 0 ==> res.0 == 500 && res.1@ == response_text(
            "partial_failure"@,
            joined(failure_lines(failures@), "; "@),
        ),
{
    if failures.len() == 0 {
        return (200, json_response("ok", "notification sent"));
    }
    let ghost lines = failure_lines(failures@);
    let mut text = String::new();
    let mut i: usize = 0;
    while i < failures.len()
        invariant
            0 <= i <= failures@.len(),
            lines == failure_lines(failures@),
            text@ == joined(lines.take(i as int), "; "@),
        decreases failures@.len() - i,
    {
        let ghost before = text@;
        if i > 0 {
            text.append("; ");
        }
        text.append(failures[i].0.as_str());
        text.append(": ");
        text.append(failures[i].1.as_str());
        proof {
            let upto = lines.take(i + 1);
            assert(upto.drop_last() =~= lines.take(i as int));
            assert(upto.last() == failures@[i as int].0@ + ": "@ + failures@[i as int].1@);
            if i == 0 {
                assert(text@ =~= upto[0]);
            } else {
                assert(text@ =~= before + "; "@ + upto.last());
            }
        }
        i = i + 1;
    }
    assert(lines.take(i as int) =~= lines);
    (500, json_response("partial_failure", text.as_str()))
}

/// The body of a request as text: none when it is empty, otherwise its
/// bytes read as UTF-8 with invalid sequences replaced.
pub fn request_body_text(body: &[u8]) -> (res: Option<String>)
    ensures
        body@.len() == 0 ==> res is None,
        body@.len() > 0 ==> (res matches Some(s) && s@ == utf8_lossy(body@)),
{
    if body.len() == 0 {
        None
    } else {
        Some(lossy_string(body))
    }
}

/// The JSON document a request body holds: nothing for an empty body or
/// one that does not parse; otherwise the parse of its text (read as
/// UTF-8, invalid sequences replaced).
pub fn request_body_json(body: &[u8]) -> (res: Option<JsonValue>)
    ensures
        body@.len() == 0 ==> res is None,
        body@.len() > 0 ==> res == json_parse(utf8_lossy(body@)),
{
    match request_body_text(body) {
        Some(text) => parse_json(text.as_str()),
        None => None,
    }
}

} // verus!
