//! The checked HTTP host function: one request, no redirect followed, no
//! proxy variable read and no retry. What is sent follows from the method,
//! the headers and the body the guest gives; the answer is one JSON object.
//! The client and the wire are the host's.

use vstd::prelude::*;
use crate::json_text::{json_escaped, push_json_escaped};
use crate::text::{owned, push_decimal, push_str, same_text};

verus! {

/// The methods this host function sends.
#[derive(Clone, Copy, PartialEq, Eq, Debug, Structural)]
pub enum HttpMethod {
    Get,
    Post,
    Put,
    Delete,
    Patch,
    Head,
}

/// The method a name stands for, spelled exactly; none for any other name.
pub open spec fn method_named(name: Seq<char>) -> Option<HttpMethod> {
    if name == "GET"@ {
        Some(HttpMethod::Get)
    } else if name == "POST"@ {
        Some(HttpMethod::Post)
    } else if name == "PUT"@ {
        Some(HttpMethod::Put)
    } else if name == "DELETE"@ {
        Some(HttpMethod::Delete)
    } else if name == "PATCH"@ {
        Some(HttpMethod::Patch)
    } else if name == "HEAD"@ {
        Some(HttpMethod::Head)
    } else {
        None
    }
}

/// The method this host function sends for `name`, or none.
pub fn method_of(name: &str) -> (r: Option<HttpMethod>)
    ensures
        r == method_named(name@),
{
    if same_text(name, "GET") {
        Some(HttpMethod::Get)
    } else if same_text(name, "POST") {
        Some(HttpMethod::Post)
    } else if same_text(name, "PUT") {
        Some(HttpMethod::Put)
    } else if same_text(name, "DELETE") {
        Some(HttpMethod::Delete)
    } else if same_text(name, "PATCH") {
        Some(HttpMethod::Patch)
    } else if same_text(name, "HEAD") {
        Some(HttpMethod::Head)
    } else {
        None
    }
}

/// What `serde_json` reads from `text` as an object: each member's name and,
/// where its value is a string, that string, in the order the map keeps
/// them; `None` where the text is not an object.
pub uninterp spec fn object_members(text: Seq<char>) -> Option<Seq<(Seq<char>, Option<Seq<char>>)>>;

/// `serde_json::from_str::<serde_json::Map<String, Value>>`, each member
/// reduced to its name and its string value (`Value::as_str`). What the parse
/// accepts and the order of the members (sorted by name, the last of equal
/// names kept) are serde_json's; the contract names the result.
#[verifier::external_body]
fn parse_members(text: &str) -> (r: Option<Vec<(String, Option<String>)>>)
    ensures
        match r {
            None => object_members(text@) is None,
            Some(v) => object_members(text@) == Some(
                v@.map_values(
                    |m: (String, Option<String>)|
                        (m.0@, match m.1 {
                            Some(s) => Some(s@),
                            None => None,
                        }),
                ),
            ),
        },
{
    let members = serde_json::from_str::<serde_json::Map<String, serde_json::Value>>(text).ok()?;
    Some(members.into_iter().map(|(name, value)| (name, value.as_str().map(|s| s.to_string()))).collect())
}

/// The headers of the members: those whose value is a string, in order.
pub open spec fn string_members(members: Seq<(Seq<char>, Option<Seq<char>>)>) -> Seq<(Seq<char>, Seq<char>)>
    decreases members.len(),
{
    if members.len() == 0 {
        Seq::empty()
    } else {
        let rest = string_members(members.drop_last());
        match members.last().1 {
            Some(v) => rest.push((members.last().0, v)),
            None => rest,
        }
    }
}

/// The headers the guest asked for: the members of `headers_json` whose
/// value is a string. Anything else carries no header.
pub open spec fn requested_headers(headers_json: Seq<char>) -> Seq<(Seq<char>, Seq<char>)> {
    match object_members(headers_json) {
        Some(members) => string_members(members),
        None => Seq::empty(),
    }
}

/// One request as it is sent.
pub struct HttpPlan {
    pub method: HttpMethod,
    pub headers: Vec<(String, String)>,
    /// The body, when the guest gave a non-empty one.
    pub body: Option<String>,
}

/// The header pairs as text.
pub open spec fn header_texts(h: Seq<(String, String)>) -> Seq<(Seq<char>, Seq<char>)> {
    h.map_values(|p: (String, String)| (p.0@, p.1@))
}

/// What is sent for this method, header object and body: nothing where the
/// method is not one this host function sends.
pub fn http_plan(method: &str, headers_json: &str, body: &str) -> (r: Option<HttpPlan>)
    ensures
        match method_named(method@) {
            None => r is None,
            Some(m) => r is Some && r->Some_0.method == m && header_texts(r->Some_0.headers@) == requested_headers(
                headers_json@,
            ) && (body@.len() == 0 ==> r->Some_0.body is None) && (body@.len() > 0 ==> r->Some_0.body is Some
                && r->Some_0.body->Some_0@ == body@),
        },
{
    let m = match method_of(method) {
        Some(m) => m,
        None => return None,
    };
    let mut headers: Vec<(String, String)> = Vec::new();
    match parse_members(headers_json) {
        Some(members) => {
            let ghost seen = object_members(headers_json@).unwrap();
            let mut i: usize = 0;
            while i < members.len()
                invariant
                    i <= members@.len(),
                    seen.len() == members@.len(),
                    forall|k: int| 0 <= k < members@.len() ==> (#[trigger] seen[k]).0 == members@[k].0@ && seen[k].1
                        == match members@[k].1 {
                        Some(s) => Some(s@),
                        None => None,
                    },
                    header_texts(headers@) == string_members(seen.take(i as int)),
                decreases members.len() - i,
            {
                proof {
                    assert(seen.take(i + 1).drop_last() =~= seen.take(i as int));
                    assert(seen.take(i + 1).last() == seen[i as int]);
                }
                match &members[i].1 {
                    Some(value) => {
                        headers.push((owned(members[i].0.as_str()), owned(value.as_str())));
                        assert(header_texts(headers@) =~= string_members(seen.take(i as int)).push(
                            (seen[i as int].0, seen[i as int].1.unwrap()),
                        ));
                    },
                    None => {},
                }
                i = i + 1;
            }
            assert(seen.take(members@.len() as int) =~= seen);
        },
        None => {
            assert(header_texts(headers@) =~= Seq::<(Seq<char>, Seq<char>)>::empty());
        },
    }
    let body = if body.unicode_len() > 0 {
        Some(owned(body))
    } else {
        None
    };
    Some(HttpPlan { method: m, headers, body })
}

/// How a request went.
pub enum Exchange {
    /// The client could not be built.
    NoClient(String),
    /// The method is not one this host function sends.
    Unsupported,
    /// Sending failed, for this reason.
    SendFailed(String),
    /// The server answered with this status; its body as text, or why it
    /// could not be read.
    Answered(u16, Result<String, String>),
}

/// The answer the guest gets.
pub open spec fn exchange_text(method: Seq<char>, e: Exchange) -> Seq<char> {
    match e {
        Exchange::NoClient(reason) => "{\"error\":\"client error: "@ + json_escaped(reason@) + "\"}"@,
        Exchange::Unsupported => "{\"error\":\"unsupported method: "@ + json_escaped(method) + "\"}"@,
        Exchange::SendFailed(reason) => "{\"error\":\"request failed: "@ + json_escaped(reason@) + "\"}"@,
        Exchange::Answered(status, Ok(text)) => "{\"status\":"@ + crate::text::decimal(status as nat)
            + ",\"body\":\""@ + json_escaped(text@) + "\"}"@,
        Exchange::Answered(_, Err(reason)) => "{\"error\":\"read error: "@ + json_escaped(reason@) + "\"}"@,
    }
}

/// The JSON answer of one HTTP request: `{"status":N,"body":"…"}` with the
/// body escaped, or `{"error":"…"}` saying which step failed, every text it
/// embeds escaped the same way.
pub fn wt_http_request(method: &str, exchange: &Exchange) -> (r: String)
    ensures
        r@ == exchange_text(method@, *exchange),
{
    match exchange {
        Exchange::NoClient(reason) => {
            let mut t = owned("{\"error\":\"client error: ");
            push_json_escaped(&mut t, reason.as_str());
            push_str(&mut t, "\"}");
            t
        },
        Exchange::Unsupported => {
            let mut t = owned("{\"error\":\"unsupported method: ");
            push_json_escaped(&mut t, method);
            push_str(&mut t, "\"}");
            t
        },
        Exchange::SendFailed(reason) => {
            let mut t = owned("{\"error\":\"request failed: ");
            push_json_escaped(&mut t, reason.as_str());
            push_str(&mut t, "\"}");
            t
        },
        Exchange::Answered(status, Ok(text)) => {
            let mut t = owned("{\"status\":");
            push_decimal(&mut t, *status as u64);
            push_str(&mut t, ",\"body\":\"");
            push_json_escaped(&mut t, text.as_str());
            push_str(&mut t, "\"}");
            t
        },
        Exchange::Answered(_, Err(reason)) => {
            let mut t = owned("{\"error\":\"read error: ");
            push_json_escaped(&mut t, reason.as_str());
            push_str(&mut t, "\"}");
            t
        },
    }
}

} // verus!
