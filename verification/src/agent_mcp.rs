//! The decisions of an explicitly granted remote MCP call: which endpoints
//! and tools may be called, how an event stream is cut into lines and
//! events within its bounds, which JSON-RPC replies carry a result, and
//! which protocol answers are accepted. The HTTP exchange and JSON values
//! are the host's.

use vstd::prelude::*;
use crate::runtime::{parse_url, url_parts};
use crate::text::{owned, push_char, push_str, same_text, starts};
use crate::words::{strip_prefix, trim};

verus! {

/// The most bytes a request or a reply may hold: one MiB.
pub const MAX_BYTES: u64 = 1048576;

/// The most events one streamed reply may carry.
pub const MAX_EVENTS: u64 = 128;

// ---------------------------------------------------------------------------
// Endpoints and tools
// ---------------------------------------------------------------------------

/// What is wrong with an MCP endpoint, if anything: it must parse, be HTTPS
/// (plain HTTP only on loopback), and carry no credentials, query or
/// fragment.
pub open spec fn endpoint_fault(endpoint: Seq<char>) -> Option<Seq<char>> {
    match url_parts(endpoint) {
        None => Some("invalid MCP endpoint"@),
        Some(p) => {
            let local = match p.1 {
                Some(h) => h == "localhost"@ || h == "127.0.0.1"@ || h == "[::1]"@,
                None => false,
            };
            if !(p.0 == "https"@ || (p.0 == "http"@ && local)) || p.2.len() > 0 || p.3 || p.4 || p.5 {
                Some("MCP endpoint requires HTTPS (HTTP only on loopback), without credentials, query or fragment"@)
            } else {
                None
            }
        },
    }
}

/// A remote endpoint carries no credential of its own, the host supplies
/// that, and is plaintext only when it is loopback.
pub fn check_endpoint(endpoint: &str) -> (r: Result<(), String>)
    ensures
        match endpoint_fault(endpoint@) {
            Some(m) => r is Err && r->Err_0@ == m,
            None => r is Ok,
        },
{
    match parse_url(endpoint) {
        None => Err(owned("invalid MCP endpoint")),
        Some((scheme, host, username, password, query, fragment, _)) => {
            let local = match &host {
                Some(h) => same_text(h.as_str(), "localhost") || same_text(h.as_str(), "127.0.0.1") || same_text(
                    h.as_str(),
                    "[::1]",
                ),
                None => false,
            };
            let secure = same_text(scheme.as_str(), "https") || (same_text(scheme.as_str(), "http") && local);
            if !secure || username.unicode_len() > 0 || password || query || fragment {
                return Err(owned(
                    "MCP endpoint requires HTTPS (HTTP only on loopback), without credentials, query or fragment",
                ));
            }
            Ok(())
        },
    }
}

/// A granted remote tool, as the checks read it.
pub struct Tool {
    pub endpoint: String,
    /// The tool's name on the server.
    pub remote_name: String,
    /// Whether its input schema is a JSON object.
    pub schema_is_object: bool,
}

/// What is wrong with a granted tool, if anything: its endpoint, then a
/// remote name of 1 to 128 bytes and an object input schema.
pub open spec fn tool_fault(t: Tool) -> Option<Seq<char>> {
    match endpoint_fault(t.endpoint@) {
        Some(m) => Some(m),
        None => if t.remote_name@.len() == 0 || vstd::utf8::encode_utf8(t.remote_name@).len() > 128
            || !t.schema_is_object {
            Some("MCP remote_name and object input_schema are required"@)
        } else {
            None
        },
    }
}

impl Tool {
    /// Whether the tool may be called at all.
    pub fn check(&self) -> (r: Result<(), String>)
        ensures
            match tool_fault(*self) {
                Some(m) => r is Err && r->Err_0@ == m,
                None => r is Ok,
            },
    {
        match check_endpoint(self.endpoint.as_str()) {
            Err(e) => return Err(e),
            Ok(()) => {},
        }
        if self.remote_name.unicode_len() == 0 || self.remote_name.as_str().as_bytes().len() > 128
            || !self.schema_is_object {
            return Err(owned("MCP remote_name and object input_schema are required"));
        }
        Ok(())
    }
}

/// The credential a tool names: none when it names no variable; the value
/// of that variable when it is set and not empty; else a refusal.
pub fn credential(token_env: &Option<String>, value: &Option<String>) -> (r: Result<Option<String>, String>)
    ensures
        token_env is None ==> r is Ok && r->Ok_0 is None,
        token_env is Some && value is Some && value->Some_0@.len() > 0 ==> r is Ok && r->Ok_0 is Some
            && r->Ok_0->Some_0@ == value->Some_0@,
        token_env is Some && (value is None || value->Some_0@.len() == 0) ==> r is Err && r->Err_0@
            == "required MCP credential is missing"@,
{
    match token_env {
        None => Ok(None),
        Some(_) => match value {
            Some(v) => {
                if v.unicode_len() > 0 {
                    Ok(Some(owned(v.as_str())))
                } else {
                    Err(owned("required MCP credential is missing"))
                }
            },
            None => Err(owned("required MCP credential is missing")),
        },
    }
}

/// A session the server hands out must be 1 to 1024 visible ASCII bytes.
pub open spec fn session_ok(session: Seq<u8>) -> bool {
    0 < session.len() <= 1024 && forall|i: int| 0 <= i < session.len() ==> 0x21 <= #[trigger] session[i] <= 0x7e
}

/// Whether the session header the server sent may be echoed back.
pub fn valid_session(session: &[u8]) -> (r: bool)
    ensures
        r == session_ok(session@),
{
    if session.len() == 0 || session.len() > 1024 {
        return false;
    }
    let mut i: usize = 0;
    while i < session.len()
        invariant
            i <= session@.len(),
            forall|k: int| 0 <= k < i ==> 0x21 <= #[trigger] session@[k] <= 0x7e,
        decreases session.len() - i,
    {
        if session[i] < 0x21 || session[i] > 0x7e {
            return false;
        }
        i = i + 1;
    }
    true
}

// ---------------------------------------------------------------------------
// JSON-RPC replies
// ---------------------------------------------------------------------------

/// What a JSON-RPC message says of itself, as the envelope check reads it.
pub struct Envelope {
    /// The `jsonrpc` member, where it is a string.
    pub jsonrpc: Option<String>,
    pub has_method: bool,
    pub has_id: bool,
    /// The `id` member, where it is an unsigned integer.
    pub id: Option<u64>,
    /// Whether there is a `result`, and whether it is an object.
    pub result: Option<bool>,
    pub has_error: bool,
}

/// What a message means for the call waiting on `id`: a result to take
/// (`Ok(true)`), a notification to ignore (`Ok(false)`), or a refusal.
pub open spec fn envelope_outcome(e: Envelope, id: u64) -> Result<bool, Seq<char>> {
    if !(e.jsonrpc is Some && e.jsonrpc->Some_0@ == "2.0"@) {
        Err("invalid MCP JSON-RPC version"@)
    } else if e.has_method {
        if e.has_id { Err("MCP server requested an ungranted client capability"@) } else { Ok(false) }
    } else if e.id != Some(id) {
        Err("MCP response id mismatch"@)
    } else {
        match (e.result, e.has_error) {
            (Some(true), false) => Ok(true),
            (None, true) => Err("MCP returned a JSON-RPC error"@),
            _ => Err("invalid MCP response envelope"@),
        }
    }
}

/// The reply to the call waiting on `id`: no capability was advertised, so
/// a server request is refused and a notification ignored; the reply must
/// carry this id and exactly one of an object result and an error.
pub fn envelope(e: &Envelope, id: u64) -> (r: Result<bool, String>)
    ensures
        match envelope_outcome(*e, id) {
            Ok(b) => r is Ok && r->Ok_0 == b,
            Err(m) => r is Err && r->Err_0@ == m,
        },
{
    let version_ok = match &e.jsonrpc {
        Some(v) => same_text(v.as_str(), "2.0"),
        None => false,
    };
    if !version_ok {
        return Err(owned("invalid MCP JSON-RPC version"));
    }
    if e.has_method {
        if e.has_id {
            return Err(owned("MCP server requested an ungranted client capability"));
        }
        return Ok(false);
    }
    let same_id = match e.id {
        Some(i) => i == id,
        None => false,
    };
    if !same_id {
        return Err(owned("MCP response id mismatch"));
    }
    match (e.result, e.has_error) {
        (Some(true), false) => Ok(true),
        (None, true) => Err(owned("MCP returned a JSON-RPC error")),
        _ => Err(owned("invalid MCP response envelope")),
    }
}

// ---------------------------------------------------------------------------
// Event streams
// ---------------------------------------------------------------------------

/// `String::from_utf8`: the text the bytes encode, where they are UTF-8.
#[verifier::external_body]
fn utf8_text(bytes: Vec<u8>) -> (r: Option<String>)
    ensures
        match r {
            Some(s) => vstd::utf8::valid_utf8(bytes@) && s@ == vstd::utf8::decode_utf8(bytes@),
            None => !vstd::utf8::valid_utf8(bytes@),
        },
{
    String::from_utf8(bytes).ok()
}

/// A line of an event stream being read: the bytes read so far in all, the
/// line's bytes, and whether a `\n` just after a `\r` is still to be skipped.
pub struct SseLine {
    pub total: u64,
    pub skip_lf: bool,
    pub bytes: Vec<u8>,
}

/// What one byte of the stream did.
pub enum SseRead {
    /// The line goes on.
    More,
    /// A line ended; here it is.
    Line(String),
    /// The stream ended (what was read of an unfinished line is dropped).
    Ended,
}

/// One byte of an event stream (`None` at its end). SSE permits LF, CRLF
/// and lone CR line endings; a line must be UTF-8, and the whole reply at
/// most one MiB.
pub fn sse_line(state: &mut SseLine, byte: Option<u8>) -> (r: Result<SseRead, String>)
    requires
        old(state).total <= MAX_BYTES,
    ensures
        r is Ok ==> final(state).total <= MAX_BYTES,
        match byte {
            None => r is Ok && r->Ok_0 is Ended && *final(state) == *old(state),
            Some(b) => {
                if old(state).total + 1 > MAX_BYTES {
                    r is Err && r->Err_0@ == "MCP response exceeds 1 MiB"@
                } else if old(state).skip_lf && b == 10 {
                    r is Ok && r->Ok_0 is More && final(state).total == old(state).total + 1 && !final(state).skip_lf
                        && final(state).bytes@ == old(state).bytes@
                } else if b == 13 || b == 10 {
                    final(state).total == old(state).total + 1 && final(state).skip_lf == (b == 13)
                        && final(state).bytes@.len() == 0 && if vstd::utf8::valid_utf8(old(state).bytes@) {
                        r is Ok && r->Ok_0 is Line && r->Ok_0->Line_0@ == vstd::utf8::decode_utf8(old(state).bytes@)
                    } else {
                        r is Err && r->Err_0@ == "MCP stream must be UTF-8"@
                    }
                } else {
                    r is Ok && r->Ok_0 is More && final(state).total == old(state).total + 1 && !final(state).skip_lf
                        && final(state).bytes@ == old(state).bytes@.push(b)
                }
            },
        },
{
    let b = match byte {
        None => return Ok(SseRead::Ended),
        Some(b) => b,
    };
    if state.total + 1 > MAX_BYTES {
        return Err(owned("MCP response exceeds 1 MiB"));
    }
    state.total = state.total + 1;
    if state.skip_lf {
        state.skip_lf = false;
        if b == 10 {
            return Ok(SseRead::More);
        }
    }
    if b == 13 || b == 10 {
        state.skip_lf = b == 13;
        let mut line: Vec<u8> = Vec::new();
        std::mem::swap(&mut line, &mut state.bytes);
        return match utf8_text(line) {
            Some(text) => Ok(SseRead::Line(text)),
            None => Err(owned("MCP stream must be UTF-8")),
        };
    }
    state.bytes.push(b);
    Ok(SseRead::More)
}

/// One field line folded into the event being assembled: `data:` adds its
/// value (one leading space dropped), a line break before it unless the data
/// is empty; a bare `data` adds a line break; any other field is ignored.
pub open spec fn field_appended(data: Seq<char>, line: Seq<char>) -> Seq<char> {
    match strip_prefix(line, "data:"@) {
        Some(value) => (if data.len() > 0 { data.push('\n') } else { data }) + (if value.len() > 0 && value[0] == ' ' {
            value.drop_first()
        } else {
            value
        }),
        None => if line == "data"@ { data.push('\n') } else { data },
    }
}

/// Folds one field line into the event being assembled.
pub fn append_field(data: &mut String, line: &str)
    ensures
        final(data)@ == field_appended(old(data)@, line@),
{
    let chars = crate::text::chars_of(line);
    let prefix = crate::text::chars_of("data:");
    match crate::words::strip_prefix_of(chars.as_slice(), prefix.as_slice()) {
        Some(value) => {
            if data.unicode_len() > 0 {
                push_char(data, '\n');
            }
            if value.len() > 0 && value[0] == ' ' {
                push_str(data, crate::text::slice_text(value.as_slice(), 1, value.len()).as_str());
                assert(value@.subrange(1, value@.len() as int) =~= value@.drop_first());
            } else {
                push_str(data, crate::text::string_of(value.as_slice()).as_str());
            }
        },
        None => {
            if same_text(line, "data") {
                push_char(data, '\n');
            }
        },
    }
}

/// A streamed reply being read: its current line, whether no line has ended
/// yet, the event being assembled, and how many events have ended.
pub struct SseStream {
    pub line: SseLine,
    pub first_line: bool,
    pub data: String,
    pub events: u64,
}

/// A stream before its first byte.
pub fn sse_stream() -> (r: SseStream)
    ensures
        r.line.total == 0 && !r.line.skip_lf && r.line.bytes@.len() == 0 && r.first_line && r.data@.len() == 0
            && r.events == 0,
{
    SseStream {
        line: SseLine { total: 0, skip_lf: false, bytes: Vec::new() },
        first_line: true,
        data: String::new(),
        events: 0,
    }
}

/// The line as the event assembler reads it: the first line of a stream
/// without a leading byte-order mark.
pub open spec fn unmarked(line: Seq<char>, first: bool) -> Seq<char> {
    if first && line.len() > 0 && line[0] == '\u{feff}' { line.drop_first() } else { line }
}

/// One line of a streamed reply. A field line is folded into the event; an
/// empty line ends the event, of which there may be at most 128: its data is
/// handed back to be read as a JSON-RPC message unless it is only white
/// space, and the next event starts empty.
pub fn sse_event_line(stream: &mut SseStream, line: &str) -> (r: Result<Option<String>, String>)
    requires
        old(stream).events <= MAX_EVENTS,
    ensures
        final(stream).line == old(stream).line,
        !final(stream).first_line,
        ({
            let l = unmarked(line@, old(stream).first_line);
            if l.len() > 0 {
                r is Ok && r->Ok_0 is None && final(stream).data@ == field_appended(old(stream).data@, l)
                    && final(stream).events == old(stream).events
            } else if old(stream).events + 1 > MAX_EVENTS {
                r is Err && r->Err_0@ == "MCP stream exceeds 128 events"@
            } else {
                final(stream).events == old(stream).events + 1 && final(stream).data@.len() == 0 && if trim(
                    old(stream).data@,
                ).len() == 0 {
                    r is Ok && r->Ok_0 is None
                } else {
                    r is Ok && r->Ok_0 is Some && r->Ok_0->Some_0@ == old(stream).data@
                }
            }
        }),
{
    let chars = crate::text::chars_of(line);
    let l = if stream.first_line && chars.len() > 0 && chars[0] == '\u{feff}' {
        crate::text::slice_text(chars.as_slice(), 1, chars.len())
    } else {
        owned(line)
    };
    assert(chars@.subrange(1, chars@.len() as int) =~= chars@.drop_first());
    stream.first_line = false;
    if l.unicode_len() > 0 {
        append_field(&mut stream.data, l.as_str());
        return Ok(None);
    }
    if stream.events + 1 > MAX_EVENTS {
        return Err(owned("MCP stream exceeds 128 events"));
    }
    stream.events = stream.events + 1;
    let mut data = String::new();
    std::mem::swap(&mut data, &mut stream.data);
    let dc = crate::text::chars_of(data.as_str());
    if crate::words::trimmed(dc.as_slice()).len() == 0 {
        Ok(None)
    } else {
        Ok(Some(data))
    }
}

// ---------------------------------------------------------------------------
// The protocol
// ---------------------------------------------------------------------------

/// The protocol versions this client speaks.
pub open spec fn known_version(v: Seq<char>) -> bool {
    v == "2025-11-25"@ || v == "2025-06-18"@ || v == "2025-03-26"@
}

/// The answer to `initialize`: the version the server chose (where it is a
/// string) must be one this client speaks, and the server must advertise
/// tools as an object. The version to speak from then on.
pub fn accept_initialize(version: &Option<String>, tools_is_object: bool) -> (r: Result<String, String>)
    ensures
        version is None ==> r is Err && r->Err_0@ == "MCP initialize missing protocolVersion"@,
        version is Some && !known_version(version->Some_0@) ==> r is Err && r->Err_0@
            == "unsupported MCP protocol version"@,
        version is Some && known_version(version->Some_0@) && !tools_is_object ==> r is Err && r->Err_0@
            == "MCP server does not advertise tools"@,
        version is Some && known_version(version->Some_0@) && tools_is_object ==> r is Ok && r->Ok_0@
            == version->Some_0@,
{
    let v = match version {
        None => return Err(owned("MCP initialize missing protocolVersion")),
        Some(v) => v,
    };
    if !(same_text(v.as_str(), "2025-11-25") || same_text(v.as_str(), "2025-06-18") || same_text(
        v.as_str(),
        "2025-03-26",
    )) {
        return Err(owned("unsupported MCP protocol version"));
    }
    if !tools_is_object {
        return Err(owned("MCP server does not advertise tools"));
    }
    Ok(owned(v.as_str()))
}

/// The `initialized` notification must be accepted with HTTP 202.
pub fn accept_initialized(status: u16) -> (r: Result<(), String>)
    ensures
        status == 202 <==> r is Ok,
        r is Err ==> r->Err_0@ == "MCP initialized notification requires HTTP 202"@,
{
    if status != 202 {
        return Err(owned("MCP initialized notification requires HTTP 202"));
    }
    Ok(())
}

/// A tool's result must hold its content as an array, and may hold
/// `isError` only as a boolean and `structuredContent` only as an object.
pub fn accept_tool_result(content_is_array: bool, is_error: Option<bool>, structured: Option<bool>) -> (r: Result<(), String>)
    ensures
        r is Ok <==> content_is_array && is_error != Some(false) && structured != Some(false),
        r is Err ==> r->Err_0@ == "invalid MCP tool result"@,
{
    let is_error_ok = match is_error {
        Some(b) => b,
        None => true,
    };
    let structured_ok = match structured {
        Some(b) => b,
        None => true,
    };
    if !content_is_array || !is_error_ok || !structured_ok {
        return Err(owned("invalid MCP tool result"));
    }
    Ok(())
}

/// The media type of a `Content-Type` header: what precedes its first `;`,
/// trimmed, in ASCII lowercase.
pub open spec fn media_type(content_type: Seq<char>) -> Seq<char> {
    let head = match crate::words::split_once(content_type, ";"@) {
        Some(p) => p.0,
        None => content_type,
    };
    trim(head).map_values(|c: char| crate::proxy::fold_case(c))
}

/// How a reply is read, by its content type: as one JSON document
/// (`Ok(false)`), as an event stream (`Ok(true)`), or not at all.
pub fn reply_kind(content_type: &str) -> (r: Result<bool, String>)
    ensures
        media_type(content_type@) == "application/json"@ ==> r is Ok && !r->Ok_0,
        media_type(content_type@) == "text/event-stream"@ ==> r is Ok && r->Ok_0,
        media_type(content_type@) != "application/json"@ && media_type(content_type@) != "text/event-stream"@ ==> r is Err
            && r->Err_0@ == "unsupported MCP response content type"@,
{
    let chars = crate::text::chars_of(content_type);
    let semicolon = crate::text::chars_of(";");
    let head = match crate::words::split_once_at(chars.as_slice(), semicolon.as_slice()) {
        Some((h, _)) => h,
        None => chars,
    };
    let t = crate::words::trimmed(head.as_slice());
    let mut lower: Vec<char> = Vec::new();
    let mut i: usize = 0;
    while i < t.len()
        invariant
            i <= t@.len(),
            lower@ == t@.take(i as int).map_values(|c: char| crate::proxy::fold_case(c)),
        decreases t.len() - i,
    {
        lower.push(crate::proxy::fold(t[i]));
        assert(lower@ =~= t@.take(i + 1).map_values(|c: char| crate::proxy::fold_case(c)));
        i = i + 1;
    }
    assert(t@.take(t@.len() as int) =~= t@);
    let m = crate::text::string_of(lower.as_slice());
    proof {
        reveal_strlit("application/json");
        reveal_strlit("text/event-stream");
    }
    if same_text(m.as_str(), "application/json") {
        Ok(false)
    } else if same_text(m.as_str(), "text/event-stream") {
        Ok(true)
    } else {
        Err(owned("unsupported MCP response content type"))
    }
}

/// A request body must fit in one MiB.
pub fn request_fits(body_len: usize) -> (r: Result<(), String>)
    ensures
        body_len <= MAX_BYTES <==> r is Ok,
        r is Err ==> r->Err_0@ == "MCP request exceeds 1 MiB"@,
{
    if body_len as u64 > MAX_BYTES {
        return Err(owned("MCP request exceeds 1 MiB"));
    }
    Ok(())
}

} // verus!
