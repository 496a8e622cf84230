//! The decisions of the agent runtime: which configurations are accepted,
//! which artifact pins hold, the budgets every step, model call and check is
//! charged against, and where a tool call goes. The guest's execution, the
//! model's HTTP exchange and the checks' runs are the host's; each is asked
//! for here first, and refused here when a budget or a rule says no.

use vstd::prelude::*;
use crate::text::{chars_of, decimal, owned, push_decimal, push_str, same_text};
use crate::words::{texts, trim};
use crate::agent_loading::{clipped, clipped_to};

verus! {

/// Messages, inputs and outputs crossing the broker boundary are at most
/// this many bytes.
pub const MAX_MESSAGE: u64 = 1048576;

// ---------------------------------------------------------------------------
// Configuration
// ---------------------------------------------------------------------------

/// A run's budgets as configured.
#[derive(Clone, Copy, Debug)]
pub struct Limits {
    pub max_steps: u32,
    pub max_model_calls: u32,
    pub fuel_per_step: u64,
    pub memory_pages: u64,
    pub timeout_seconds: u64,
    pub max_output_tokens: u32,
}

impl Limits {
    /// The budgets a configuration that names none gets.
    pub fn standard() -> (l: Limits)
        ensures
            l.max_steps == 64 && l.max_model_calls == 16 && l.fuel_per_step == 50_000_000,
            l.memory_pages == 1024 && l.timeout_seconds == 120 && l.max_output_tokens == 2048,
    {
        Limits {
            max_steps: 64,
            max_model_calls: 16,
            fuel_per_step: 50_000_000,
            memory_pages: 1024,
            timeout_seconds: 120,
            max_output_tokens: 2048,
        }
    }
}

/// Every budget is positive, memory is at most 65536 pages and the timeout at
/// most a day.
pub open spec fn limits_ok(l: Limits) -> bool {
    l.max_steps > 0 && l.max_model_calls > 0 && l.fuel_per_step > 0 && l.memory_pages > 0 && l.memory_pages <= 65536
        && l.timeout_seconds > 0 && l.timeout_seconds <= 86400 && l.max_output_tokens > 0
}

/// What the parts of a URL are, as `reqwest::Url` parses it: the scheme, the
/// host, the user name, whether a password, a query or a fragment is there,
/// and the port (the scheme's default where none is written); `None` when
/// the text is not a URL.
pub uninterp spec fn url_parts(text: Seq<char>) -> Option<(Seq<char>, Option<Seq<char>>, Seq<char>, bool, bool, bool, Option<u16>)>;

/// `reqwest::Url::parse`, reduced to the parts a model endpoint and a
/// host check are judged by. What the parse makes of a text is the `url` crate's (WHATWG URL
/// parsing); the contract names the answer without restating it.
#[verifier::external_body]
pub(crate) fn parse_url(text: &str) -> (r: Option<(String, Option<String>, String, bool, bool, bool, Option<u16>)>)
    ensures
        match r {
            None => url_parts(text@) is None,
            Some(p) => url_parts(text@) == Some(
                (p.0@, match p.1 {
                    Some(h) => Some(h@),
                    None => None,
                }, p.2@, p.3, p.4, p.5, p.6),
            ),
        },
{
    match reqwest::Url::parse(text) {
        Ok(url) => Some((
            url.scheme().to_string(),
            url.host_str().map(|host| host.to_string()),
            url.username().to_string(),
            url.password().is_some(),
            url.query().is_some(),
            url.fragment().is_some(),
            url.port_or_known_default(),
        )),
        Err(_) => None,
    }
}

/// The refusal of a model endpoint that is not one.
pub open spec fn endpoint_refusal() -> Seq<char> {
    "model endpoint must use HTTPS (HTTP only on loopback), without credentials, query or fragment"@
}

/// Why a model endpoint is refused, if it is: it must be a URL, HTTPS or
/// plain HTTP on loopback only, and carry no credentials, query or fragment.
pub open spec fn endpoint_problem(endpoint: Seq<char>) -> Option<Seq<char>> {
    match url_parts(endpoint) {
        None => Some("invalid model endpoint"@),
        Some(p) => {
            let loopback = match p.1 {
                Some(h) => h == "localhost"@ || h == "127.0.0.1"@ || h == "[::1]"@,
                None => false,
            };
            if !(p.0 == "https"@ || (p.0 == "http"@ && loopback)) || p.2.len() > 0 || p.3 || p.4 || p.5 {
                Some(endpoint_refusal())
            } else {
                None
            }
        },
    }
}

/// The model endpoint may not carry credentials and is plaintext only on
/// loopback.
pub fn validate_endpoint(endpoint: &str) -> (r: Result<(), String>)
    ensures
        match endpoint_problem(endpoint@) {
            Some(m) => r is Err && r->Err_0@ == m,
            None => r is Ok,
        },
{
    match parse_url(endpoint) {
        None => Err(owned("invalid model endpoint")),
        Some((scheme, host, username, password, query, fragment, _)) => {
            let loopback = match &host {
                Some(h) => same_text(h.as_str(), "localhost") || same_text(h.as_str(), "127.0.0.1") || same_text(
                    h.as_str(),
                    "[::1]",
                ),
                None => false,
            };
            let secure = same_text(scheme.as_str(), "https") || (same_text(scheme.as_str(), "http") && loopback);
            if !secure || username.unicode_len() > 0 || password || query || fragment {
                return Err(owned(
                    "model endpoint must use HTTPS (HTTP only on loopback), without credentials, query or fragment",
                ));
            }
            Ok(())
        },
    }
}

/// Why a configuration's settings are refused, if they are, in the order they
/// are checked: the version, the budgets, the task's length in bytes, the
/// temperature (whether it is a finite number from 0 to 2 is the caller's
/// finding), the model's name and its endpoint.
pub open spec fn settings_problem(
    version: u32,
    limits: Limits,
    task_bytes: nat,
    temperature_ok: bool,
    model_name: Seq<char>,
    endpoint: Seq<char>,
) -> Option<Seq<char>> {
    if version != 1 {
        Some("unsupported agent config version (expected 1)"@)
    } else if !limits_ok(limits) {
        Some("agent budgets must be positive; memory <= 65536 pages and timeout <= 86400 seconds"@)
    } else if task_bytes == 0 || task_bytes > MAX_MESSAGE / 2 {
        Some("task must be nonempty and at most 512 KiB"@)
    } else if !temperature_ok {
        Some("model.temperature must be finite and between 0 and 2"@)
    } else if trim(model_name).len() == 0 {
        Some("model.name is required"@)
    } else {
        endpoint_problem(endpoint)
    }
}

/// The settings that must hold before anything is compiled or resolved.
/// `task_bytes` is the task's length in bytes.
pub fn validate_settings(
    version: u32,
    limits: &Limits,
    task_bytes: usize,
    temperature_ok: bool,
    model_name: &str,
    endpoint: &str,
) -> (r: Result<(), String>)
    ensures
        match settings_problem(version, *limits, task_bytes as nat, temperature_ok, model_name@, endpoint@) {
            Some(m) => r is Err && r->Err_0@ == m,
            None => r is Ok,
        },
{
    if version != 1 {
        return Err(owned("unsupported agent config version (expected 1)"));
    }
    let l = limits;
    if l.max_steps == 0 || l.max_model_calls == 0 || l.fuel_per_step == 0 || l.memory_pages == 0 || l.memory_pages
        > 65536 || l.timeout_seconds == 0 || l.timeout_seconds > 86400 || l.max_output_tokens == 0 {
        return Err(owned("agent budgets must be positive; memory <= 65536 pages and timeout <= 86400 seconds"));
    }
    if task_bytes == 0 || task_bytes as u64 > MAX_MESSAGE / 2 {
        return Err(owned("task must be nonempty and at most 512 KiB"));
    }
    if !temperature_ok {
        return Err(owned("model.temperature must be finite and between 0 and 2"));
    }
    let name = chars_of(model_name);
    if crate::words::trimmed(name.as_slice()).len() == 0 {
        return Err(owned("model.name is required"));
    }
    validate_endpoint(endpoint)
}

// ---------------------------------------------------------------------------
// Names
// ---------------------------------------------------------------------------

/// An ASCII letter or digit, `_` or `-`.
pub open spec fn name_char(c: char) -> bool {
    ('a' <= c <= 'z') || ('A' <= c <= 'Z') || ('0' <= c <= '9') || c == '_' || c == '-'
}

/// A nonempty name of ASCII letters, digits, `_` and `-`.
pub open spec fn identifier(name: Seq<char>) -> bool {
    name.len() > 0 && forall|i: int| 0 <= i < name.len() ==> name_char(#[trigger] name[i])
}

/// Whether `name` is an identifier.
pub fn is_identifier(name: &str) -> (r: bool)
    ensures
        r == identifier(name@),
{
    let chars = chars_of(name);
    if chars.len() == 0 {
        return false;
    }
    let mut i: usize = 0;
    while i < chars.len()
        invariant
            i <= chars@.len(),
            chars@ == name@,
            forall|k: int| 0 <= k < i ==> name_char(#[trigger] chars@[k]),
        decreases chars.len() - i,
    {
        let c = chars[i];
        if !(('a' <= c && c <= 'z') || ('A' <= c && c <= 'Z') || ('0' <= c && c <= '9') || c == '_' || c == '-') {
            return false;
        }
        i = i + 1;
    }
    true
}

/// Whether `names` holds a string with the text of `name`.
fn holds(names: &Vec<String>, name: &str) -> (r: bool)
    ensures
        r == texts(names@).contains(name@),
{
    let mut i: usize = 0;
    while i < names.len()
        invariant
            i <= names@.len(),
            forall|k: int| 0 <= k < i ==> names@[k]@ != name@,
        decreases names.len() - i,
    {
        if same_text(names[i].as_str(), name) {
            assert(texts(names@)[i as int] == name@);
            return true;
        }
        i = i + 1;
    }
    assert(!texts(names@).contains(name@)) by {
        if texts(names@).contains(name@) {
            let k = choose|k: int| 0 <= k < texts(names@).len() && texts(names@)[k] == name@;
            assert(names@[k]@ == name@);
        }
    }
    false
}

/// Claims `name` for one tool or delegated agent of a team: a name is unique
/// across all of them and an identifier.
pub fn claim_name(names: &mut Vec<String>, name: &str, kind: &str) -> (r: Result<(), String>)
    ensures
        (identifier(name@) && !texts(old(names)@).contains(name@)) ==> r is Ok && texts(final(names)@) == texts(
            old(names)@,
        ).push(name@),
        !(identifier(name@) && !texts(old(names)@).contains(name@)) ==> r is Err && r->Err_0@ == kind@
            + " names must be unique, nonempty ASCII letters, numbers, underscores or hyphens"@ && final(names)@ == old(names)@,
{
    if !is_identifier(name) || holds(names, name) {
        let mut message = owned(kind);
        push_str(&mut message, " names must be unique, nonempty ASCII letters, numbers, underscores or hyphens");
        return Err(message);
    }
    let ghost before = names@;
    names.push(owned(name));
    assert(texts(names@) =~= texts(before).push(name@));
    Ok(())
}

// ---------------------------------------------------------------------------
// Artifact pins
// ---------------------------------------------------------------------------

/// The SHA-256 digest of some bytes in lowercase hexadecimal.
pub uninterp spec fn sha256_hex(bytes: Seq<u8>) -> Seq<char>;

/// `format!("{:x}", sha2::Sha256::digest(bytes))`: the SHA-256 digest in
/// lowercase hexadecimal. The contract names the digest; what SHA-256 makes
/// of the bytes is the `sha2` crate's.
#[verifier::external_body]
pub fn digest(bytes: &[u8]) -> (r: String)
    ensures
        r@ == sha256_hex(bytes@),
{
    format!("{:x}", <sha2::Sha256 as sha2::Digest>::digest(bytes))
}

/// A lowercase hexadecimal digit.
pub open spec fn lower_hex(c: char) -> bool {
    ('0' <= c <= '9') || ('a' <= c <= 'f')
}

/// A pin as `sha256 = "..."` must be written: 64 lowercase hexadecimal digits.
pub open spec fn well_formed_pin(pin: Seq<char>) -> bool {
    pin.len() == 64 && forall|i: int| 0 <= i < pin.len() ==> lower_hex(#[trigger] pin[i])
}

/// What pinning an artifact gives: its digest when the pin holds (or there is
/// none and none is required), otherwise the refusal, in the order checked.
pub open spec fn pinned(bytes: Seq<u8>, expected: Option<Seq<char>>, required: bool, label: Seq<char>) -> Result<Seq<char>, Seq<char>> {
    if required && expected is None {
        Err("sha256 is required for "@ + label)
    } else if expected is Some && !well_formed_pin(expected->Some_0) {
        Err("sha256 for "@ + label + " must be 64 lowercase hexadecimal characters"@)
    } else if expected is Some && expected->Some_0 != sha256_hex(bytes) {
        Err("sha256 mismatch for "@ + label)
    } else {
        Ok(sha256_hex(bytes))
    }
}

fn is_pin(pin: &str) -> (r: bool)
    ensures
        r == well_formed_pin(pin@),
{
    let chars = chars_of(pin);
    if chars.len() != 64 {
        return false;
    }
    let mut i: usize = 0;
    while i < chars.len()
        invariant
            i <= chars@.len(),
            chars@ == pin@,
            forall|k: int| 0 <= k < i ==> lower_hex(#[trigger] chars@[k]),
        decreases chars.len() - i,
    {
        let c = chars[i];
        if !(('0' <= c && c <= '9') || ('a' <= c && c <= 'f')) {
            return false;
        }
        i = i + 1;
    }
    true
}

/// The digest of an artifact, checked against its pin: a required pin must
/// be there, a pin must be 64 lowercase hexadecimal digits, and the digest
/// must be the one pinned.
pub fn verified_digest(bytes: &[u8], expected: Option<&str>, required: bool, label: &str) -> (r: Result<String, String>)
    ensures
        match pinned(bytes@, crate::preset::opt_text(expected), required, label@) {
            Ok(d) => r is Ok && r->Ok_0@ == d,
            Err(m) => r is Err && r->Err_0@ == m,
        },
{
    if required && expected.is_none() {
        return Err(crate::text::concat("sha256 is required for ", label));
    }
    if let Some(pin) = expected {
        if !is_pin(pin) {
            let mut message = owned("sha256 for ");
            push_str(&mut message, label);
            push_str(&mut message, " must be 64 lowercase hexadecimal characters");
            return Err(message);
        }
    }
    let actual = digest(bytes);
    if let Some(pin) = expected {
        if !same_text(pin, actual.as_str()) {
            return Err(crate::text::concat("sha256 mismatch for ", label));
        }
    }
    Ok(actual)
}

/// The imports a guest declares, each as its module and its name.
pub open spec fn import_texts(imports: Seq<(String, String)>) -> Seq<(Seq<char>, Seq<char>)> {
    imports.map_values(|i: (String, String)| (i.0@, i.1@))
}

/// Why a compiled guest cannot run, if it cannot. WASI is capability-based
/// here, so a module may import from WASI preview 1 and nothing else: the
/// first import from anywhere else is refused by name. Then it must export a
/// `_start` with no parameters or results (`start_ok`).
pub open spec fn guest_refusal(imports: Seq<(Seq<char>, Seq<char>)>, start_ok: bool, shown: Seq<char>) -> Option<Seq<char>>
    decreases imports.len(),
{
    if imports.len() == 0 {
        if start_ok {
            None
        } else {
            Some("WASM "@ + shown + " must export _start with no parameters or results"@)
        }
    } else if imports[0].0 != "wasi_snapshot_preview1"@ {
        Some("unsupported host import: "@ + imports[0].0 + "."@ + imports[0].1)
    } else {
        guest_refusal(imports.drop_first(), start_ok, shown)
    }
}

/// A compiled guest checked before it is linked: its imports, then its
/// entry point; `shown` names it in the refusal.
pub fn check_guest(imports: &Vec<(String, String)>, start_ok: bool, shown: &str) -> (r: Result<(), String>)
    ensures
        match guest_refusal(import_texts(imports@), start_ok, shown@) {
            Some(m) => r is Err && r->Err_0@ == m,
            None => r is Ok,
        },
{
    proof {
        reveal_strlit("wasi_snapshot_preview1");
    }
    let mut i: usize = 0;
    assert(import_texts(imports@).skip(0) =~= import_texts(imports@));
    while i < imports.len()
        invariant
            i <= imports@.len(),
            guest_refusal(import_texts(imports@), start_ok, shown@)
                == guest_refusal(import_texts(imports@).skip(i as int), start_ok, shown@),
        decreases imports.len() - i,
    {
        let module = imports[i].0.as_str();
        let ghost rest = import_texts(imports@).skip(i as int);
        assert(rest[0] == (imports@[i as int].0@, imports@[i as int].1@));
        if !same_text(module, "wasi_snapshot_preview1") {
            let mut message = owned("unsupported host import: ");
            push_str(&mut message, module);
            push_str(&mut message, ".");
            push_str(&mut message, imports[i].1.as_str());
            return Err(message);
        }
        assert(rest.drop_first() =~= import_texts(imports@).skip(i + 1));
        i = i + 1;
    }
    assert(import_texts(imports@).skip(i as int).len() == 0);
    if !start_ok {
        let mut message = owned("WASM ");
        push_str(&mut message, shown);
        push_str(&mut message, " must export _start with no parameters or results");
        return Err(message);
    }
    Ok(())
}

// ---------------------------------------------------------------------------
// Budgets
// ---------------------------------------------------------------------------

/// What a team has spent, shared by the root run and every delegated one.
pub struct Budget {
    pub max_steps: u32,
    pub max_model_calls: u32,
    pub steps: u32,
    pub model_calls: u32,
    pub tool_calls: u32,
    pub delegations: u32,
    pub verification_calls: u32,
    pub verification_failures: u32,
    pub fuel: u64,
}

impl Budget {
    /// A fresh budget under the root run's limits.
    pub fn for_limits(limits: &Limits) -> (b: Budget)
        ensures
            b.max_steps == limits.max_steps && b.max_model_calls == limits.max_model_calls,
            b.steps == 0 && b.model_calls == 0 && b.tool_calls == 0 && b.delegations == 0,
            b.verification_calls == 0 && b.verification_failures == 0 && b.fuel == 0,
    {
        Budget {
            max_steps: limits.max_steps,
            max_model_calls: limits.max_model_calls,
            steps: 0,
            model_calls: 0,
            tool_calls: 0,
            delegations: 0,
            verification_calls: 0,
            verification_failures: 0,
            fuel: 0,
        }
    }
}

/// A team's budget is kept: its maximums stay, and no counter goes back.
pub open spec fn budget_grows(a: Budget, b: Budget) -> bool {
    &&& b.max_steps == a.max_steps && b.max_model_calls == a.max_model_calls
    &&& a.steps <= b.steps && a.model_calls <= b.model_calls && a.tool_calls <= b.tool_calls
    &&& a.delegations <= b.delegations && a.verification_calls <= b.verification_calls
    &&& a.verification_failures <= b.verification_failures && a.fuel <= b.fuel
}

/// A team's steps and model calls are within its maximums.
pub open spec fn budget_within(b: Budget) -> bool {
    b.steps <= b.max_steps && b.model_calls <= b.max_model_calls
}

/// A run's counters are kept: none goes back, and a finished run stays
/// finished.
pub open spec fn counters_grow(a: Counters, b: Counters) -> bool {
    &&& a.steps <= b.steps && a.model_calls <= b.model_calls && a.tool_calls <= b.tool_calls && a.fuel <= b.fuel
    &&& (a.done ==> b.done)
}

/// A run's steps and model calls are within its own limits.
pub open spec fn counters_within(c: Counters, limits: Limits) -> bool {
    c.steps <= limits.max_steps && c.model_calls <= limits.max_model_calls
}


/// One run's own counters beside the team's.
pub struct Counters {
    pub steps: u32,
    pub model_calls: u32,
    pub tool_calls: u32,
    pub fuel: u64,
    pub done: bool,
}

/// A guest step, admitted or refused: a finished run takes none, and the
/// run's own budget and then the team's must have one left; an admitted
/// step is charged to the team at once.
pub fn admit_step(run: &Counters, limits: &Limits, team: &mut Budget) -> (r: Result<(), String>)
    ensures
        budget_grows(*old(team), *final(team)),
        budget_within(*old(team)) ==> budget_within(*final(team)),
        run.done ==> r is Err && r->Err_0@ == "agent run already completed"@ && *final(team) == *old(team),
        !run.done && run.steps >= limits.max_steps ==> r is Err && r->Err_0@ == "agent step budget exceeded"@ && *final(team) == *old(team),
        !run.done && run.steps < limits.max_steps && old(team).steps >= old(team).max_steps ==> r is Err && r->Err_0@
            == "team step budget exceeded"@ && *final(team) == *old(team),
        !run.done && run.steps < limits.max_steps && old(team).steps < old(team).max_steps ==> r is Ok && final(team).steps == old(team).steps + 1 && *final(team) == (Budget { steps: final(team).steps, ..*old(team) }),
{
    if run.done {
        return Err(owned("agent run already completed"));
    }
    if run.steps >= limits.max_steps {
        return Err(owned("agent step budget exceeded"));
    }
    if team.steps >= team.max_steps {
        return Err(owned("team step budget exceeded"));
    }
    team.steps = team.steps + 1;
    Ok(())
}

/// A check's step during verification, admitted or refused: the run's own
/// step budget, then the team's; an admitted one counts as a step and as a
/// verification call of the team, and as a step of the run.
pub fn admit_check(run: &mut Counters, limits: &Limits, team: &mut Budget) -> (r: Result<(), String>)
    ensures
        budget_grows(*old(team), *final(team)),
        budget_within(*old(team)) ==> budget_within(*final(team)),
        counters_grow(*old(run), *final(run)),
        counters_within(*old(run), *limits) ==> counters_within(*final(run), *limits),
        old(run).steps >= limits.max_steps ==> r is Err && r->Err_0@ == "agent step budget exceeded during verification"@
            && *final(team) == *old(team) && *final(run) == *old(run),
        old(run).steps < limits.max_steps && old(team).steps >= old(team).max_steps ==> r is Err && r->Err_0@
            == "team step budget exceeded during verification"@ && *final(team) == *old(team) && *final(run) == *old(run),
        old(run).steps < limits.max_steps && old(team).steps < old(team).max_steps ==> r is Ok && final(team).steps
            == old(team).steps + 1 && final(team).verification_calls == old(team).verification_calls.saturating_add(1),
        r is Ok ==> final(run).steps == old(run).steps + 1,
{
    if run.steps >= limits.max_steps {
        return Err(owned("agent step budget exceeded during verification"));
    }
    if team.steps >= team.max_steps {
        return Err(owned("team step budget exceeded during verification"));
    }
    team.steps = team.steps + 1;
    team.verification_calls = team.verification_calls.saturating_add(1);
    run.steps = run.steps + 1;
    Ok(())
}

/// Why a model call is refused before it is made, if it is, in order: the
/// run's own model-call budget, the messages (the caller's finding that they
/// are a nonempty list of messages with roles), the request's size in bytes,
/// the team's model-call budget.
pub open spec fn model_call_problem(run: Counters, limits: Limits, messages_ok: bool, body_bytes: nat, team: Budget) -> Option<Seq<char>> {
    if run.model_calls >= limits.max_model_calls {
        Some("model call budget exceeded"@)
    } else if !messages_ok {
        Some("model messages must be a nonempty list of messages with roles"@)
    } else if body_bytes > MAX_MESSAGE {
        Some("model request exceeds 1 MiB"@)
    } else if team.model_calls >= team.max_model_calls {
        Some("team model call budget exceeded"@)
    } else {
        None
    }
}

/// A model call, admitted or refused: charged to the team and the run when
/// admitted.
pub fn admit_model_call(run: &mut Counters, limits: &Limits, messages_ok: bool, body_bytes: usize, team: &mut Budget) -> (r: Result<(), String>)
    ensures
        budget_grows(*old(team), *final(team)),
        budget_within(*old(team)) ==> budget_within(*final(team)),
        counters_grow(*old(run), *final(run)),
        counters_within(*old(run), *limits) ==> counters_within(*final(run), *limits),
        match model_call_problem(*old(run), *limits, messages_ok, body_bytes as nat, *old(team)) {
            Some(m) => r is Err && r->Err_0@ == m && *final(run) == *old(run) && *final(team) == *old(team),
            None => r is Ok && final(team).model_calls == old(team).model_calls + 1 && final(run).model_calls == old(run).model_calls + 1,
        },
{
    if run.model_calls >= limits.max_model_calls {
        return Err(owned("model call budget exceeded"));
    }
    if !messages_ok {
        return Err(owned("model messages must be a nonempty list of messages with roles"));
    }
    if body_bytes as u64 > MAX_MESSAGE {
        return Err(owned("model request exceeds 1 MiB"));
    }
    if team.model_calls >= team.max_model_calls {
        return Err(owned("team model call budget exceeded"));
    }
    team.model_calls = team.model_calls + 1;
    run.model_calls = run.model_calls + 1;
    Ok(())
}

/// What a model's answer is refused for, if anything: a status outside the
/// success range, or a body over the limit.
pub fn check_model_response(status: u16, body_bytes: usize) -> (r: Result<(), String>)
    ensures
        !(200 <= status < 300) ==> r is Err && r->Err_0@ == "model returned HTTP "@ + decimal(status as nat),
        (200 <= status < 300) && body_bytes > MAX_MESSAGE ==> r is Err && r->Err_0@ == "model response exceeds 1 MiB"@,
        (200 <= status < 300) && body_bytes <= MAX_MESSAGE ==> r is Ok,
{
    if !(200 <= status && status < 300) {
        let mut message = owned("model returned HTTP ");
        push_decimal(&mut message, status as u64);
        return Err(message);
    }
    if body_bytes as u64 > MAX_MESSAGE {
        return Err(owned("model response exceeds 1 MiB"));
    }
    Ok(())
}

/// The fuel a guest step took: what it was given less what it left.
pub fn fuel_used(given: u64, left: u64) -> (r: u64)
    requires
        left <= given,
    ensures
        r == given - left,
{
    given - left
}

/// A step's fuel charged to the run and to the team.
pub fn charge_fuel(run: &mut Counters, team: &mut Budget, fuel: u64)
    ensures
        budget_grows(*old(team), *final(team)),
        budget_within(*old(team)) ==> budget_within(*final(team)),
        counters_grow(*old(run), *final(run)),
        final(run).fuel == old(run).fuel.saturating_add(fuel),
        final(team).fuel == old(team).fuel.saturating_add(fuel),
        final(run).steps == old(run).steps && final(run).model_calls == old(run).model_calls,
        final(run).tool_calls == old(run).tool_calls && final(run).done == old(run).done,
        *final(team) == (Budget { fuel: final(team).fuel, ..*old(team) }),
{
    run.fuel = run.fuel.saturating_add(fuel);
    team.fuel = team.fuel.saturating_add(fuel);
}

/// A guest step that ran is counted against its run.
pub fn count_step(run: &mut Counters, limits: &Limits)
    ensures
        final(run).steps == old(run).steps.saturating_add(1),
        *final(run) == (Counters { steps: final(run).steps, ..*old(run) }),
        counters_grow(*old(run), *final(run)),
        old(run).steps < limits.max_steps && counters_within(*old(run), *limits) ==> counters_within(*final(run), *limits),
{
    run.steps = run.steps.saturating_add(1);
}

/// A tool call that ran is counted against its run and the team.
pub fn count_tool_call(run: &mut Counters, team: &mut Budget)
    ensures
        final(run).tool_calls == old(run).tool_calls.saturating_add(1),
        *final(run) == (Counters { tool_calls: final(run).tool_calls, ..*old(run) }),
        final(team).tool_calls == old(team).tool_calls.saturating_add(1),
        *final(team) == (Budget { tool_calls: final(team).tool_calls, ..*old(team) }),
        counters_grow(*old(run), *final(run)),
        budget_grows(*old(team), *final(team)),
        budget_within(*old(team)) ==> budget_within(*final(team)),
{
    run.tool_calls = run.tool_calls.saturating_add(1);
    team.tool_calls = team.tool_calls.saturating_add(1);
}

/// A delegation is counted against the team.
pub fn count_delegation(team: &mut Budget)
    ensures
        final(team).delegations == old(team).delegations.saturating_add(1),
        *final(team) == (Budget { delegations: final(team).delegations, ..*old(team) }),
        budget_grows(*old(team), *final(team)),
        budget_within(*old(team)) ==> budget_within(*final(team)),
{
    team.delegations = team.delegations.saturating_add(1);
}

/// What is left of a deadline of `timeout` after `elapsed`, nothing once it
/// is past.
pub open spec fn left_of(timeout: int, elapsed: int) -> int {
    if elapsed < timeout { timeout - elapsed } else { 0 }
}

/// The time an operation of a run may still take, in nanoseconds: what is
/// left of the team's deadline (the time recorded before a resume and the
/// time since count against it) and of the run's own, whichever is less;
/// none left is a refusal.
pub fn remaining_time(team_timeout: u128, team_prior: u128, team_since: u128, run_timeout: u128, run_since: u128) -> (r: Result<u128, String>)
    ensures
        ({
            let global = left_of(team_timeout as int, team_prior + team_since);
            let local = left_of(run_timeout as int, run_since as int);
            let left = if global < local { global } else { local };
            &&& left == 0 ==> r is Err && r->Err_0@ == "agent deadline exceeded"@
            &&& left > 0 ==> r is Ok && r->Ok_0 == left
        }),
{
    let global: u128 = if team_prior >= team_timeout || team_since >= team_timeout - team_prior {
        0
    } else {
        team_timeout - team_prior - team_since
    };
    let local: u128 = if run_since < run_timeout { run_timeout - run_since } else { 0 };
    let left = if global < local { global } else { local };
    if left == 0 {
        return Err(owned("agent deadline exceeded"));
    }
    Ok(left)
}

/// What a guest asked for in one step.
#[derive(Clone, Copy, PartialEq, Eq, Debug, Structural)]
pub enum GuestAction {
    /// It offers its final output.
    Done,
    /// It gives up, with an error.
    Fail,
    /// It asks the model.
    Model,
    /// It calls a tool.
    Tool,
}

/// Where a step of a run stands.
#[derive(Clone, Copy, PartialEq, Eq, Debug, Structural)]
pub enum TickState {
    /// Waiting for the guest's next action.
    Deciding,
    /// The completion checks run over an offered output.
    Checking,
    /// A tool call is being routed and its arguments checked.
    Routing,
    /// The before-tool checks run over a routed tool call.
    ToolChecking,
}

/// What the host hands back after doing what a move asked.
#[derive(Clone, Copy, PartialEq, Eq, Debug, Structural)]
pub enum TickEvent {
    /// The guest's action.
    Action(GuestAction),
    /// Every check of the pass passed.
    ChecksPassed,
    /// A check of the pass failed.
    ChecksFailed,
    /// The tool call was routed (`true`), or its arguments failed the
    /// tool's declared schema (`false`).
    ToolRouted(bool),
}

/// What the host does next.
#[derive(Clone, Copy, PartialEq, Eq, Debug, Structural)]
pub enum TickMove {
    /// Run the completion checks over the offered output.
    RunChecks,
    /// The run is finished with the offered output.
    Finish,
    /// A completion check failed: the guest is told, and goes on.
    VerificationFailed,
    /// The run fails: the guest gave up, or an event came out of order.
    Failed,
    /// Ask the model.
    CallModel,
    /// Route the tool call and check its arguments.
    RouteTool,
    /// Run the before-tool checks over the routed call.
    RunToolChecks,
    /// The tool call is refused: the guest is told, and goes on.
    RejectTool,
    /// Run the tool.
    CallTool,
}

/// The step machine of a run. An offered output is checked before the run
/// finishes, and only every check passing finishes it; a tool call is routed
/// and its arguments checked, then the before-tool checks run, and only every
/// one of them passing runs the tool. An event the state does not expect
/// fails the run.
pub open spec fn tick_spec(state: TickState, event: TickEvent) -> (TickState, TickMove) {
    match (state, event) {
        (TickState::Deciding, TickEvent::Action(GuestAction::Done)) => (TickState::Checking, TickMove::RunChecks),
        (TickState::Deciding, TickEvent::Action(GuestAction::Fail)) => (TickState::Deciding, TickMove::Failed),
        (TickState::Deciding, TickEvent::Action(GuestAction::Model)) => (TickState::Deciding, TickMove::CallModel),
        (TickState::Deciding, TickEvent::Action(GuestAction::Tool)) => (TickState::Routing, TickMove::RouteTool),
        (TickState::Checking, TickEvent::ChecksPassed) => (TickState::Deciding, TickMove::Finish),
        (TickState::Checking, TickEvent::ChecksFailed) => (TickState::Deciding, TickMove::VerificationFailed),
        (TickState::Routing, TickEvent::ToolRouted(true)) => (TickState::ToolChecking, TickMove::RunToolChecks),
        (TickState::Routing, TickEvent::ToolRouted(false)) => (TickState::Deciding, TickMove::RejectTool),
        (TickState::ToolChecking, TickEvent::ChecksPassed) => (TickState::Deciding, TickMove::CallTool),
        (TickState::ToolChecking, TickEvent::ChecksFailed) => (TickState::Deciding, TickMove::RejectTool),
        _ => (TickState::Deciding, TickMove::Failed),
    }
}

/// One move of a run's step machine; a finishing move marks the run done.
pub fn tick_move(state: TickState, event: TickEvent, run: &mut Counters) -> (r: (TickState, TickMove))
    ensures
        r == tick_spec(state, event),
        r.1 == TickMove::Finish <==> (state == TickState::Checking && event == TickEvent::ChecksPassed),
        r.1 == TickMove::CallTool <==> (state == TickState::ToolChecking && event == TickEvent::ChecksPassed),
        state == TickState::Deciding && event == TickEvent::Action(GuestAction::Done) ==> r == (
            TickState::Checking,
            TickMove::RunChecks,
        ),
        *final(run) == (Counters { done: old(run).done || r.1 == TickMove::Finish, ..*old(run) }),
        counters_grow(*old(run), *final(run)),
{
    let r = match (state, event) {
        (TickState::Deciding, TickEvent::Action(GuestAction::Done)) => (TickState::Checking, TickMove::RunChecks),
        (TickState::Deciding, TickEvent::Action(GuestAction::Fail)) => (TickState::Deciding, TickMove::Failed),
        (TickState::Deciding, TickEvent::Action(GuestAction::Model)) => (TickState::Deciding, TickMove::CallModel),
        (TickState::Deciding, TickEvent::Action(GuestAction::Tool)) => (TickState::Routing, TickMove::RouteTool),
        (TickState::Checking, TickEvent::ChecksPassed) => (TickState::Deciding, TickMove::Finish),
        (TickState::Checking, TickEvent::ChecksFailed) => (TickState::Deciding, TickMove::VerificationFailed),
        (TickState::Routing, TickEvent::ToolRouted(true)) => (TickState::ToolChecking, TickMove::RunToolChecks),
        (TickState::Routing, TickEvent::ToolRouted(false)) => (TickState::Deciding, TickMove::RejectTool),
        (TickState::ToolChecking, TickEvent::ChecksPassed) => (TickState::Deciding, TickMove::CallTool),
        (TickState::ToolChecking, TickEvent::ChecksFailed) => (TickState::Deciding, TickMove::RejectTool),
        _ => (TickState::Deciding, TickMove::Failed),
    };
    if r.1 == TickMove::Finish {
        run.done = true;
    }
    r
}

/// A run driven by `events` from `state`: the state it ends in, and
/// whether it finished (`done` it started with).
pub open spec fn run_ticks(state: TickState, done: bool, events: Seq<TickEvent>) -> (TickState, bool)
    decreases events.len(),
{
    if events.len() == 0 {
        (state, done)
    } else {
        let (s, d) = run_ticks(state, done, events.drop_last());
        let (next, m) = tick_spec(s, events.last());
        (next, d || m == TickMove::Finish)
    }
}

/// After any events, the machine is checking an output only right after
/// the guest offered one.
proof fn lemma_checking_follows_done(state: TickState, done: bool, events: Seq<TickEvent>)
    requires
        state == TickState::Deciding,
    ensures
        run_ticks(state, done, events).0 == TickState::Checking ==> events.len() > 0 && events.last()
            == TickEvent::Action(GuestAction::Done),
        run_ticks(state, done, events).0 == TickState::ToolChecking ==> events.len() > 0 && events.last()
            == TickEvent::ToolRouted(true),
    decreases events.len(),
{
    if events.len() > 0 {
        lemma_checking_follows_done(state, done, events.drop_last());
    }
}

/// Completion checks cannot be bypassed: a run that starts unfinished
/// finishes only where the guest offered an output and every completion
/// check over it then passed, the two events back to back.
pub proof fn law_a_run_finishes_only_after_its_checks_pass(events: Seq<TickEvent>)
    ensures
        run_ticks(TickState::Deciding, false, events).1 ==> exists|i: int|
            1 <= i < events.len() && events[i - 1] == TickEvent::Action(GuestAction::Done) && #[trigger] events[i]
                == TickEvent::ChecksPassed,
    decreases events.len(),
{
    if events.len() > 0 {
        let prefix = events.drop_last();
        law_a_run_finishes_only_after_its_checks_pass(prefix);
        lemma_checking_follows_done(TickState::Deciding, false, prefix);
        let (s, d) = run_ticks(TickState::Deciding, false, prefix);
        if d {
            let i = choose|i: int|
                1 <= i < prefix.len() && prefix[i - 1] == TickEvent::Action(GuestAction::Done) && #[trigger] prefix[i]
                    == TickEvent::ChecksPassed;
            assert(events[i] == prefix[i] && events[i - 1] == prefix[i - 1]);
        } else if tick_spec(s, events.last()).1 == TickMove::Finish {
            let i = events.len() - 1;
            assert(prefix.last() == events[i - 1]);
            assert(events[i] == TickEvent::ChecksPassed);
        }
    }
}

/// Before-tool checks cannot be bypassed: a tool runs only where its call
/// was routed and every before-tool check over it then passed, the two
/// events back to back.
pub proof fn law_a_tool_runs_only_after_its_checks_pass(events: Seq<TickEvent>)
    requires
        events.len() > 0,
        tick_spec(run_ticks(TickState::Deciding, false, events.drop_last()).0, events.last()).1 == TickMove::CallTool,
    ensures
        events.len() >= 2,
        events[events.len() - 2] == TickEvent::ToolRouted(true),
        events.last() == TickEvent::ChecksPassed,
{
    lemma_checking_follows_done(TickState::Deciding, false, events.drop_last());
    assert(events.drop_last().last() == events[events.len() - 2]);
}

/// Budgets are non-negotiable, over any sequence of operations: where each
/// operation on a team's budget keeps it, as every operation on it here
/// (`admit_step`, `admit_check`, `admit_model_call`, `charge_fuel`,
/// `judge_verdict`, `count_tool_call`, `count_delegation`) ensures
/// (`budget_grows`, and `budget_within` kept), and the budget starts within
/// its maximums (as `Budget::for_limits` gives it), every budget along the
/// way is within them, and none has taken back a counter of the first. This
/// holds of the one budget a root run and its delegates share.
pub proof fn law_budgets_hold_over_any_sequence(bs: Seq<Budget>)
    requires
        bs.len() > 0,
        budget_within(bs[0]),
        forall|i: int| 0 <= i < bs.len() - 1 ==> #[trigger] budget_grows(bs[i], bs[i + 1]),
        forall|i: int| 0 <= i < bs.len() - 1 ==> budget_within(#[trigger] bs[i]) ==> budget_within(bs[i + 1]),
    ensures
        forall|i: int| 0 <= i < bs.len() ==> budget_within(#[trigger] bs[i]) && budget_grows(bs[0], bs[i]),
    decreases bs.len(),
{
    if bs.len() > 1 {
        let p = bs.drop_last();
        assert forall|i: int| 0 <= i < p.len() - 1 implies #[trigger] budget_grows(p[i], p[i + 1]) by {
            assert(budget_grows(bs[i], bs[i + 1]));
        }
        assert forall|i: int| 0 <= i < p.len() - 1 implies budget_within(#[trigger] p[i]) ==> budget_within(p[i + 1]) by {
            assert(budget_within(bs[i]) ==> budget_within(bs[i + 1]));
        }
        law_budgets_hold_over_any_sequence(p);
        let n = bs.len() - 1;
        assert(budget_within(p[n - 1]) && budget_grows(bs[0], p[n - 1]));
        assert(budget_grows(bs[n - 1], bs[n]));
        assert(budget_within(bs[n - 1]) ==> budget_within(bs[n]));
        assert forall|i: int| 0 <= i < bs.len() implies budget_within(#[trigger] bs[i]) && budget_grows(bs[0], bs[i]) by {
            if i < n {
                assert(bs[i] == p[i]);
            }
        }
    }
}

/// The same of a run's own counters: where each operation keeps them
/// (`counters_grow`, `counters_within` kept under the run's limits) and they
/// start within the limits, they stay within them and none goes back.
pub proof fn law_run_counters_hold_over_any_sequence(cs: Seq<Counters>, limits: Limits)
    requires
        cs.len() > 0,
        counters_within(cs[0], limits),
        forall|i: int| 0 <= i < cs.len() - 1 ==> #[trigger] counters_grow(cs[i], cs[i + 1]),
        forall|i: int| 0 <= i < cs.len() - 1 ==> counters_within(#[trigger] cs[i], limits) ==> counters_within(cs[i + 1], limits),
    ensures
        forall|i: int| 0 <= i < cs.len() ==> counters_within(#[trigger] cs[i], limits) && counters_grow(cs[0], cs[i]),
    decreases cs.len(),
{
    if cs.len() > 1 {
        let p = cs.drop_last();
        assert forall|i: int| 0 <= i < p.len() - 1 implies #[trigger] counters_grow(p[i], p[i + 1]) by {
            assert(counters_grow(cs[i], cs[i + 1]));
        }
        assert forall|i: int| 0 <= i < p.len() - 1 implies counters_within(#[trigger] p[i], limits) ==> counters_within(p[i + 1], limits) by {
            assert(counters_within(cs[i], limits) ==> counters_within(cs[i + 1], limits));
        }
        law_run_counters_hold_over_any_sequence(p, limits);
        let n = cs.len() - 1;
        assert(counters_within(p[n - 1], limits) && counters_grow(cs[0], p[n - 1]));
        assert(counters_grow(cs[n - 1], cs[n]));
        assert(counters_within(cs[n - 1], limits) ==> counters_within(cs[n], limits));
        assert forall|i: int| 0 <= i < cs.len() implies counters_within(#[trigger] cs[i], limits) && counters_grow(cs[0], cs[i]) by {
            if i < n {
                assert(cs[i] == p[i]);
            }
        }
    }
}

/// What a pass over the checks does next.
#[derive(Clone, Copy, PartialEq, Eq, Debug, Structural)]
pub enum CheckMove {
    /// Run the check at this index.
    Run(usize),
    /// The check at this index failed: its failure is the answer.
    Fail(usize),
    /// Every check passed, some of them from the journal: ask whether the
    /// journal expects them run again live.
    Recheck,
    /// Every check passed.
    Pass,
}

/// The index of the first failed verdict, if any.
pub open spec fn first_failure(verdicts: Seq<bool>) -> Option<int>
    decreases verdicts.len(),
{
    if verdicts.len() == 0 {
        None
    } else {
        match first_failure(verdicts.drop_last()) {
            Some(k) => Some(k),
            None => if verdicts.last() { None } else { Some(verdicts.len() - 1) },
        }
    }
}

/// The next move of a pass over `count` checks whose verdicts so far are
/// `verdicts` (`used_cached`: some came from the journal). The first failure
/// ends the pass and is the answer; until then the checks run in order; a
/// pass succeeds only once every check passed.
pub fn check_move(verdicts: &Vec<bool>, count: usize, used_cached: bool) -> (r: CheckMove)
    requires
        verdicts@.len() <= count,
    ensures
        match first_failure(verdicts@) {
            Some(k) => r == CheckMove::Fail(k as usize),
            None => if verdicts@.len() < count {
                r == CheckMove::Run(verdicts@.len() as usize)
            } else if used_cached {
                r == CheckMove::Recheck
            } else {
                r == CheckMove::Pass
            },
        },
{
    let mut i: usize = 0;
    while i < verdicts.len()
        invariant
            i <= verdicts@.len(),
            first_failure(verdicts@.take(i as int)) is None,
        decreases verdicts.len() - i,
    {
        proof {
            assert(verdicts@.take(i + 1).drop_last() =~= verdicts@.take(i as int));
        }
        if !verdicts[i] {
            proof { lemma_failure_in_prefix(verdicts@, i + 1); }
            return CheckMove::Fail(i);
        }
        i = i + 1;
    }
    proof { assert(verdicts@.take(i as int) =~= verdicts@); }
    if verdicts.len() < count {
        CheckMove::Run(verdicts.len())
    } else if used_cached {
        CheckMove::Recheck
    } else {
        CheckMove::Pass
    }
}

/// A failure among the first `n` verdicts is the first failure of all.
proof fn lemma_failure_in_prefix(verdicts: Seq<bool>, n: int)
    requires
        0 <= n <= verdicts.len(),
        first_failure(verdicts.take(n)) is Some,
    ensures
        first_failure(verdicts) == first_failure(verdicts.take(n)),
    decreases verdicts.len() - n,
{
    if n == verdicts.len() {
        assert(verdicts.take(n) =~= verdicts);
    } else {
        assert(verdicts.take(n + 1).drop_last() =~= verdicts.take(n));
        lemma_failure_in_prefix(verdicts, n + 1);
    }
}

// ---------------------------------------------------------------------------
// A tool call
// ---------------------------------------------------------------------------

/// Where a granted tool call goes.
#[derive(Clone, Copy, PartialEq, Eq, Debug, Structural)]
pub enum Route {
    /// A delegated agent of the team.
    Delegate,
    /// A remote tool reached over MCP.
    Remote,
    /// A local WASM tool.
    Local,
}

/// Where a tool call goes: a delegated agent first, then a remote tool, then
/// a local one; `None` when none of them has the name.
pub open spec fn route_of(name: Seq<char>, delegates: Seq<Seq<char>>, remote: Seq<Seq<char>>, local: Seq<Seq<char>>) -> Option<Route> {
    if delegates.contains(name) {
        Some(Route::Delegate)
    } else if remote.contains(name) {
        Some(Route::Remote)
    } else if local.contains(name) {
        Some(Route::Local)
    } else {
        None
    }
}

/// Where a tool call for `name` goes, or the refusal of a tool not granted.
pub fn route_tool(name: &str, delegates: &Vec<String>, remote: &Vec<String>, local: &Vec<String>) -> (r: Result<Route, String>)
    ensures
        match route_of(name@, texts(delegates@), texts(remote@), texts(local@)) {
            Some(route) => r == Ok::<Route, String>(route),
            None => r is Err && r->Err_0@ == "tool not granted: "@ + name@,
        },
{
    if holds(delegates, name) {
        Ok(Route::Delegate)
    } else if holds(remote, name) {
        Ok(Route::Remote)
    } else if holds(local, name) {
        Ok(Route::Local)
    } else {
        Err(crate::text::concat("tool not granted: ", name))
    }
}

/// How many violations a rejection reports, and how long each may be. The
/// list travels back through the model's context, so it is bounded: the
/// first few mistakes are what a caller needs to fix.
pub const MAX_REPORTED_VIOLATIONS: usize = 5;
pub const MAX_VIOLATION_LENGTH: usize = 200;

/// One violation as the caller reads it: where in the arguments, then what
/// is wrong there; an empty location is the arguments as a whole.
pub open spec fn violation_line(location: Seq<char>, message: Seq<char>) -> Seq<char> {
    (if location.len() == 0 { "arguments"@ } else { location }) + ": "@ + message
}

/// What is wrong with a tool call's arguments, in terms of the schema the
/// caller was given: of the validator's errors, each a location and a
/// message, the first five as `location: message`, each cut to 200 bytes. An
/// empty list means the arguments are valid.
pub fn schema_violations(errors: &Vec<(String, String)>) -> (r: Vec<String>)
    ensures
        r@.len() == if errors@.len() < MAX_REPORTED_VIOLATIONS { errors@.len() } else { MAX_REPORTED_VIOLATIONS as nat },
        forall|i: int| 0 <= i < r@.len() ==> clipped_to(
            violation_line(errors@[i].0@, errors@[i].1@),
            MAX_VIOLATION_LENGTH as nat,
            #[trigger] r@[i]@,
        ),
{
    let mut r: Vec<String> = Vec::new();
    let mut i: usize = 0;
    while i < errors.len() && i < MAX_REPORTED_VIOLATIONS
        invariant
            i <= errors@.len(),
            i <= MAX_REPORTED_VIOLATIONS,
            r@.len() == i,
            forall|k: int| 0 <= k < i ==> clipped_to(
                violation_line(errors@[k].0@, errors@[k].1@),
                MAX_VIOLATION_LENGTH as nat,
                #[trigger] r@[k]@,
            ),
        decreases errors.len() - i,
    {
        let location = errors[i].0.as_str();
        let mut line = if location.unicode_len() == 0 { owned("arguments") } else { owned(location) };
        push_str(&mut line, ": ");
        push_str(&mut line, errors[i].1.as_str());
        proof {
            reveal_strlit("arguments");
            reveal_strlit(": ");
        }
        assert(line@ == violation_line(errors@[i as int].0@, errors@[i as int].1@));
        r.push(clipped(line.as_str(), MAX_VIOLATION_LENGTH));
        i = i + 1;
    }
    r
}

/// What jsonschema reports of `arguments` against `schema`, both JSON text,
/// with the validator built offline and formats asserted: each error's
/// location in the arguments and its message, in the validator's order. None
/// where a text is not JSON or the schema does not build.
pub uninterp spec fn schema_errors(schema: Seq<char>, arguments: Seq<char>) -> Option<Seq<(Seq<char>, Seq<char>)>>;

/// `jsonschema::options().offline().should_validate_formats(true)
/// .should_ignore_unknown_formats(false).build(schema)` and `iter_errors`
/// over `arguments`, each error as its instance path and its message; the
/// texts parsed with `serde_json::from_str`. What the validator reports is
/// jsonschema's; the contract names it.
#[verifier::external_body]
fn validation_errors(schema: &str, arguments: &str) -> (r: Option<Vec<(String, String)>>)
    ensures
        match r {
            None => schema_errors(schema@, arguments@) is None,
            Some(v) => schema_errors(schema@, arguments@) == Some(v@.map_values(|e: (String, String)| (e.0@, e.1@))),
        },
{
    let schema: serde_json::Value = serde_json::from_str(schema).ok()?;
    let arguments: serde_json::Value = serde_json::from_str(arguments).ok()?;
    let options = jsonschema::options().offline().should_validate_formats(true).should_ignore_unknown_formats(false);
    let validator = options.build(&schema).ok()?;
    Some(validator.iter_errors(&arguments).map(|e| (e.instance_path().to_string(), e.to_string())).collect())
}

/// A tool's declared input schema (`is_object`: whether it is a JSON
/// object) must be an object, and must build, offline, before the run starts
/// (a schema that builds reports something, if only nothing, of the JSON
/// `null`).
pub fn check_tool_schema(name: &str, schema: &str, is_object: bool) -> (r: Result<(), String>)
    ensures
        !is_object ==> r is Err && r->Err_0@ == "tool "@ + name@ + " input_schema must be an object"@,
        is_object && schema_errors(schema@, "null"@) is Some ==> r is Ok,
        is_object && schema_errors(schema@, "null"@) is None ==> r is Err && r->Err_0@ == "tool "@ + name@
            + " has an invalid or unresolved input_schema"@,
{
    if !is_object {
        let mut message = owned("tool ");
        push_str(&mut message, name);
        push_str(&mut message, " input_schema must be an object");
        return Err(message);
    }
    match validation_errors(schema, "null") {
        Some(_) => Ok(()),
        None => {
            let mut message = owned("tool ");
            push_str(&mut message, name);
            push_str(&mut message, " has an invalid or unresolved input_schema");
            Err(message)
        },
    }
}

/// What is wrong with a tool call's `arguments` under the tool's declared
/// `schema`, as [`schema_violations`] reports it; none where the validator
/// could not be had.
pub fn tool_arguments_violations(schema: &str, arguments: &str) -> (r: Option<Vec<String>>)
    ensures
        match schema_errors(schema@, arguments@) {
            None => r is None,
            Some(errors) => r is Some && r->Some_0@.len() == (if errors.len() < MAX_REPORTED_VIOLATIONS {
                errors.len()
            } else {
                MAX_REPORTED_VIOLATIONS as nat
            }) && forall|i: int| 0 <= i < r->Some_0@.len() ==> clipped_to(
                violation_line(errors[i].0, errors[i].1),
                MAX_VIOLATION_LENGTH as nat,
                #[trigger] r->Some_0@[i]@,
            ),
        },
{
    match validation_errors(schema, arguments) {
        None => None,
        Some(errors) => {
            let r = schema_violations(&errors);
            proof {
                assert forall|i: int| 0 <= i < r@.len() implies errors@.map_values(|e: (String, String)| (e.0@, e.1@))[i] == (errors@[i].0@, errors@[i].1@) by {}
            }
            Some(r)
        },
    }
}

/// What a guest's tool call comes to before anything of it runs.
#[derive(Clone, Copy, PartialEq, Eq, Debug, Structural)]
pub enum ToolStep {
    /// The arguments fail the tool's declared input schema: the guest is
    /// told so and nothing else happens.
    InvalidArguments,
    /// The call goes ahead, routed here.
    Go(Route),
}

/// A tool call checked in order: its arguments must be an object; arguments
/// that fail the declared schema (`schema_valid` is `None` for a tool that
/// declares none) are answered, not run; a tool no one granted is refused.
pub fn tool_step(
    name: &str,
    arguments_object: bool,
    schema_valid: Option<bool>,
    delegates: &Vec<String>,
    remote: &Vec<String>,
    local: &Vec<String>,
) -> (r: Result<ToolStep, String>)
    ensures
        !arguments_object ==> r is Err && r->Err_0@ == "tool arguments must be an object"@,
        arguments_object && schema_valid == Some(false) ==> r == Ok::<ToolStep, String>(ToolStep::InvalidArguments),
        arguments_object && schema_valid != Some(false) ==> match route_of(
            name@,
            texts(delegates@),
            texts(remote@),
            texts(local@),
        ) {
            Some(route) => r == Ok::<ToolStep, String>(ToolStep::Go(route)),
            None => r is Err && r->Err_0@ == "tool not granted: "@ + name@,
        },
{
    if !arguments_object {
        return Err(owned("tool arguments must be an object"));
    }
    if schema_valid == Some(false) {
        return Ok(ToolStep::InvalidArguments);
    }
    match route_tool(name, delegates, remote, local) {
        Ok(route) => Ok(ToolStep::Go(route)),
        Err(e) => Err(e),
    }
}

/// The record of a run's tool calls kept for its checks stays within half
/// the message limit; `bytes` is its length as JSON.
pub fn check_history(bytes: usize) -> (r: Result<(), String>)
    ensures
        bytes <= MAX_MESSAGE / 2 <==> r is Ok,
        r is Err ==> r->Err_0@ == "verification tool history exceeds 512 KiB"@,
{
    if bytes as u64 > MAX_MESSAGE / 2 {
        return Err(owned("verification tool history exceeds 512 KiB"));
    }
    Ok(())
}

/// A guest that gives up ends its run with its own reason.
pub fn guest_failure(error: &str) -> (r: String)
    ensures
        r@ == "agent failed: "@ + error@,
{
    crate::text::concat("agent failed: ", error)
}

/// A delegation's task, checked: the arguments hold a nonempty string `task`
/// of at most 512 KiB (`task_bytes` long, or `None` when there is no such
/// string), and nothing else (`fields` of them).
pub fn check_delegation(task_bytes: Option<usize>, fields: usize) -> (r: Result<(), String>)
    ensures
        match task_bytes {
            None => r is Err && r->Err_0@ == "delegation requires a nonempty task of at most 512 KiB"@,
            Some(n) => if n == 0 || n > MAX_MESSAGE / 2 {
                r is Err && r->Err_0@ == "delegation requires a nonempty task of at most 512 KiB"@
            } else if fields != 1 {
                r is Err && r->Err_0@ == "delegation accepts only the task field"@
            } else {
                r is Ok
            },
        },
{
    match task_bytes {
        None => Err(owned("delegation requires a nonempty task of at most 512 KiB")),
        Some(n) => {
            if n == 0 || n as u64 > MAX_MESSAGE / 2 {
                Err(owned("delegation requires a nonempty task of at most 512 KiB"))
            } else if fields != 1 {
                Err(owned("delegation accepts only the task field"))
            } else {
                Ok(())
            }
        },
    }
}

/// The outcome of a completion check: success, or a failure whose feedback
/// explains the correction (not blank), counted against the team.
pub fn judge_verdict(passed: bool, feedback: &str, team: &mut Budget) -> (r: Result<bool, String>)
    ensures
        budget_grows(*old(team), *final(team)),
        budget_within(*old(team)) ==> budget_within(*final(team)),
        passed ==> r == Ok::<bool, String>(true) && *final(team) == *old(team),
        !passed && trim(feedback@).len() == 0 ==> r is Err && r->Err_0@
            == "failed completion check must explain what needs correction"@ && *final(team) == *old(team),
        !passed && trim(feedback@).len() > 0 ==> r == Ok::<bool, String>(false) && final(team).verification_failures
            == old(team).verification_failures.saturating_add(1) && *final(team) == (Budget {
            verification_failures: final(team).verification_failures,
            ..*old(team)
        }),
{
    if passed {
        return Ok(true);
    }
    let chars = chars_of(feedback);
    if crate::words::trimmed(chars.as_slice()).len() == 0 {
        return Err(owned("failed completion check must explain what needs correction"));
    }
    team.verification_failures = team.verification_failures.saturating_add(1);
    Ok(false)
}

/// A guest's input, refused when over the limit.
pub fn check_guest_input(bytes: usize, what: &str) -> (r: Result<(), String>)
    ensures
        bytes > MAX_MESSAGE ==> r is Err && r->Err_0@ == what@ + " exceeds 1 MiB"@,
        bytes <= MAX_MESSAGE ==> r is Ok,
{
    if bytes as u64 > MAX_MESSAGE {
        return Err(crate::text::concat(what, " exceeds 1 MiB"));
    }
    Ok(())
}

/// A team's checks of one kind, refused when there are more than 16 or when
/// their names are not unique identifiers.
pub fn check_names(names: &Vec<String>, label: &str) -> (r: Result<(), String>)
    ensures
        names@.len() > 16 ==> r is Err && r->Err_0@ == "at most 16 "@ + label@ + " checks are supported"@,
        names@.len() <= 16 && (forall|i: int| 0 <= i < names@.len() ==> identifier(#[trigger] names@[i]@))
            && (forall|i: int, j: int| 0 <= i < j < names@.len() ==> names@[i]@ != names@[j]@) ==> r is Ok,
        names@.len() <= 16 && !((forall|i: int| 0 <= i < names@.len() ==> identifier(#[trigger] names@[i]@))
            && (forall|i: int, j: int| 0 <= i < j < names@.len() ==> names@[i]@ != names@[j]@)) ==> r is Err
            && r->Err_0@ == label@ + " check names must be unique nonempty ASCII identifiers"@,
{
    if names.len() > 16 {
        let mut message = owned("at most 16 ");
        push_str(&mut message, label);
        push_str(&mut message, " checks are supported");
        return Err(message);
    }
    let mut seen: Vec<String> = Vec::new();
    let mut i: usize = 0;
    while i < names.len()
        invariant
            i <= names@.len(),
            names@.len() <= 16,
            texts(seen@) == texts(names@.take(i as int)),
            forall|k: int| 0 <= k < i ==> identifier(#[trigger] names@[k]@),
            forall|a: int, b: int| 0 <= a < b < i ==> names@[a]@ != names@[b]@,
        decreases names.len() - i,
    {
        let name = names[i].as_str();
        let dup = holds(&seen, name);
        if !is_identifier(name) || dup {
            proof {
                if dup {
                    let k = choose|k: int| 0 <= k < texts(seen@).len() && texts(seen@)[k] == name@;
                    assert(texts(names@.take(i as int))[k] == names@[k]@);
                    assert(names@[k]@ == names@[i as int]@);
                }
            }
            let mut message = owned(label);
            push_str(&mut message, " check names must be unique nonempty ASCII identifiers");
            return Err(message);
        }
        proof {
            assert forall|a: int| 0 <= a < i implies names@[a]@ != names@[i as int]@ by {
                if names@[a]@ == names@[i as int]@ {
                    assert(texts(seen@)[a] == name@);
                }
            }
        }
        let ghost before = seen@;
        seen.push(owned(name));
        assert(texts(seen@) =~= texts(before).push(name@));
        assert(names@.take(i + 1) =~= names@.take(i as int).push(names@[i as int]));
        assert(texts(seen@) =~= texts(names@.take(i + 1)));
        i = i + 1;
    }
    Ok(())
}

} // verus!
