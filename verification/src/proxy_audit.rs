//! What the proxy decided, and how that is recorded: every CONNECT the proxy
//! sees produces exactly one decision, reported on stderr and, when the run
//! asked for a trail, written to the audit file as one JSON line. The clock,
//! stderr and the file are the host's.

use vstd::prelude::*;
use crate::agent::{json_string, serde_quoted};
use crate::text::{decimal, owned, push_decimal, push_str};

verus! {

/// One proxy decision, as it is reported and recorded.
pub struct Decision {
    pub host: String,
    pub port: u16,
    pub verdict: String,
    pub reason: String,
}

/// The decision on `host:port`.
pub fn decision(host: &str, port: u16, verdict: &str, reason: &str) -> (d: Decision)
    ensures
        d.host@ == host@ && d.port == port && d.verdict@ == verdict@ && d.reason@ == reason@,
{
    Decision { host: owned(host), port, verdict: owned(verdict), reason: owned(reason) }
}

/// The line an operator watching the run sees.
pub open spec fn report_text(d: Decision) -> Seq<char> {
    "[porta proxy] "@ + d.verdict@ + " "@ + d.host@ + ":"@ + decimal(d.port as nat) + " ("@ + d.reason@ + ")"@
}

/// The line an operator watching the run sees for this decision.
pub fn report_line(d: &Decision) -> (r: String)
    ensures
        r@ == report_text(*d),
{
    let mut r = owned("[porta proxy] ");
    push_str(&mut r, d.verdict.as_str());
    push_str(&mut r, " ");
    push_str(&mut r, d.host.as_str());
    push_str(&mut r, ":");
    push_decimal(&mut r, d.port as u64);
    push_str(&mut r, " (");
    push_str(&mut r, d.reason.as_str());
    push_str(&mut r, ")");
    r
}

/// The audit line for a decision taken at `ts` seconds past the epoch.
pub open spec fn audit_text(ts: u64, d: Decision) -> Seq<char> {
    "{\"ts\":"@ + decimal(ts as nat) + ",\"host\":"@ + serde_quoted(d.host@) + ",\"port\":"@ + decimal(d.port as nat)
        + ",\"decision\":"@ + serde_quoted(d.verdict@) + ",\"reason\":"@ + serde_quoted(d.reason@) + "}\n"@
}

/// The audit line for a decision taken at `ts` seconds past the epoch, its
/// strings written as serde_json writes them.
pub fn audit_record(ts: u64, d: &Decision) -> (r: String)
    ensures
        r@ == audit_text(ts, *d),
{
    let mut r = owned("{\"ts\":");
    push_decimal(&mut r, ts);
    push_str(&mut r, ",\"host\":");
    push_str(&mut r, json_string(d.host.as_str()).as_str());
    push_str(&mut r, ",\"port\":");
    push_decimal(&mut r, d.port as u64);
    push_str(&mut r, ",\"decision\":");
    push_str(&mut r, json_string(d.verdict.as_str()).as_str());
    push_str(&mut r, ",\"reason\":");
    push_str(&mut r, json_string(d.reason.as_str()).as_str());
    push_str(&mut r, "}\n");
    r
}

} // verus!
