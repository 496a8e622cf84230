//! The journal of an agent run at the broker boundary: a header, then each
//! external operation as an intent and the result that settles it, with
//! checkpoints and a completion. A resumed run is answered from the recorded
//! results and never repeats a completed operation; an intent without a
//! result is an uncertain operation, which is never repeated either.
//!
//! Each record is stored with the hash of the one before it and a hash of
//! its own, which chains the file; the chain is checked here, record by
//! record, and so is the file's size. Reading and writing the file is the
//! host's; what is kept here is what the records add up to, and what the next
//! record must be.

use vstd::prelude::*;
use crate::text::{bytes_of, decimal, owned, push_decimal, push_str, same_text};
use crate::runtime::{digest, sha256_hex};
use crate::agent::{json_string, serde_quoted};
use crate::words::{join, text_less};

verus! {

/// A journal file holds at most 64 MiB.
pub const MAX_JOURNAL: u64 = 67108864;

// ---------------------------------------------------------------------------
// The file: its size and its hash chain
// ---------------------------------------------------------------------------

/// The hash a record carries: the SHA-256, in hexadecimal, of the hash of
/// the record before it (empty for the first), a newline, and the record's
/// payload as JSON text.
pub open spec fn link_hash(previous: Seq<char>, payload: Seq<char>) -> Seq<char> {
    sha256_hex(vstd::utf8::encode_utf8(previous + "\n"@ + payload))
}

/// The hash to store with a new record written after the record whose hash
/// is `previous`.
pub fn link_for(previous: &str, payload_text: &str) -> (r: String)
    ensures
        r@ == link_hash(previous@, payload_text@),
{
    let mut text = owned(previous);
    push_str(&mut text, "\n");
    push_str(&mut text, payload_text);
    proof {
        reveal_strlit("\n");
    }
    let bytes = bytes_of(text.as_str());
    digest(bytes.as_slice())
}

/// One record of a journal read back, checked against the chain: it must
/// name the hash of the record before it (`previous`) and carry the hash of
/// its own payload. The hash the next record must name, or the refusal.
pub fn check_link(previous: &str, record_previous: &str, record_hash: &str, payload_text: &str) -> (r: Result<String, String>)
    ensures
        record_previous@ == previous@ && record_hash@ == link_hash(previous@, payload_text@) ==> r is Ok && r->Ok_0@
            == record_hash@,
        !(record_previous@ == previous@ && record_hash@ == link_hash(previous@, payload_text@)) ==> r is Err
            && r->Err_0@ == "journal hash chain mismatch"@,
{
    let expected = link_for(previous, payload_text);
    if !same_text(record_previous, previous) || !same_text(record_hash, expected.as_str()) {
        return Err(owned("journal hash chain mismatch"));
    }
    Ok(owned(record_hash))
}

/// A journal file of `len` bytes may be read: at most 64 MiB.
pub fn file_fits(len: u64) -> (r: Result<(), String>)
    ensures
        len <= MAX_JOURNAL ==> r is Ok,
        len > MAX_JOURNAL ==> r is Err && r->Err_0@ == "journal exceeds 64 MiB"@,
{
    if len > MAX_JOURNAL {
        return Err(owned("journal exceeds 64 MiB"));
    }
    Ok(())
}

/// What was read of a journal file may be replayed: at most 64 MiB, and
/// ending on a record boundary. A half-written last record cannot be told
/// apart from an uncertain operation, so the whole journal is refused.
pub fn source_fits(len: u64, ends_with_newline: bool) -> (r: Result<(), String>)
    ensures
        len <= MAX_JOURNAL && ends_with_newline ==> r is Ok,
        !(len <= MAX_JOURNAL && ends_with_newline) ==> r is Err
            && r->Err_0@ == "journal is truncated or oversized; refusing to repeat uncertain operations"@,
{
    if len > MAX_JOURNAL || !ends_with_newline {
        return Err(owned("journal is truncated or oversized; refusing to repeat uncertain operations"));
    }
    Ok(())
}

/// A record line of `line_len` bytes may be appended to a journal file of
/// `bytes` bytes: with its newline, the file stays within 64 MiB.
pub fn append_fits(bytes: u64, line_len: u64) -> (r: Result<(), String>)
    ensures
        bytes + line_len + 1 <= MAX_JOURNAL ==> r is Ok,
        bytes + line_len + 1 > MAX_JOURNAL ==> r is Err && r->Err_0@ == "journal exceeds 64 MiB"@,
{
    if bytes > MAX_JOURNAL || line_len > MAX_JOURNAL - bytes || MAX_JOURNAL - bytes - line_len < 1 {
        return Err(owned("journal exceeds 64 MiB"));
    }
    Ok(())
}

/// One completed operation: what was asked, what came back, and the fuel it
/// took.
pub struct Exchange {
    pub request: String,
    pub response: String,
    pub fuel: u64,
}

/// The text of an optional string.
pub open spec fn ov(o: Option<String>) -> Option<Seq<char>> {
    match o {
        Some(s) => Some(s@),
        None => None,
    }
}

/// An exchange as values.
pub open spec fn xv(x: Exchange) -> (Seq<char>, Seq<char>, u64) {
    (x.request@, x.response@, x.fuel)
}

/// Some exchanges as values.
pub open spec fn xvs(xs: Seq<Exchange>) -> Seq<(Seq<char>, Seq<char>, u64)> {
    xs.map_values(|x: Exchange| xv(x))
}

/// One journal record as read back: each field present or not, the JSON
/// values of `request` and `response` as their text.
pub struct Entry {
    pub kind: Option<String>,
    /// The `version` field is the number 1.
    pub version_one: bool,
    pub task: Option<String>,
    pub fingerprint: Option<String>,
    pub index: Option<u64>,
    pub request: Option<String>,
    pub response: Option<String>,
    pub fuel: Option<u64>,
    pub elapsed_ms: Option<u64>,
    pub output: Option<String>,
}

/// A record as values.
pub struct EntryView {
    pub kind: Option<Seq<char>>,
    pub version_one: bool,
    pub task: Option<Seq<char>>,
    pub fingerprint: Option<Seq<char>>,
    pub index: Option<u64>,
    pub request: Option<Seq<char>>,
    pub response: Option<Seq<char>>,
    pub fuel: Option<u64>,
    pub elapsed_ms: Option<u64>,
    pub output: Option<Seq<char>>,
}

impl View for Entry {
    type V = EntryView;

    open spec fn view(&self) -> EntryView {
        EntryView {
            kind: ov(self.kind),
            version_one: self.version_one,
            task: ov(self.task),
            fingerprint: ov(self.fingerprint),
            index: self.index,
            request: ov(self.request),
            response: ov(self.response),
            fuel: self.fuel,
            elapsed_ms: self.elapsed_ms,
            output: ov(self.output),
        }
    }
}

/// What the records read so far add up to.
pub struct ReplayView {
    pub header: bool,
    pub task: Option<Seq<char>>,
    pub fingerprint: Option<Seq<char>>,
    pub exchanges: Seq<(Seq<char>, Seq<char>, u64)>,
    pub pending: Option<Seq<char>>,
    pub complete: Option<Seq<char>>,
    pub elapsed_ms: u64,
    pub last_record: Seq<char>,
}

/// Before any record.
pub open spec fn empty_replay() -> ReplayView {
    ReplayView {
        header: false,
        task: None,
        fingerprint: None,
        exchanges: Seq::empty(),
        pending: None,
        complete: None,
        elapsed_ms: 0,
        last_record: Seq::empty(),
    }
}

/// A settled record's elapsed time, which never goes backwards.
pub open spec fn advanced(s: ReplayView, elapsed: Option<u64>, missing: Seq<char>) -> Result<ReplayView, Seq<char>> {
    match elapsed {
        None => Err(missing),
        Some(t) => if t < s.elapsed_ms {
            Err("journal elapsed time moved backwards"@)
        } else {
            Ok(ReplayView { elapsed_ms: t, ..s })
        },
    }
}

/// One record folded in: nothing may follow a completion, the header comes
/// first, and every other record is an intent, the result that settles it,
/// a checkpoint or the completion.
pub open spec fn step(s0: ReplayView, e: EntryView) -> Result<ReplayView, Seq<char>> {
    let s = ReplayView { last_record: match e.kind { Some(k) => k, None => Seq::empty() }, ..s0 };
    if s.complete is Some {
        Err("journal contains records after completion"@)
    } else if !s.header {
        if e.kind == Some("header"@) && e.version_one {
            Ok(ReplayView { header: true, task: e.task, fingerprint: e.fingerprint, ..s })
        } else {
            Err("unsupported journal header"@)
        }
    } else if e.kind == Some("intent"@) {
        if s.pending is Some || e.index != Some(s.exchanges.len() as u64) {
            Err("invalid journal intent ordering"@)
        } else {
            match e.request {
                None => Err("missing journal request"@),
                Some(request) => Ok(ReplayView { pending: Some(request), ..s }),
            }
        }
    } else if e.kind == Some("result"@) {
        match s.pending {
            None => Err("journal result has no intent"@),
            Some(request) => if e.index != Some(s.exchanges.len() as u64) {
                Err("invalid journal result ordering"@)
            } else {
                match e.fuel {
                    None => Err("invalid recorded fuel"@),
                    Some(fuel) => match advanced(s, e.elapsed_ms, "invalid recorded elapsed time"@) {
                        Err(m) => Err(m),
                        Ok(t) => match e.response {
                            None => Err("missing journal response"@),
                            Some(response) => Ok(
                                ReplayView { pending: None, exchanges: t.exchanges.push((request, response, fuel)), ..t },
                            ),
                        },
                    },
                }
            },
        }
    } else if e.kind == Some("checkpoint"@) {
        if s.pending is Some {
            Err("checkpoint has an uncertain operation"@)
        } else {
            advanced(s, e.elapsed_ms, "invalid checkpoint elapsed time"@)
        }
    } else if e.kind == Some("complete"@) {
        if s.pending is Some {
            Err("journal completed with an uncertain operation"@)
        } else {
            match e.output {
                None => Err("invalid recorded final output"@),
                Some(output) => advanced(ReplayView { complete: Some(output), ..s }, e.elapsed_ms, "invalid completion elapsed time"@),
            }
        }
    } else {
        Err("unknown journal record kind"@)
    }
}

/// The records folded in order, or the first refusal.
pub open spec fn fold(entries: Seq<EntryView>) -> Result<ReplayView, Seq<char>>
    decreases entries.len(),
{
    if entries.len() == 0 {
        Ok(empty_replay())
    } else {
        match fold(entries.drop_last()) {
            Err(m) => Err(m),
            Ok(s) => step(s, entries.last()),
        }
    }
}

/// What the records read back so far add up to, with the records themselves.
pub struct Replay {
    header: bool,
    task: Option<String>,
    fingerprint: Option<String>,
    exchanges: Vec<Exchange>,
    pending: Option<String>,
    complete: Option<String>,
    elapsed_ms: u64,
    last_record: String,
    read: Ghost<Seq<EntryView>>,
}

impl Replay {
    /// The state as values.
    pub closed spec fn state(&self) -> ReplayView {
        ReplayView {
            header: self.header,
            task: ov(self.task),
            fingerprint: ov(self.fingerprint),
            exchanges: xvs(self.exchanges@),
            pending: ov(self.pending),
            complete: ov(self.complete),
            elapsed_ms: self.elapsed_ms,
            last_record: self.last_record@,
        }
    }

    /// The records folded in so far.
    pub closed spec fn records(&self) -> Seq<EntryView> {
        self.read@
    }

    /// The state is what the records folded in add up to.
    pub closed spec fn consistent(&self) -> bool {
        fold(self.read@) == Ok::<ReplayView, Seq<char>>(self.state())
    }

    /// Before any record.
    pub fn new() -> (r: Self)
        ensures
            r.state() == empty_replay(),
            r.records() == Seq::<EntryView>::empty(),
            r.consistent(),
    {
        let r = Replay {
            header: false,
            task: None,
            fingerprint: None,
            exchanges: Vec::new(),
            pending: None,
            complete: None,
            elapsed_ms: 0,
            last_record: String::new(),
            read: Ghost(Seq::empty()),
        };
        assert(xvs(r.exchanges@) =~= Seq::empty());
        r
    }

    fn advance(&mut self, elapsed: Option<u64>, missing: &str) -> (r: Result<(), String>)
        ensures
            match advanced(old(self).state(), elapsed, missing@) {
                Ok(s) => r is Ok && final(self).state() == s,
                Err(m) => r is Err && r->Err_0@ == m,
            },
            final(self).records() == old(self).records(),
    {
        match elapsed {
            None => Err(owned(missing)),
            Some(t) => {
                if t < self.elapsed_ms {
                    Err(owned("journal elapsed time moved backwards"))
                } else {
                    self.elapsed_ms = t;
                    Ok(())
                }
            },
        }
    }

    /// Folds in one record: the state `step` gives, or its refusal. A journal
    /// whose records do not fold is refused whole.
    pub fn apply(&mut self, e: Entry) -> (r: Result<(), String>)
        ensures
            match step(old(self).state(), e@) {
                Ok(s) => r is Ok && final(self).state() == s && final(self).records() == old(self).records().push(e@),
                Err(m) => r is Err && r->Err_0@ == m,
            },
            old(self).consistent() && r is Ok ==> final(self).consistent(),
    {
        let ghost old_read = self.read@;
        let ghost old_state = self.state();
        let ghost ev0 = e@;
        let r = self.apply_record(e);
        proof {
            if r is Ok && fold(old_read) == Ok::<ReplayView, Seq<char>>(old_state) {
                assert(self.read@.drop_last() =~= old_read);
                assert(self.read@.last() == ev0);
                assert(fold(self.read@) == step(old_state, ev0));
            }
        }
        r
    }

    fn apply_record(&mut self, e: Entry) -> (r: Result<(), String>)
        ensures
            match step(old(self).state(), e@) {
                Ok(s) => r is Ok && final(self).state() == s && final(self).records() == old(self).records().push(e@),
                Err(m) => r is Err && r->Err_0@ == m,
            },
    {
        let ghost ev = e@;
        let ghost before = self.state();
        self.last_record = match &e.kind {
            Some(k) => owned(k.as_str()),
            None => String::new(),
        };
        let ghost s = self.state();
        assert(s == ReplayView { last_record: match ev.kind { Some(k) => k, None => Seq::empty() }, ..before });
        if self.complete.is_some() {
            return Err(owned("journal contains records after completion"));
        }
        let kind: &str = match &e.kind {
            Some(k) => k.as_str(),
            None => "",
        };
        let named = e.kind.is_some();
        proof {
            reveal_strlit("");
        }
        if !self.header {
            if named && same_text(kind, "header") && e.version_one {
                self.header = true;
                self.task = e.task;
                self.fingerprint = e.fingerprint;
                self.read = Ghost(self.read@.push(ev));
                return Ok(());
            }
            return Err(owned("unsupported journal header"));
        }
        if named && same_text(kind, "intent") {
            if self.pending.is_some() || e.index != Some(self.exchanges.len() as u64) {
                return Err(owned("invalid journal intent ordering"));
            }
            match e.request {
                None => return Err(owned("missing journal request")),
                Some(request) => {
                    self.pending = Some(request);
                    self.read = Ghost(self.read@.push(ev));
                    return Ok(());
                },
            }
        }
        if named && same_text(kind, "result") {
            let request = match self.pending.take() {
                None => return Err(owned("journal result has no intent")),
                Some(request) => request,
            };
            if e.index != Some(self.exchanges.len() as u64) {
                return Err(owned("invalid journal result ordering"));
            }
            let fuel = match e.fuel {
                None => return Err(owned("invalid recorded fuel")),
                Some(fuel) => fuel,
            };
            let ghost with_request = ReplayView { pending: Some(request@), ..self.state() };
            assert(with_request == s);
            match self.advance(e.elapsed_ms, "invalid recorded elapsed time") {
                Err(m) => return Err(m),
                Ok(()) => {},
            }
            match e.response {
                None => return Err(owned("missing journal response")),
                Some(response) => {
                    let ghost xs = self.exchanges@;
                    self.exchanges.push(Exchange { request, response, fuel });
                    assert(xvs(self.exchanges@) =~= xvs(xs).push(xv(self.exchanges@.last())));
                    self.read = Ghost(self.read@.push(ev));
                    return Ok(());
                },
            }
        }
        if named && same_text(kind, "checkpoint") {
            if self.pending.is_some() {
                return Err(owned("checkpoint has an uncertain operation"));
            }
            let r = self.advance(e.elapsed_ms, "invalid checkpoint elapsed time");
            if r.is_ok() {
                self.read = Ghost(self.read@.push(ev));
            }
            return r;
        }
        if named && same_text(kind, "complete") {
            if self.pending.is_some() {
                return Err(owned("journal completed with an uncertain operation"));
            }
            match e.output {
                None => return Err(owned("invalid recorded final output")),
                Some(output) => {
                    self.complete = Some(output);
                },
            }
            let r = self.advance(e.elapsed_ms, "invalid completion elapsed time");
            if r.is_ok() {
                self.read = Ghost(self.read@.push(ev));
            }
            return r;
        }
        Err(owned("unknown journal record kind"))
    }
}

// ---------------------------------------------------------------------------
// The live journal
// ---------------------------------------------------------------------------

/// The record of an intent: operation `index` is about to ask `request`.
pub open spec fn intent_entry(index: u64, request: Seq<char>) -> EntryView {
    EntryView {
        kind: Some("intent"@),
        version_one: false,
        task: None,
        fingerprint: None,
        index: Some(index),
        request: Some(request),
        response: None,
        fuel: None,
        elapsed_ms: None,
        output: None,
    }
}

/// The record of a result: operation `index` answered `response`.
pub open spec fn result_entry(index: u64, response: Seq<char>, fuel: u64, elapsed_ms: u64) -> EntryView {
    EntryView {
        kind: Some("result"@),
        version_one: false,
        task: None,
        fingerprint: None,
        index: Some(index),
        request: None,
        response: Some(response),
        fuel: Some(fuel),
        elapsed_ms: Some(elapsed_ms),
        output: None,
    }
}

/// The record of a checkpoint.
pub open spec fn checkpoint_entry(elapsed_ms: u64) -> EntryView {
    EntryView {
        kind: Some("checkpoint"@),
        version_one: false,
        task: None,
        fingerprint: None,
        index: None,
        request: None,
        response: None,
        fuel: None,
        elapsed_ms: Some(elapsed_ms),
        output: None,
    }
}

/// The record of a completion.
pub open spec fn complete_entry(output: Seq<char>, elapsed_ms: u64) -> EntryView {
    EntryView {
        kind: Some("complete"@),
        version_one: false,
        task: None,
        fingerprint: None,
        index: None,
        request: None,
        response: None,
        fuel: None,
        elapsed_ms: Some(elapsed_ms),
        output: Some(output),
    }
}

/// The header record of a new journal.
pub open spec fn header_entry(fingerprint: Seq<char>, task: Seq<char>) -> EntryView {
    EntryView {
        kind: Some("header"@),
        version_one: true,
        task: Some(task),
        fingerprint: Some(fingerprint),
        index: None,
        request: None,
        response: None,
        fuel: None,
        elapsed_ms: None,
        output: None,
    }
}

fn entry(kind: &str) -> (e: Entry)
    ensures
        e@.kind == Some(kind@),
        !e@.version_one,
        e@.task is None && e@.fingerprint is None && e@.index is None && e@.request is None,
        e@.response is None && e@.fuel is None && e@.elapsed_ms is None && e@.output is None,
{
    Entry {
        kind: Some(owned(kind)),
        version_one: false,
        task: None,
        fingerprint: None,
        index: None,
        request: None,
        response: None,
        fuel: None,
        elapsed_ms: None,
        output: None,
    }
}

/// The state once an intent is written.
pub open spec fn after_intent(s: ReplayView, request: Option<Seq<char>>) -> ReplayView {
    ReplayView { pending: request, last_record: "intent"@, ..s }
}

/// The state once a result is written.
pub open spec fn after_result(s: ReplayView, e: EntryView) -> ReplayView {
    ReplayView {
        exchanges: s.exchanges.push((s.pending->Some_0, e.response->Some_0, e.fuel->Some_0)),
        pending: None,
        elapsed_ms: e.elapsed_ms->Some_0,
        last_record: "result"@,
        ..s
    }
}

/// The state once a checkpoint is written.
pub open spec fn after_checkpoint(s: ReplayView, e: EntryView) -> ReplayView {
    ReplayView { elapsed_ms: e.elapsed_ms->Some_0, last_record: "checkpoint"@, ..s }
}

/// The state once a completion is written.
pub open spec fn after_complete(s: ReplayView, e: EntryView) -> ReplayView {
    ReplayView { complete: e.output, last_record: "complete"@, ..s }
}

/// What `cached` answers in a journal not waiting on an operation, at
/// `position`, for `request`.
pub open spec fn cached_answer(s: ReplayView, position: nat, replay_only: bool, request: Seq<char>, r: Result<Option<(String, u64)>, String>) -> bool {
    if position < s.exchanges.len() {
        let x = s.exchanges[position as int];
        if x.0 == request {
            r is Ok && r->Ok_0 is Some && r->Ok_0->Some_0.0@ == x.1 && r->Ok_0->Some_0.1 == x.2
        } else {
            r is Err && r->Err_0@ == "agent replay diverged at operation "@ + decimal(position)
        }
    } else if replay_only || s.complete is Some {
        r is Err && r->Err_0@ == "agent replay requested an unrecorded operation"@
    } else {
        r == Ok::<Option<(String, u64)>, String>(None)
    }
}

/// How far `cached` moves the cursor.
pub open spec fn cached_moves(s: ReplayView, position: nat, request: Seq<char>) -> nat {
    if s.pending is None && position < s.exchanges.len() && s.exchanges[position as int].0 == request {
        position + 1
    } else {
        position
    }
}

/// What `finish` answers in a journal at `position`.
pub open spec fn finish_answer(s: ReplayView, position: nat, replay_only: bool, output: Seq<char>, elapsed_ms: u64, r: Result<Option<Entry>, String>) -> bool {
    if s.pending is Some || position != s.exchanges.len() {
        r is Err && r->Err_0@ == "agent replay ended before consuming the recorded operations"@
    } else {
        match s.complete {
            Some(expected) => if expected == output {
                r == Ok::<Option<Entry>, String>(None)
            } else {
                r is Err && r->Err_0@ == "agent replay final output diverged"@
            },
            None => if replay_only {
                r is Err && r->Err_0@ == "replay is read-only"@
            } else {
                r is Ok && r->Ok_0 is Some && r->Ok_0->Some_0@ == complete_entry(output, elapsed_ms)
            },
        }
    }
}

/// Folding one more record is one more step.
pub proof fn lemma_fold_push(w: Seq<EntryView>, e: EntryView)
    ensures
        fold(w.push(e)) == match fold(w) {
            Err(m) => Err(m),
            Ok(s) => step(s, e),
        },
{
    assert(w.push(e).drop_last() =~= w);
}

proof fn lemma_kinds()
    ensures
        "header"@ != "intent"@,
        "header"@ != "result"@,
        "header"@ != "checkpoint"@,
        "header"@ != "complete"@,
        "intent"@ != "result"@,
        "intent"@ != "checkpoint"@,
        "intent"@ != "complete"@,
        "result"@ != "checkpoint"@,
        "result"@ != "complete"@,
        "checkpoint"@ != "complete"@,
{
    reveal_strlit("header");
    reveal_strlit("intent");
    reveal_strlit("result");
    reveal_strlit("checkpoint");
    reveal_strlit("complete");
    assert("header"@[0] != "intent"@[0]);
    assert("header"@[0] != "result"@[0]);
    assert("header"@[0] != "checkpoint"@[0]);
    assert("header"@[0] != "complete"@[0]);
    assert("intent"@[0] != "result"@[0]);
    assert("intent"@[0] != "checkpoint"@[0]);
    assert("intent"@[0] != "complete"@[0]);
    assert("result"@[0] != "checkpoint"@[0]);
    assert("result"@[0] != "complete"@[0]);
    assert("checkpoint"@.len() != "complete"@.len());
}

/// What `begin` answers: the recorded result of an operation already done,
/// or the intent record to write before doing it.
pub enum Begun {
    Recorded { response: String, fuel: u64 },
    Write { intent: Entry },
}

/// What `begin` answers in a journal not waiting on an operation, at
/// `position`, for `request`: the recorded result of the same request, the
/// refusal of a different one (a resumed run never does a recorded operation
/// again, nor a new one in its place), no new operation in a replay or after
/// completion, and otherwise the intent to write.
pub open spec fn begin_answer(s: ReplayView, position: nat, replay_only: bool, request: Seq<char>, r: Result<Begun, String>) -> bool {
    if position < s.exchanges.len() {
        let x = s.exchanges[position as int];
        if x.0 == request {
            r is Ok && r->Ok_0 is Recorded && r->Ok_0->response@ == x.1 && r->Ok_0->fuel == x.2
        } else {
            r is Err && r->Err_0@ == "agent replay diverged at operation "@ + decimal(position)
        }
    } else if replay_only || s.complete is Some {
        r is Err && r->Err_0@ == "agent replay requested an unrecorded operation"@
    } else {
        r is Ok && r->Ok_0 is Write && r->Ok_0->intent@ == intent_entry(position as u64, request)
    }
}

/// What the metadata report reads of a recorded request: its `kind` and
/// `actor`, and the `name` of the request it wraps, each where it is a string.
pub uninterp spec fn request_labels(request: Seq<char>) -> (Option<Seq<char>>, Option<Seq<char>>, Option<Seq<char>>);

/// `serde_json::from_str::<serde_json::Value>` of a recorded request, reduced
/// to its `kind` and `actor` strings and the string at `/request/name` (each
/// none where the field is missing or not a string, all none where the text is
/// not JSON). What the parse makes of a text is serde_json's; the contract
/// names it.
#[verifier::external_body]
fn labels_of(request: &str) -> (r: (Option<String>, Option<String>, Option<String>))
    ensures
        (ov(r.0), ov(r.1), ov(r.2)) == request_labels(request@),
{
    match serde_json::from_str::<serde_json::Value>(request) {
        Ok(value) => (
            value.get("kind").and_then(serde_json::Value::as_str).map(str::to_string),
            value.get("actor").and_then(serde_json::Value::as_str).map(str::to_string),
            value.pointer("/request/name").and_then(serde_json::Value::as_str).map(str::to_string),
        ),
        Err(_) => (None, None, None),
    }
}

/// A label, or `unknown` where there is none.
pub open spec fn or_unknown(label: Option<Seq<char>>) -> Seq<char> {
    match label {
        Some(l) => l,
        None => "unknown"@,
    }
}

/// One more `label` counted in a tally kept in key order.
pub open spec fn tally_insert(t: Seq<(Seq<char>, nat)>, label: Seq<char>) -> Seq<(Seq<char>, nat)>
    decreases t.len(),
{
    if t.len() == 0 {
        seq![(label, 1nat)]
    } else if t[0].0 == label {
        t.update(0, (label, t[0].1 + 1))
    } else if text_less(label, t[0].0) {
        seq![(label, 1nat)] + t
    } else {
        seq![t[0]] + tally_insert(t.drop_first(), label)
    }
}

/// How often each label occurs, in key order.
pub open spec fn tally(labels: Seq<Seq<char>>) -> Seq<(Seq<char>, nat)>
    decreases labels.len(),
{
    if labels.len() == 0 {
        Seq::empty()
    } else {
        tally_insert(tally(labels.drop_last()), labels.last())
    }
}

/// The kind of each recorded operation.
pub open spec fn kinds_of(xs: Seq<(Seq<char>, Seq<char>, u64)>) -> Seq<Seq<char>> {
    xs.map_values(|x: (Seq<char>, Seq<char>, u64)| or_unknown(request_labels(x.0).0))
}

/// The actor of each recorded operation.
pub open spec fn actors_of(xs: Seq<(Seq<char>, Seq<char>, u64)>) -> Seq<Seq<char>> {
    xs.map_values(|x: (Seq<char>, Seq<char>, u64)| or_unknown(request_labels(x.0).1))
}

/// A tally as a JSON object.
pub open spec fn tally_text(t: Seq<(Seq<char>, nat)>) -> Seq<char> {
    "{"@ + join(t.map_values(|e: (Seq<char>, nat)| serde_quoted(e.0) + ":"@ + decimal(e.1)), ","@) + "}"@
}

/// An optional string as JSON.
pub open spec fn opt_json(o: Option<Seq<char>>) -> Seq<char> {
    match o {
        Some(t) => serde_quoted(t),
        None => "null"@,
    }
}

/// The operation whose outcome is uncertain, as JSON, or `null`.
pub open spec fn pending_text(s: ReplayView) -> Seq<char> {
    match s.pending {
        None => "null"@,
        Some(request) => {
            let l = request_labels(request);
            "{\"actor\":"@ + opt_json(l.1) + ",\"index\":"@ + decimal(s.exchanges.len()) + ",\"kind\":"@ + opt_json(l.0)
                + ",\"name\":"@ + opt_json(l.2) + "}"@
        },
    }
}

/// The state of a stopped journal as one word.
pub open spec fn status_word(s: ReplayView) -> Seq<char> {
    if s.complete is Some {
        "complete"@
    } else if s.pending is Some {
        "uncertain"@
    } else if s.last_record == "checkpoint"@ {
        "checkpoint"@
    } else {
        "incomplete"@
    }
}

/// The read-only metadata of a journal file of `bytes` bytes, its chain
/// checked and no code loaded: its status, fingerprint, size, the elapsed
/// time recorded, the completed operations counted by kind and by actor (in
/// key order, `unknown` where a request names none), and the operation whose
/// outcome is uncertain. Keys are in the order serde_json writes them.
pub open spec fn report_text(s: ReplayView, bytes: u64) -> Seq<char> {
    "{\"bytes\":"@ + decimal(bytes as nat) + ",\"completed_operations\":"@ + decimal(s.exchanges.len())
        + ",\"fingerprint\":"@ + opt_json(s.fingerprint) + ",\"hash_chain_verified\":true,\"operations_by_actor\":"@
        + tally_text(tally(actors_of(s.exchanges))) + ",\"operations_by_kind\":"@ + tally_text(tally(kinds_of(s.exchanges)))
        + ",\"pending_operation\":"@ + pending_text(s) + ",\"recorded_elapsed_ms\":"@ + decimal(s.elapsed_ms as nat)
        + ",\"replay_verified\":false,\"status\":\""@ + status_word(s) + "\"}"@
}

/// A tally inserted into past its first `i` entries, none of which is the
/// label or comes after it.
proof fn lemma_tally_skip(t: Seq<(Seq<char>, nat)>, label: Seq<char>, i: int)
    requires
        0 <= i <= t.len(),
        forall|k: int| 0 <= k < i ==> t[k].0 != label && !text_less(label, #[trigger] t[k].0),
    ensures
        tally_insert(t, label) == t.take(i) + tally_insert(t.skip(i), label),
    decreases i,
{
    if i > 0 {
        lemma_tally_skip(t.drop_first(), label, i - 1);
        assert(t.drop_first().take(i - 1) =~= t.take(i).drop_first());
        assert(t.drop_first().skip(i - 1) =~= t.skip(i));
        assert(t.take(i) =~= seq![t[0]] + t.take(i).drop_first());
    } else {
        assert(t.take(0) =~= Seq::<(Seq<char>, nat)>::empty());
        assert(t.skip(0) =~= t);
    }
}

/// One more label counted raises no count past one more than before.
proof fn lemma_insert_bound(t: Seq<(Seq<char>, nat)>, label: Seq<char>, n: nat)
    requires
        forall|k: int| 0 <= k < t.len() ==> #[trigger] t[k].1 <= n,
    ensures
        forall|k: int| 0 <= k < tally_insert(t, label).len() ==> #[trigger] tally_insert(t, label)[k].1 <= n + 1,
    decreases t.len(),
{
    if t.len() > 0 && t[0].0 != label && !text_less(label, t[0].0) {
        lemma_insert_bound(t.drop_first(), label, n);
        let r = tally_insert(t, label);
        assert forall|k: int| 0 <= k < r.len() implies #[trigger] r[k].1 <= n + 1 by {
            if k > 0 {
                assert(r[k] == tally_insert(t.drop_first(), label)[k - 1]);
            }
        }
    }
}

/// The labels of a tally kept as owned text.
pub open spec fn tally_view(t: Seq<(String, usize)>) -> Seq<(Seq<char>, nat)> {
    t.map_values(|e: (String, usize)| (e.0@, e.1 as nat))
}

/// Counts one more `label` in a tally kept in key order.
fn count_label(t: &mut Vec<(String, usize)>, label: String, bound: Ghost<nat>)
    requires
        forall|k: int| 0 <= k < old(t)@.len() ==> #[trigger] old(t)@[k].1 < bound@,
        bound@ <= usize::MAX,
    ensures
        tally_view(final(t)@) == tally_insert(tally_view(old(t)@), label@),
{
    let ghost t0 = tally_view(t@);
    let chars = crate::text::chars_of(label.as_str());
    let mut i: usize = 0;
    while i < t.len()
        invariant
            i <= t@.len(),
            tally_view(t@) == t0,
            t0 == tally_view(old(t)@),
            chars@ == label@,
            forall|k: int| 0 <= k < t@.len() ==> #[trigger] t@[k].1 < bound@,
            bound@ <= usize::MAX,
            forall|k: int| 0 <= k < i ==> t0[k].0 != label@ && !text_less(label@, #[trigger] t0[k].0),
        decreases t.len() - i,
    {
        assert(t0[i as int] == (t@[i as int].0@, t@[i as int].1 as nat));
        if same_text(t[i].0.as_str(), label.as_str()) {
            proof { lemma_tally_skip(t0, label@, i as int); }
            let n = t[i].1 + 1;
            let ghost before = t@;
            t.set(i, (label, n));
            proof {
                let rest = t0.skip(i as int);
                assert(rest[0] == t0[i as int]);
                assert(rest.len() > 0 && rest[0].0 == label@);
                assert(tally_insert(rest, label@) == rest.update(0, (label@, rest[0].1 + 1)));
                assert(tally_view(t@) =~= t0.take(i as int) + rest.update(0, (label@, t0[i as int].1 + 1)));
            }
            return;
        }
        let key = crate::text::chars_of(t[i].0.as_str());
        if crate::words::less_text(chars.as_slice(), key.as_slice()) {
            proof { lemma_tally_skip(t0, label@, i as int); }
            let ghost lv = label@;
            t.insert(i, (label, 1));
            proof {
                let rest = t0.skip(i as int);
                assert(rest[0] == t0[i as int]);
                assert(rest.len() > 0 && rest[0].0 != lv && text_less(lv, rest[0].0));
                assert(tally_insert(rest, lv) == seq![(lv, 1nat)] + rest);
                assert(tally_view(t@) =~= t0.take(i as int) + (seq![(lv, 1nat)] + rest));
            }
            return;
        }
        i = i + 1;
    }
    proof { lemma_tally_skip(t0, label@, i as int); }
    let ghost lv = label@;
    t.push((label, 1));
    proof {
        assert(t0.skip(i as int) =~= Seq::<(Seq<char>, nat)>::empty());
        assert(tally_view(t@) =~= t0.take(i as int) + seq![(lv, 1nat)]);
    }
}

/// An optional string written as JSON.
fn push_opt_json(out: &mut String, o: &Option<String>)
    ensures
        final(out)@ == old(out)@ + opt_json(ov(*o)),
{
    match o {
        Some(t) => {
            let q = json_string(t.as_str());
            push_str(out, q.as_str());
        },
        None => {
            push_str(out, "null");
            proof { reveal_strlit("null"); }
        },
    }
}

/// A tally written as a JSON object.
fn push_tally(out: &mut String, t: &Vec<(String, usize)>)
    ensures
        final(out)@ == old(out)@ + tally_text(tally_view(t@)),
{
    let mut pieces: Vec<String> = Vec::new();
    let mut k: usize = 0;
    while k < t.len()
        invariant
            k <= t@.len(),
            crate::words::texts(pieces@) == tally_view(t@).take(k as int).map_values(
                |e: (Seq<char>, nat)| serde_quoted(e.0) + ":"@ + decimal(e.1),
            ),
        decreases t.len() - k,
    {
        let mut piece = json_string(t[k].0.as_str());
        push_str(&mut piece, ":");
        push_decimal(&mut piece, t[k].1 as u64);
        let ghost before = pieces@;
        pieces.push(piece);
        proof {
            reveal_strlit(":");
            assert(tally_view(t@)[k as int] == (t@[k as int].0@, t@[k as int].1 as nat));
            assert(tally_view(t@).take(k + 1) =~= tally_view(t@).take(k as int).push(tally_view(t@)[k as int]));
            assert(crate::words::texts(pieces@) =~= crate::words::texts(before).push(pieces@[k as int]@));
            assert(crate::words::texts(pieces@) =~= tally_view(t@).take(k + 1).map_values(
                |e: (Seq<char>, nat)| serde_quoted(e.0) + ":"@ + decimal(e.1),
            ));
        }
        k = k + 1;
    }
    assert(tally_view(t@).take(t@.len() as int) =~= tally_view(t@));
    push_str(out, "{");
    let joined = crate::words::join_texts(pieces.as_slice(), ",");
    push_str(out, joined.as_str());
    push_str(out, "}");
    proof {
        reveal_strlit("{");
        reveal_strlit(",");
        reveal_strlit("}");
    }
}

/// The recorded operations counted by kind and by actor, in key order.
fn tallies(exchanges: &Vec<Exchange>) -> (r: (Vec<(String, usize)>, Vec<(String, usize)>))
    ensures
        tally_view(r.0@) == tally(kinds_of(xvs(exchanges@))),
        tally_view(r.1@) == tally(actors_of(xvs(exchanges@))),
{
    let ghost xs = xvs(exchanges@);
    let mut kinds: Vec<(String, usize)> = Vec::new();
    let mut actors: Vec<(String, usize)> = Vec::new();
    let mut i: usize = 0;
    while i < exchanges.len()
        invariant
            i <= exchanges@.len(),
            xs == xvs(exchanges@),
            tally_view(kinds@) == tally(kinds_of(xs).take(i as int)),
            tally_view(actors@) == tally(actors_of(xs).take(i as int)),
            forall|k: int| 0 <= k < kinds@.len() ==> #[trigger] kinds@[k].1 <= i,
            forall|k: int| 0 <= k < actors@.len() ==> #[trigger] actors@[k].1 <= i,
        decreases exchanges.len() - i,
    {
        let (kind, actor, _) = labels_of(exchanges[i].request.as_str());
        let kind = match kind {
            Some(k) => k,
            None => owned("unknown"),
        };
        let actor = match actor {
            Some(a) => a,
            None => owned("unknown"),
        };
        proof {
            reveal_strlit("unknown");
            assert(xs[i as int] == xv(exchanges@[i as int]));
            assert(kinds_of(xs)[i as int] == kind@);
            assert(actors_of(xs)[i as int] == actor@);
            assert(kinds_of(xs).take(i + 1).drop_last() =~= kinds_of(xs).take(i as int));
            assert(actors_of(xs).take(i + 1).drop_last() =~= actors_of(xs).take(i as int));
            lemma_insert_bound(tally_view(kinds@), kind@, i as nat);
            lemma_insert_bound(tally_view(actors@), actor@, i as nat);
            assert forall|k: int| 0 <= k < tally_view(kinds@).len() implies #[trigger] tally_view(kinds@)[k].1 <= i by {
                assert(tally_view(kinds@)[k] == (kinds@[k].0@, kinds@[k].1 as nat));
            }
            assert forall|k: int| 0 <= k < tally_view(actors@).len() implies #[trigger] tally_view(actors@)[k].1 <= i by {
                assert(tally_view(actors@)[k] == (actors@[k].0@, actors@[k].1 as nat));
            }
        }
        let ghost kv = tally_view(kinds@);
        let ghost av = tally_view(actors@);
        let ghost kl = kind@;
        let ghost al = actor@;
        count_label(&mut kinds, kind, Ghost((i + 1) as nat));
        count_label(&mut actors, actor, Ghost((i + 1) as nat));
        proof {
            assert forall|k: int| 0 <= k < kinds@.len() implies #[trigger] kinds@[k].1 <= i + 1 by {
                assert(tally_view(kinds@)[k] == (kinds@[k].0@, kinds@[k].1 as nat));
                assert(tally_insert(kv, kl)[k].1 <= i + 1);
            }
            assert forall|k: int| 0 <= k < actors@.len() implies #[trigger] actors@[k].1 <= i + 1 by {
                assert(tally_view(actors@)[k] == (actors@[k].0@, actors@[k].1 as nat));
                assert(tally_insert(av, al)[k].1 <= i + 1);
            }
        }
        i = i + 1;
    }
    assert(kinds_of(xs).take(i as int) =~= kinds_of(xs));
    assert(actors_of(xs).take(i as int) =~= actors_of(xs));
    (kinds, actors)
}

/// The journal of a live or resumed run.
pub struct Journal {
    replay_only: bool,
    task: String,
    fingerprint: String,
    exchanges: Vec<Exchange>,
    cursor: usize,
    pending: Option<String>,
    complete: Option<String>,
    elapsed_ms: u64,
    last_record: String,
    written: Ghost<Seq<EntryView>>,
}

/// Two states agree: everything equal, the elapsed time too unless the run
/// is complete (a completion records its time without the journal keeping it).
pub open spec fn agree(a: ReplayView, b: ReplayView) -> bool {
    &&& a.header == b.header && a.task == b.task && a.fingerprint == b.fingerprint
    &&& a.exchanges == b.exchanges && a.pending == b.pending && a.complete == b.complete
    &&& a.last_record == b.last_record
    &&& (a.complete is None ==> a.elapsed_ms == b.elapsed_ms)
}

impl Journal {
    /// The state as values.
    pub closed spec fn state(&self) -> ReplayView {
        ReplayView {
            header: true,
            task: Some(self.task@),
            fingerprint: Some(self.fingerprint@),
            exchanges: xvs(self.exchanges@),
            pending: ov(self.pending),
            complete: ov(self.complete),
            elapsed_ms: self.elapsed_ms,
            last_record: self.last_record@,
        }
    }

    /// A replay of a completed run: nothing may be written.
    pub closed spec fn read_only(&self) -> bool {
        self.replay_only
    }

    /// Whether this journal only replays a completed run.
    pub fn is_replay_only(&self) -> (r: bool)
        ensures
            r == self.read_only(),
    {
        self.replay_only
    }

    /// The task the run was started with.
    pub fn task(&self) -> (r: &String)
        ensures
            self.state().task == Some(r@),
    {
        &self.task
    }

    /// The fingerprint of the configuration the run was started with.
    pub fn fingerprint(&self) -> (r: &String)
        ensures
            self.state().fingerprint == Some(r@),
    {
        &self.fingerprint
    }

    /// The elapsed time the last settled record holds (a resumed run's clock
    /// goes on from it).
    pub fn elapsed(&self) -> (r: u64)
        ensures
            r == self.state().elapsed_ms,
    {
        self.elapsed_ms
    }

    /// The records this journal holds, written or read back.
    pub closed spec fn records(&self) -> Seq<EntryView> {
        self.written@
    }

    /// How many recorded operations have been answered from the journal or
    /// done live.
    pub closed spec fn position(&self) -> nat {
        self.cursor as nat
    }

    /// The cursor is within the recorded operations, and at their end while
    /// one is pending.
    pub closed spec fn wf(&self) -> bool {
        &&& self.cursor <= self.exchanges@.len()
        &&& (self.pending is Some && !self.replay_only) ==> self.cursor == self.exchanges@.len()
    }

    /// The records read back give this journal's state.
    pub closed spec fn consistent(&self) -> bool {
        fold(self.written@) matches Ok(s) && agree(s, self.state())
    }

    /// A new journal: its header record (to write first), and the journal.
    pub fn create(fingerprint: &str, task: &str) -> (r: (Journal, Entry))
        ensures
            r.0.wf(),
            r.0.consistent(),
            r.1@ == header_entry(fingerprint@, task@),
            r.0.records() == seq![r.1@],
            r.0.state().exchanges.len() == 0,
            r.0.state().pending is None && r.0.state().complete is None,
            r.0.position() == 0,
            !r.0.read_only(),
    {
        let mut header = entry("header");
        header.version_one = true;
        header.task = Some(owned(task));
        header.fingerprint = Some(owned(fingerprint));
        let ghost hv = header@;
        let ghost first: Seq<EntryView> = seq![hv];
        let journal = Journal {
            replay_only: false,
            task: owned(task),
            fingerprint: owned(fingerprint),
            exchanges: Vec::new(),
            cursor: 0,
            pending: None,
            complete: None,
            elapsed_ms: 0,
            last_record: owned("header"),
            written: Ghost(first),
        };
        proof {
            reveal_strlit("header");
            lemma_fold_push(Seq::<EntryView>::empty(), hv);
            assert(Seq::<EntryView>::empty().push(hv) == first);
            assert(xvs(journal.exchanges@) =~= Seq::empty());
        }
        (journal, header)
    }

    /// The journal the records read back add up to, or why it is refused: an
    /// operation whose outcome is uncertain is never repeated, and a replay
    /// needs a completed run. `inspection` only reads it.
    pub fn load(replay: Replay, replay_only: bool, inspection: bool) -> (r: Result<Journal, String>)
        requires
            replay.consistent(),
            inspection ==> replay_only,
        ensures
            match r {
                Ok(j) => {
                    &&& j.wf() && j.consistent() && j.position() == 0
                    &&& j.records() == replay.records()
                    &&& j.state() == replay.state()
                    &&& j.read_only() == replay_only
                    &&& (replay.state().pending is Some ==> inspection)
                    &&& (replay_only && !inspection ==> replay.state().complete is Some)
                },
                Err(m) => {
                    ||| replay.state().pending is Some && !inspection
                        && m@ == "journal has an intent without a result; operation outcome is uncertain and will not be repeated"@
                    ||| !replay.state().header && m@ == "empty journal"@
                    ||| replay.state().task is None && m@ == "missing journal task"@
                    ||| replay.state().fingerprint is None && m@ == "missing journal fingerprint"@
                    ||| replay_only && !inspection && replay.state().complete is None
                        && m@ == "replay requires a completed journal; use agent-resume for a checkpoint"@
                },
            },
    {
        let Replay { header, task, fingerprint, exchanges, pending, complete, elapsed_ms, last_record, read } = replay;
        if pending.is_some() && !inspection {
            return Err(owned(
                "journal has an intent without a result; operation outcome is uncertain and will not be repeated",
            ));
        }
        if !header {
            return Err(owned("empty journal"));
        }
        let task = match task {
            None => return Err(owned("missing journal task")),
            Some(t) => t,
        };
        let fingerprint = match fingerprint {
            None => return Err(owned("missing journal fingerprint")),
            Some(f) => f,
        };
        if replay_only && !inspection && complete.is_none() {
            return Err(owned("replay requires a completed journal; use agent-resume for a checkpoint"));
        }
        let ghost count = exchanges@.len();
        let journal = Journal {
            replay_only,
            task,
            fingerprint,
            exchanges,
            cursor: 0,
            pending,
            complete,
            elapsed_ms,
            last_record,
            written: read,
        };
        Ok(journal)
    }

    /// The recorded result of the next operation, when it was done before:
    /// the same request is answered from the journal and the cursor moves
    /// on; a different one means the replay diverged. Past the recorded
    /// operations, a replay or a completed run may ask for nothing new.
    pub fn cached(&mut self, request: &str) -> (r: Result<Option<(String, u64)>, String>)
        requires
            old(self).wf(),
        ensures
            final(self).wf(),
            final(self).state() == old(self).state(),
            final(self).records() == old(self).records(),
            final(self).read_only() == old(self).read_only(),
            old(self).consistent() ==> final(self).consistent(),
            old(self).state().pending is Some ==> r is Err && r->Err_0@ == "journal operation is already pending"@,
            old(self).state().pending is None ==> cached_answer(old(self).state(), old(self).position(), old(self).read_only(), request@, r),
            final(self).position() == cached_moves(old(self).state(), old(self).position(), request@),
    {
        if self.pending.is_some() {
            return Err(owned("journal operation is already pending"));
        }
        if self.cursor < self.exchanges.len() {
            let x = &self.exchanges[self.cursor];
            assert(xvs(self.exchanges@)[self.cursor as int] == xv(*x));
            if !same_text(x.request.as_str(), request) {
                let mut message = owned("agent replay diverged at operation ");
                push_decimal(&mut message, self.cursor as u64);
                return Err(message);
            }
            let answer = (owned(x.response.as_str()), x.fuel);
            self.cursor = self.cursor + 1;
            return Ok(Some(answer));
        }
        if self.replay_only || self.complete.is_some() {
            return Err(owned("agent replay requested an unrecorded operation"));
        }
        Ok(None)
    }

    /// An operation about to be done: its recorded result when it was done
    /// before (nothing is written and nothing is done again), or the intent
    /// to write before doing it.
    pub fn begin(&mut self, request: &str) -> (r: Result<Begun, String>)
        requires
            old(self).wf(),
        ensures
            final(self).wf(),
            final(self).state() == old(self).state(),
            final(self).records() == old(self).records(),
            final(self).read_only() == old(self).read_only(),
            old(self).consistent() ==> final(self).consistent(),
            final(self).position() == cached_moves(old(self).state(), old(self).position(), request@),
            old(self).state().pending is Some ==> r is Err && r->Err_0@ == "journal operation is already pending"@,
            old(self).state().pending is None ==> begin_answer(old(self).state(), old(self).position(), old(self).read_only(), request@, r),
            (r is Ok && r->Ok_0 is Write) ==> (final(self).position() == final(self).state().exchanges.len()
                && final(self).state().pending is None && final(self).state().complete is None && !final(self).read_only()),
    {
        match self.cached(request) {
            Err(m) => Err(m),
            Ok(Some((response, fuel))) => Ok(Begun::Recorded { response, fuel }),
            Ok(None) => {
                let mut intent = entry("intent");
                intent.index = Some(self.cursor as u64);
                intent.request = Some(owned(request));
                Ok(Begun::Write { intent })
            },
        }
    }

    /// The intent `begin` asked for has been written: the operation is now
    /// pending.
    pub fn intent_written(&mut self, intent: Entry)
        requires
            old(self).wf(),
            !old(self).read_only(),
            old(self).state().pending is None,
            old(self).state().complete is None,
            old(self).position() == old(self).state().exchanges.len(),
            intent@.kind == Some("intent"@),
            intent@.index == Some(old(self).position() as u64),
            intent@.request is Some,
        ensures
            final(self).wf(),
            final(self).state() == after_intent(old(self).state(), intent@.request),
            final(self).records() == old(self).records().push(intent@),
            final(self).position() == old(self).position(),
            final(self).read_only() == old(self).read_only(),
            old(self).consistent() ==> final(self).consistent(),
    {
        let ghost before = self.written@;
        let ghost s0 = self.state();
        let ghost ev = intent@;
        self.pending = intent.request;
        self.last_record = owned("intent");
        self.written = Ghost(self.written@.push(ev));
        proof {
            lemma_fold_push(before, ev);
            lemma_kinds();
            assert(self.written@ == before.push(ev));
        }
    }

    /// The record that settles the pending operation with `response`, or
    /// why there is none to settle.
    pub fn commit(&self, response: &str, fuel: u64, elapsed_ms: u64) -> (r: Result<Entry, String>)
        requires
            self.wf(),
        ensures
            self.state().pending is None ==> r is Err && r->Err_0@ == "journal result has no pending operation"@,
            self.state().pending is Some && self.read_only() ==> r is Err && r->Err_0@ == "replay is read-only"@,
            self.state().pending is Some && !self.read_only() ==> r is Ok && r->Ok_0@ == result_entry(
                self.position() as u64,
                response@,
                fuel,
                elapsed_ms,
            ),
    {
        if self.pending.is_none() {
            return Err(owned("journal result has no pending operation"));
        }
        if self.replay_only {
            return Err(owned("replay is read-only"));
        }
        let mut e = entry("result");
        e.index = Some(self.cursor as u64);
        e.response = Some(owned(response));
        e.fuel = Some(fuel);
        e.elapsed_ms = Some(elapsed_ms);
        Ok(e)
    }

    /// The result `commit` gave has been written: the operation is done, its
    /// exchange recorded, the cursor past it.
    pub fn result_written(&mut self, result: Entry)
        requires
            old(self).wf(),
            !old(self).read_only(),
            old(self).state().pending is Some,
            result@.kind == Some("result"@),
            result@.index == Some(old(self).position() as u64),
            result@.response is Some,
            result@.fuel is Some,
            result@.elapsed_ms is Some,
        ensures
            final(self).wf(),
            final(self).state() == after_result(old(self).state(), result@),
            final(self).records() == old(self).records().push(result@),
            final(self).position() == old(self).position() + 1,
            final(self).read_only() == old(self).read_only(),
            old(self).consistent() && old(self).state().complete is None && result@.elapsed_ms->Some_0 >= old(self).state().elapsed_ms ==> final(self).consistent(),
    {
        let ghost before = self.written@;
        let ghost s0 = self.state();
        let ghost ev = result@;
        let Entry { response, fuel, elapsed_ms, .. } = result;
        let request = match self.pending.take() {
            Some(r) => r,
            None => String::new(),
        };
        let response = match response {
            Some(r) => r,
            None => String::new(),
        };
        let fuel = match fuel {
            Some(f) => f,
            None => 0,
        };
        let elapsed = match elapsed_ms {
            Some(t) => t,
            None => 0,
        };
        let ghost xs = self.exchanges@;
        assert(self.cursor <= xs.len());
        self.exchanges.push(Exchange { request, response, fuel });
        assert(xvs(self.exchanges@) =~= xvs(xs).push(xv(self.exchanges@.last())));
        assert(self.cursor == xs.len());
        self.cursor = self.exchanges.len();
        self.elapsed_ms = elapsed;
        self.last_record = owned("result");
        self.written = Ghost(self.written@.push(ev));
        proof {
            lemma_fold_push(before, ev);
            lemma_kinds();
            assert(self.written@ == before.push(ev));
        }
    }

    /// The record of a checkpoint at `elapsed_ms`, or why none may be made.
    pub fn checkpoint(&self, elapsed_ms: u64) -> (r: Result<Entry, String>)
        ensures
            (self.state().pending is Some || self.state().complete is Some) ==> r is Err && r->Err_0@
                == "cannot checkpoint a pending or completed journal"@,
            !(self.state().pending is Some || self.state().complete is Some) && self.read_only() ==> r is Err
                && r->Err_0@ == "replay is read-only"@,
            !(self.state().pending is Some || self.state().complete is Some) && !self.read_only() ==> r is Ok
                && r->Ok_0@ == checkpoint_entry(elapsed_ms),
    {
        if self.pending.is_some() || self.complete.is_some() {
            return Err(owned("cannot checkpoint a pending or completed journal"));
        }
        if self.replay_only {
            return Err(owned("replay is read-only"));
        }
        let mut e = entry("checkpoint");
        e.elapsed_ms = Some(elapsed_ms);
        Ok(e)
    }

    /// The checkpoint has been written.
    pub fn checkpoint_written(&mut self, checkpoint: Entry)
        requires
            old(self).wf(),
            !old(self).read_only(),
            old(self).state().pending is None,
            old(self).state().complete is None,
            checkpoint@.kind == Some("checkpoint"@),
            checkpoint@.elapsed_ms is Some,
        ensures
            final(self).wf(),
            final(self).state() == after_checkpoint(old(self).state(), checkpoint@),
            final(self).records() == old(self).records().push(checkpoint@),
            final(self).position() == old(self).position(),
            final(self).read_only() == old(self).read_only(),
            old(self).consistent() && checkpoint@.elapsed_ms->Some_0 >= old(self).state().elapsed_ms ==> final(self).consistent(),
    {
        let ghost before = self.written@;
        let ghost ev = checkpoint@;
        self.elapsed_ms = match checkpoint.elapsed_ms {
            Some(t) => t,
            None => 0,
        };
        self.last_record = owned("checkpoint");
        self.written = Ghost(self.written@.push(ev));
        proof {
            lemma_fold_push(before, ev);
            lemma_kinds();
            assert(self.written@ == before.push(ev));
        }
    }

    /// The end of a run with `output`: the completion record to write; or,
    /// for a run that already completed, nothing when the output is the one
    /// recorded; or why the run may not end here.
    pub fn finish(&self, output: &str, elapsed_ms: u64) -> (r: Result<Option<Entry>, String>)
        requires
            self.wf(),
        ensures
            finish_answer(self.state(), self.position(), self.read_only(), output@, elapsed_ms, r),
    {
        if self.pending.is_some() || self.cursor != self.exchanges.len() {
            return Err(owned("agent replay ended before consuming the recorded operations"));
        }
        match &self.complete {
            Some(expected) => {
                if same_text(expected.as_str(), output) {
                    Ok(None)
                } else {
                    Err(owned("agent replay final output diverged"))
                }
            },
            None => {
                if self.replay_only {
                    return Err(owned("replay is read-only"));
                }
                let mut e = entry("complete");
                e.output = Some(owned(output));
                e.elapsed_ms = Some(elapsed_ms);
                Ok(Some(e))
            },
        }
    }

    /// The completion has been written: the run is complete with its output.
    pub fn finish_written(&mut self, completion: Entry)
        requires
            old(self).wf(),
            !old(self).read_only(),
            old(self).state().pending is None,
            old(self).state().complete is None,
            completion@.kind == Some("complete"@),
            completion@.output is Some,
            completion@.elapsed_ms is Some,
        ensures
            final(self).wf(),
            final(self).state() == after_complete(old(self).state(), completion@),
            final(self).records() == old(self).records().push(completion@),
            final(self).position() == old(self).position(),
            final(self).read_only() == old(self).read_only(),
            old(self).consistent() && completion@.elapsed_ms->Some_0 >= old(self).state().elapsed_ms ==> final(self).consistent(),
    {
        let ghost before = self.written@;
        let ghost ev = completion@;
        self.complete = completion.output;
        self.last_record = owned("complete");
        self.written = Ghost(self.written@.push(ev));
        proof {
            lemma_fold_push(before, ev);
            lemma_kinds();
            assert(self.written@ == before.push(ev));
        }
    }

    /// The next recorded operation is `request`.
    pub fn next_matches(&self, request: &str) -> (r: bool)
        requires
            self.wf(),
        ensures
            r == (self.position() < self.state().exchanges.len() && self.state().exchanges[self.position() as int].0
                == request@),
    {
        if self.cursor < self.exchanges.len() {
            assert(xvs(self.exchanges@)[self.cursor as int] == xv(self.exchanges@[self.cursor as int]));
            same_text(self.exchanges[self.cursor].request.as_str(), request)
        } else {
            false
        }
    }

    /// The run is past its recorded operations and goes on live.
    pub fn continuing_live(&self) -> (r: bool)
        ensures
            r == (!self.read_only() && self.state().complete is None && self.position()
                == self.state().exchanges.len()),
    {
        !self.replay_only && self.complete.is_none() && self.cursor == self.exchanges.len()
    }

    /// How many operations the journal has recorded.
    pub fn completed_operations(&self) -> (r: usize)
        ensures
            r == self.state().exchanges.len(),
    {
        self.exchanges.len()
    }

    /// The read-only metadata report of this journal, read back from a file
    /// of `bytes` bytes with its chain checked and no code loaded.
    #[verifier::spinoff_prover]
    #[verifier::rlimit(40)]
    pub fn report(&self, bytes: u64) -> (r: String)
        ensures
            r@ == report_text(self.state(), bytes),
    {
        let (kinds, actors) = tallies(&self.exchanges);
        let mut r = owned("{\"bytes\":");
        push_decimal(&mut r, bytes);
        push_str(&mut r, ",\"completed_operations\":");
        push_decimal(&mut r, self.exchanges.len() as u64);
        push_str(&mut r, ",\"fingerprint\":");
        let fingerprint = json_string(self.fingerprint.as_str());
        push_str(&mut r, fingerprint.as_str());
        push_str(&mut r, ",\"hash_chain_verified\":true,\"operations_by_actor\":");
        push_tally(&mut r, &actors);
        push_str(&mut r, ",\"operations_by_kind\":");
        push_tally(&mut r, &kinds);
        push_str(&mut r, ",\"pending_operation\":");
        match &self.pending {
            None => {
                push_str(&mut r, "null");
            },
            Some(request) => {
                let (kind, actor, name) = labels_of(request.as_str());
                push_str(&mut r, "{\"actor\":");
                push_opt_json(&mut r, &actor);
                push_str(&mut r, ",\"index\":");
                push_decimal(&mut r, self.exchanges.len() as u64);
                push_str(&mut r, ",\"kind\":");
                push_opt_json(&mut r, &kind);
                push_str(&mut r, ",\"name\":");
                push_opt_json(&mut r, &name);
                push_str(&mut r, "}");
            },
        }
        push_str(&mut r, ",\"recorded_elapsed_ms\":");
        push_decimal(&mut r, self.elapsed_ms);
        push_str(&mut r, ",\"replay_verified\":false,\"status\":\"");
        push_str(&mut r, self.status());
        push_str(&mut r, "\"}");
        proof {
            reveal_strlit("{\"bytes\":");
            reveal_strlit(",\"completed_operations\":");
            reveal_strlit(",\"fingerprint\":");
            reveal_strlit(",\"hash_chain_verified\":true,\"operations_by_actor\":");
            reveal_strlit(",\"operations_by_kind\":");
            reveal_strlit(",\"pending_operation\":");
            reveal_strlit("null");
            reveal_strlit("{\"actor\":");
            reveal_strlit(",\"index\":");
            reveal_strlit(",\"kind\":");
            reveal_strlit(",\"name\":");
            reveal_strlit("}");
            reveal_strlit(",\"recorded_elapsed_ms\":");
            reveal_strlit(",\"replay_verified\":false,\"status\":\"");
            reveal_strlit("\"}");
        }
        r
    }

    /// The state of a stopped journal, for inspection: complete, uncertain (an
    /// intent without a result), stopped at a checkpoint, or incomplete.
    pub fn status(&self) -> (r: &'static str)
        ensures
            r@ == if self.state().complete is Some {
                "complete"@
            } else if self.state().pending is Some {
                "uncertain"@
            } else if self.state().last_record == "checkpoint"@ {
                "checkpoint"@
            } else {
                "incomplete"@
            },
    {
        if self.complete.is_some() {
            "complete"
        } else if self.pending.is_some() {
            "uncertain"
        } else if same_text(self.last_record.as_str(), "checkpoint") {
            "checkpoint"
        } else {
            "incomplete"
        }
    }
}

// ---------------------------------------------------------------------------
// Laws
// ---------------------------------------------------------------------------

/// What a journal has written reads back as that journal: a replay of its
/// records agrees with its state (the elapsed time aside once complete).
pub proof fn law_written_records_read_back(j: &Journal, r: &Replay)
    requires
        j.consistent(),
        r.consistent(),
        r.records() == j.records(),
    ensures
        agree(r.state(), j.state()),
{
}

/// Nothing may follow a completion.
pub proof fn law_nothing_follows_completion(s: ReplayView, e: EntryView)
    requires
        s.complete is Some,
    ensures
        step(s, e) is Err,
{
}

/// The recorded elapsed time never goes backwards.
pub proof fn law_elapsed_never_goes_backwards(s: ReplayView, e: EntryView)
    requires
        step(s, e) is Ok,
    ensures
        step(s, e)->Ok_0.elapsed_ms >= s.elapsed_ms,
{
}

/// A record never takes back a completed operation: the exchanges stay as
/// they were, or one more is added at their end.
pub proof fn law_completed_operations_are_kept(s: ReplayView, e: EntryView)
    requires
        step(s, e) is Ok,
    ensures
        step(s, e)->Ok_0.exchanges == s.exchanges || (exists|x: (Seq<char>, Seq<char>, u64)|
            step(s, e)->Ok_0.exchanges == #[trigger] s.exchanges.push(x)),
{
    let t = step(s, e)->Ok_0;
    if t.exchanges != s.exchanges {
        let x = t.exchanges.last();
        assert(t.exchanges == s.exchanges.push(x));
    }
}

/// A result settles exactly the pending intent: after it, nothing is
/// pending and the newest exchange holds that intent's request.
pub proof fn law_a_result_settles_its_intent(s: ReplayView, e: EntryView)
    requires
        step(s, e) is Ok,
        e.kind == Some("result"@),
        s.header,
    ensures
        s.pending is Some,
        step(s, e)->Ok_0.pending is None,
        step(s, e)->Ok_0.exchanges == s.exchanges.push((s.pending->Some_0, e.response->Some_0, e.fuel->Some_0)),
{
    lemma_kinds();
}

} // verus!
