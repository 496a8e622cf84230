//! The registry of live agent runs behind the host's entry points: a run is
//! registered under a fresh handle when it opens, found again by that handle
//! for each step or checkpoint, and gone once closed. Every entry point
//! answers with JSON and never lets an error escape.

use vstd::prelude::*;
use crate::text::{decimal, hex_digit, hex_char, owned, push_char, push_decimal, push_str};

verus! {

// ---------------------------------------------------------------------------
// JSON strings as serde_json writes them
// ---------------------------------------------------------------------------

/// One character as `serde_json` writes it inside a string: `"` and `\`
/// escaped, the five short control escapes, any other control character as
/// `\u00XX` in lowercase hex, everything else as it is.
pub open spec fn serde_escape_char(c: char) -> Seq<char> {
    let u = c as u32;
    if c == '"' {
        seq!['\\', '"']
    } else if c == '\\' {
        seq!['\\', '\\']
    } else if u == 8 {
        seq!['\\', 'b']
    } else if c == '\t' {
        seq!['\\', 't']
    } else if c == '\n' {
        seq!['\\', 'n']
    } else if u == 12 {
        seq!['\\', 'f']
    } else if c == '\r' {
        seq!['\\', 'r']
    } else if u < 32 {
        seq!['\\', 'u', '0', '0', hex_digit((u / 16) as nat), hex_digit((u % 16) as nat)]
    } else {
        seq![c]
    }
}

/// A string as `serde_json` writes it: quoted, each character escaped.
pub open spec fn serde_quoted(s: Seq<char>) -> Seq<char> {
    seq!['"'] + crate::text::flat_map(s, |c: char| serde_escape_char(c)) + seq!['"']
}

/// Appends one character as `serde_json` writes it inside a string.
fn push_serde_char(out: &mut String, c: char)
    ensures
        final(out)@ == old(out)@ + serde_escape_char(c),
{
    let u = c as u32;
    if c == '"' {
        push_char(out, '\\');
        push_char(out, '"');
    } else if c == '\\' {
        push_char(out, '\\');
        push_char(out, '\\');
    } else if u == 8 {
        push_char(out, '\\');
        push_char(out, 'b');
    } else if c == '\t' {
        push_char(out, '\\');
        push_char(out, 't');
    } else if c == '\n' {
        push_char(out, '\\');
        push_char(out, 'n');
    } else if u == 12 {
        push_char(out, '\\');
        push_char(out, 'f');
    } else if c == '\r' {
        push_char(out, '\\');
        push_char(out, 'r');
    } else if u < 32 {
        push_char(out, '\\');
        push_char(out, 'u');
        push_char(out, '0');
        push_char(out, '0');
        push_char(out, hex_char(u / 16));
        push_char(out, hex_char(u % 16));
    } else {
        push_char(out, c);
    }
    assert(final(out)@ =~= old(out)@ + serde_escape_char(c));
}

/// A string written as `serde_json::to_string` writes one: quoted, each
/// character escaped as `serde_escape_char` says (the escapes of its compact
/// formatter).
pub fn json_string(s: &str) -> (r: String)
    ensures
        r@ == serde_quoted(s@),
{
    let chars = crate::text::chars_of(s);
    let mut r = String::new();
    push_char(&mut r, '"');
    let ghost start = r@;
    let mut i: usize = 0;
    while i < chars.len()
        invariant
            i <= chars@.len(),
            chars@ == s@,
            start == seq!['"'],
            r@ == start + crate::text::flat_map(chars@.take(i as int), |c: char| serde_escape_char(c)),
        decreases chars.len() - i,
    {
        proof { crate::text::lemma_flat_map_step(chars@, |c: char| serde_escape_char(c), i as int); }
        let ghost before = r@;
        push_serde_char(&mut r, chars[i]);
        assert(r@ =~= start + crate::text::flat_map(chars@.take(i + 1), |c: char| serde_escape_char(c)));
        i = i + 1;
    }
    assert(chars@.take(chars@.len() as int) =~= s@);
    push_char(&mut r, '"');
    assert(r@ =~= serde_quoted(s@));
    r
}

/// The answer of an entry point that failed: `{"error":"…"}`.
pub open spec fn fail_text(message: Seq<char>) -> Seq<char> {
    "{\"error\":"@ + serde_quoted(message) + "}"@
}

/// The answer of an entry point that failed.
pub fn fail(message: &str) -> (r: String)
    ensures
        r@ == fail_text(message@),
{
    let mut t = owned("{\"error\":");
    push_str(&mut t, json_string(message).as_str());
    push_str(&mut t, "}");
    t
}

// ---------------------------------------------------------------------------
// The registry
// ---------------------------------------------------------------------------

/// One registered run: its handle, the run, and whether it keeps a journal.
pub struct Entry<R> {
    pub handle: u64,
    pub run: R,
    pub journaled: bool,
}

/// The live runs, each under its handle, and the next handle to give out.
pub struct Runs<R> {
    next: u64,
    entries: Vec<Entry<R>>,
    /// Whether the handle counter has gone all the way round.
    wrapped: Ghost<bool>,
}

/// The handles of some entries.
pub open spec fn handles<R>(s: Seq<Entry<R>>) -> Seq<u64> {
    s.map_values(|e: Entry<R>| e.handle)
}

/// Whether each live handle keeps a journal.
pub open spec fn journal_map<R>(s: Seq<Entry<R>>) -> Map<u64, bool>
    decreases s.len(),
{
    if s.len() == 0 {
        Map::empty()
    } else {
        journal_map(s.drop_last()).insert(s.last().handle, s.last().journaled)
    }
}

proof fn lemma_journal_map_domain<R>(s: Seq<Entry<R>>, k: u64)
    ensures
        journal_map(s).contains_key(k) <==> exists|i: int| 0 <= i < s.len() && s[i].handle == k,
    decreases s.len(),
{
    if s.len() > 0 {
        lemma_journal_map_domain(s.drop_last(), k);
        if exists|i: int| 0 <= i < s.len() && s[i].handle == k {
            let i = choose|i: int| 0 <= i < s.len() && s[i].handle == k;
            if i < s.len() - 1 {
                assert(s.drop_last()[i].handle == k);
            }
        }
        if exists|i: int| 0 <= i < s.len() - 1 && s.drop_last()[i].handle == k {
            let i = choose|i: int| 0 <= i < s.len() - 1 && s.drop_last()[i].handle == k;
            assert(s[i].handle == k);
        }
    }
}

proof fn lemma_journal_map_at<R>(s: Seq<Entry<R>>, i: int)
    requires
        0 <= i < s.len(),
        forall|a: int, b: int| 0 <= a < b < s.len() ==> s[a].handle != s[b].handle,
    ensures
        journal_map(s).contains_key(s[i].handle),
        journal_map(s)[s[i].handle] == s[i].journaled,
    decreases s.len(),
{
    if i < s.len() - 1 {
        lemma_journal_map_at(s.drop_last(), i);
        assert(s[i].handle != s.last().handle);
    }
}

proof fn lemma_journal_map_remove<R>(s: Seq<Entry<R>>, i: int)
    requires
        0 <= i < s.len(),
        forall|a: int, b: int| 0 <= a < b < s.len() ==> s[a].handle != s[b].handle,
    ensures
        journal_map(s.remove(i)) == journal_map(s).remove(s[i].handle),
    decreases s.len(),
{
    if i == s.len() - 1 {
        assert(s.remove(i) =~= s.drop_last());
        assert forall|k: u64| journal_map(s.drop_last()).contains_key(k) implies k != s[i].handle by {
            lemma_journal_map_domain(s.drop_last(), k);
            let j = choose|j: int| 0 <= j < s.len() - 1 && s.drop_last()[j].handle == k;
            assert(s[j].handle == k);
        }
        assert(journal_map(s.drop_last()) =~= journal_map(s).remove(s[i].handle));
    } else {
        lemma_journal_map_remove(s.drop_last(), i);
        assert(s.remove(i).drop_last() =~= s.drop_last().remove(i));
        assert(s.remove(i).last() == s.last());
        assert(s[i].handle != s.last().handle);
        assert(journal_map(s.remove(i)) =~= journal_map(s).remove(s[i].handle));
    }
}

impl<R> Runs<R> {
    /// Every handle is registered once.
    pub closed spec fn wf(&self) -> bool {
        &&& forall|a: int, b: int| 0 <= a < b < self.entries@.len() ==> self.entries@[a].handle != self.entries@[b].handle
        &&& !self.wrapped@ ==> self.next != 0 && forall|i: int| 0 <= i < self.entries@.len() ==> 0 < #[trigger] self.entries@[i].handle < self.next
    }

    /// The handle counter has not gone all the way round (which takes 2^64
    /// registrations): every handle handed out is new.
    pub closed spec fn fresh(&self) -> bool {
        !self.wrapped@
    }

    /// The live handles, each with whether its run keeps a journal.
    pub closed spec fn live(&self) -> Map<u64, bool> {
        journal_map(self.entries@)
    }

    /// The handle the next run will get.
    pub closed spec fn next_handle(&self) -> u64 {
        self.next
    }

    /// How many runs are live.
    pub closed spec fn size(&self) -> nat {
        self.entries@.len()
    }

    /// The handle of the run at position `i`.
    pub closed spec fn handle_at(&self, i: int) -> u64 {
        self.entries@[i].handle
    }

    /// The run at position `i`.
    pub closed spec fn run_spec(&self, i: int) -> R {
        self.entries@[i].run
    }

    /// No runs; the first handle is 1.
    pub fn new() -> (r: Self)
        ensures
            r.wf(),
            r.live() == Map::<u64, bool>::empty(),
            r.next_handle() == 1,
            r.fresh(),
    {
        Runs { next: 1, entries: Vec::new(), wrapped: Ghost(false) }
    }

    /// Where the run under `handle` is, if it is live.
    pub fn position(&self, handle: u64) -> (r: Option<usize>)
        requires
            self.wf(),
        ensures
            match r {
                Some(i) => i < self.size() && self.handle_at(i as int) == handle && self.live().contains_key(handle),
                None => !self.live().contains_key(handle),
            },
    {
        let mut i: usize = 0;
        while i < self.entries.len()
            invariant
                self.wf(),
                i <= self.entries@.len(),
                forall|j: int| 0 <= j < i ==> self.entries@[j].handle != handle,
            decreases self.entries.len() - i,
        {
            if self.entries[i].handle == handle {
                proof { lemma_journal_map_at(self.entries@, i as int); }
                return Some(i);
            }
            i = i + 1;
        }
        proof { lemma_journal_map_domain(self.entries@, handle); }
        None
    }

    /// The run at a position `position` gave.
    pub fn run_at(&self, i: usize) -> (r: &R)
        requires
            i < self.size(),
        ensures
            *r == self.run_spec(i as int),
    {
        &self.entries[i].run
    }

    /// The run under `handle`, taken out of the registry.
    pub fn remove(&mut self, handle: u64) -> (r: Option<R>)
        requires
            old(self).wf(),
        ensures
            final(self).wf(),
            r is Some <==> old(self).live().contains_key(handle),
            final(self).live() == old(self).live().remove(handle),
            final(self).next_handle() == old(self).next_handle(),
            final(self).fresh() == old(self).fresh(),
    {
        match self.position(handle) {
            Some(i) => {
                proof { lemma_journal_map_remove(self.entries@, i as int); }
                let ghost before = self.entries@;
                let entry = self.entries.remove(i);
                assert(self.entries@ == before.remove(i as int));
                assert forall|a: int, b: int| 0 <= a < b < self.entries@.len() implies self.entries@[a].handle
                    != self.entries@[b].handle by {
                    let a0 = if a < i { a } else { a + 1 };
                    let b0 = if b < i { b } else { b + 1 };
                    assert(self.entries@[a] == before[a0]);
                    assert(self.entries@[b] == before[b0]);
                }
                assert forall|k: int| 0 <= k < self.entries@.len() implies self.entries@[k] == before[if k < i { k } else { k + 1 }] by {}
                Some(entry.run)
            },
            None => {
                assert(self.live().remove(handle) =~= self.live());
                None
            },
        }
    }

    /// Registers `run` under the next handle and returns the handle; a run
    /// already under that handle (possible only once the counter has gone
    /// all the way round) is replaced, as a map insert replaces it.
    pub fn register(&mut self, run: R, journaled: bool) -> (h: u64)
        requires
            old(self).wf(),
        ensures
            final(self).wf(),
            h == old(self).next_handle(),
            final(self).live() == old(self).live().insert(h, journaled),
            final(self).next_handle() == old(self).next_handle().wrapping_add(1),
            old(self).fresh() && old(self).next_handle() != u64::MAX ==> final(self).fresh(),
            final(self).fresh() ==> old(self).fresh(),
    {
        let h = self.next;
        let _ = self.remove(h);
        let ghost before = self.entries@;
        self.entries.push(Entry { handle: h, run, journaled });
        proof {
            assert(self.entries@.drop_last() =~= before);
            assert(!journal_map(before).contains_key(h));
            assert forall|a: int, b: int| 0 <= a < b < self.entries@.len() implies self.entries@[a].handle
                != self.entries@[b].handle by {
                if b == self.entries@.len() - 1 {
                    lemma_journal_map_domain(before, h);
                    assert(before[a].handle == self.entries@[a].handle);
                } else {
                    assert(self.entries@[a] == before[a] && self.entries@[b] == before[b]);
                }
            }
        }
        self.next = h.wrapping_add(1);
        let ghost went_round = self.wrapped@ || h == u64::MAX;
        self.wrapped = Ghost(went_round);
        proof {
            if !self.wrapped@ {
                assert forall|i: int| 0 <= i < self.entries@.len() implies 0 < #[trigger] self.entries@[i].handle < self.next by {
                    if i < self.entries@.len() - 1 {
                        assert(self.entries@[i] == before[i]);
                    }
                }
            }
        }
        h
    }
}

/// Handle 0 is never live until the handle counter has gone all the way
/// round (2^64 registrations): a new registry hands out 1 first, `register`
/// only hands out what follows, and `agent_close` only takes handles away.
/// So `agent_close(0)` answers `-1` and `agent_step(0)` "unknown agent run".
pub proof fn law_handle_zero_is_never_live<R>(runs: &Runs<R>)
    requires
        runs.wf(),
        runs.fresh(),
    ensures
        !runs.live().contains_key(0),
{
    lemma_journal_map_domain(runs.entries@, 0);
}

// ---------------------------------------------------------------------------
// The entry points' answers
// ---------------------------------------------------------------------------

/// The handle of an opened run as JSON: `{"handle":N}`.
pub open spec fn handle_text(h: u64) -> Seq<char> {
    "{\"handle\":"@ + decimal(h as nat) + "}"@
}

/// A run that opened is registered under the next handle and the handle is
/// the answer; a run that did not open is the failure's answer.
fn open_with<R>(runs: &mut Runs<R>, opened: Result<R, String>, journaled: bool) -> (r: String)
    requires
        old(runs).wf(),
    ensures
        final(runs).wf(),
        match opened {
            Ok(run) => r@ == handle_text(old(runs).next_handle()) && final(runs).live() == old(runs).live().insert(
                old(runs).next_handle(),
                journaled,
            ) && final(runs).next_handle() == old(runs).next_handle().wrapping_add(1),
            Err(e) => r@ == fail_text(e@) && *final(runs) == *old(runs),
        },
{
    match opened {
        Ok(run) => {
            let h = runs.register(run, journaled);
            let mut t = owned("{\"handle\":");
            push_decimal(&mut t, h);
            push_str(&mut t, "}");
            t
        },
        Err(e) => fail(e.as_str()),
    }
}

/// Opens a run without a journal: registered under a fresh handle, or the
/// reason it could not be opened.
pub fn agent_open<R>(runs: &mut Runs<R>, opened: Result<R, String>) -> (r: String)
    requires
        old(runs).wf(),
    ensures
        final(runs).wf(),
        match opened {
            Ok(run) => r@ == handle_text(old(runs).next_handle()) && final(runs).live() == old(runs).live().insert(
                old(runs).next_handle(),
                false,
            ) && final(runs).next_handle() == old(runs).next_handle().wrapping_add(1),
            Err(e) => r@ == fail_text(e@) && *final(runs) == *old(runs),
        },
{
    open_with(runs, opened, false)
}

/// Opens a run that records a new journal: registered under a fresh handle,
/// or the reason it could not be opened.
pub fn agent_open_record<R>(runs: &mut Runs<R>, opened: Result<R, String>) -> (r: String)
    requires
        old(runs).wf(),
    ensures
        final(runs).wf(),
        match opened {
            Ok(run) => r@ == handle_text(old(runs).next_handle()) && final(runs).live() == old(runs).live().insert(
                old(runs).next_handle(),
                true,
            ) && final(runs).next_handle() == old(runs).next_handle().wrapping_add(1),
            Err(e) => r@ == fail_text(e@) && *final(runs) == *old(runs),
        },
{
    open_with(runs, opened, true)
}

/// Opens a run that resumes from a journal: registered under a fresh handle,
/// or the reason it could not be opened.
pub fn agent_open_resume<R>(runs: &mut Runs<R>, opened: Result<R, String>) -> (r: String)
    requires
        old(runs).wf(),
    ensures
        final(runs).wf(),
        match opened {
            Ok(run) => r@ == handle_text(old(runs).next_handle()) && final(runs).live() == old(runs).live().insert(
                old(runs).next_handle(),
                true,
            ) && final(runs).next_handle() == old(runs).next_handle().wrapping_add(1),
            Err(e) => r@ == fail_text(e@) && *final(runs) == *old(runs),
        },
{
    open_with(runs, opened, true)
}

/// The handle the host passed, as the registry keys it (its bits read as
/// unsigned).
pub open spec fn key_of(handle: i64) -> u64 {
    if handle >= 0 { handle as u64 } else { (handle + 0x1_0000_0000_0000_0000) as u64 }
}

fn key(handle: i64) -> (k: u64)
    ensures
        k == key_of(handle),
{
    if handle >= 0 {
        handle as u64
    } else {
        let magnitude: u64 = ((-(handle + 1)) as u64) + 1;
        (u64::MAX - magnitude) + 1
    }
}

/// Closes a run: `0` when it was live and is now gone, `-1` when no run had
/// that handle.
pub fn agent_close<R>(runs: &mut Runs<R>, handle: i64) -> (r: i64)
    requires
        old(runs).wf(),
    ensures
        final(runs).wf(),
        r == (if old(runs).live().contains_key(key_of(handle)) { 0i64 } else { -1i64 }),
        final(runs).live() == old(runs).live().remove(key_of(handle)),
        final(runs).fresh() == old(runs).fresh(),
        old(runs).fresh() && handle == 0 ==> r == -1,
{
    proof {
        if runs.fresh() {
            law_handle_zero_is_never_live(&*runs);
        }
    }
    match runs.remove(key(handle)) {
        Some(_) => 0,
        None => -1,
    }
}

/// The run a step is for: its position and whether it keeps a journal, or
/// the answer for a handle no run has.
pub fn agent_step<R>(runs: &Runs<R>, handle: i64) -> (r: Result<(usize, bool), String>)
    requires
        runs.wf(),
    ensures
        match r {
            Ok(found) => runs.live().contains_key(key_of(handle)) && runs.live()[key_of(handle)] == found.1
                && found.0 < runs.size() && runs.handle_at(found.0 as int) == key_of(handle),
            Err(answer) => !runs.live().contains_key(key_of(handle)) && answer@ == fail_text("unknown agent run"@),
        },
{
    match runs.position(key(handle)) {
        Some(i) => {
            proof { lemma_journal_map_at(runs.entries@, i as int); }
            Ok((i, runs.entries[i].journaled))
        },
        None => Err(fail("unknown agent run")),
    }
}

/// The run a checkpoint is for, or the answer when no run has the handle or
/// the run keeps no journal to checkpoint.
pub fn agent_checkpoint<R>(runs: &Runs<R>, handle: i64) -> (r: Result<usize, String>)
    requires
        runs.wf(),
    ensures
        match r {
            Ok(i) => runs.live().contains_key(key_of(handle)) && runs.live()[key_of(handle)] && i < runs.size()
                && runs.handle_at(i as int) == key_of(handle),
            Err(answer) => if runs.live().contains_key(key_of(handle)) {
                !runs.live()[key_of(handle)] && answer@ == fail_text("checkpoint requires --record"@)
            } else {
                answer@ == fail_text("unknown agent run"@)
            },
        },
{
    match runs.position(key(handle)) {
        Some(i) => {
            proof { lemma_journal_map_at(runs.entries@, i as int); }
            if runs.entries[i].journaled {
                Ok(i)
            } else {
                Err(fail("checkpoint requires --record"))
            }
        },
        None => Err(fail("unknown agent run")),
    }
}

/// The answer of a journal inspection: the report, or the failure's answer.
pub fn agent_journal_inspect(outcome: Result<String, String>) -> (r: String)
    ensures
        match outcome {
            Ok(report) => r@ == report@,
            Err(e) => r@ == fail_text(e@),
        },
{
    match outcome {
        Ok(report) => report,
        Err(e) => fail(e.as_str()),
    }
}

/// The fingerprint of a team: the SHA-256 of the text of its identity.
pub open spec fn team_fingerprint(identity: Seq<char>) -> Seq<char> {
    crate::runtime::sha256_hex(vstd::utf8::encode_utf8(identity))
}

/// The fingerprint of the team whose identity is written `identity`.
pub fn fingerprint_of(identity: &str) -> (r: String)
    ensures
        r@ == team_fingerprint(identity@),
{
    crate::runtime::digest(identity.as_bytes())
}

/// A journal resumes only the team that recorded it: the same
/// configuration, artifacts and mount bindings give the same fingerprint.
pub fn same_team(identity: &str, recorded: &str) -> (r: Result<(), String>)
    ensures
        r is Ok <==> team_fingerprint(identity@) == recorded@,
        r is Err ==> r->Err_0@
            == "journal fingerprint mismatch: configuration, WASM artifacts or mount bindings changed"@,
{
    let f = fingerprint_of(identity);
    if crate::text::same_text(f.as_str(), recorded) {
        Ok(())
    } else {
        Err(owned("journal fingerprint mismatch: configuration, WASM artifacts or mount bindings changed"))
    }
}

/// The answer of a configuration check, given the loaded team's identity
/// and its inspection report as JSON text, or why it did not load:
/// `{"fingerprint":…,"team":…,"valid":true}`, keys in serde_json's order.
pub fn agent_check(loaded: &Result<(String, String), String>) -> (r: String)
    ensures
        r@ == match loaded {
            Ok(t) => "{\"fingerprint\":"@ + serde_quoted(team_fingerprint(t.0@)) + ",\"team\":"@ + t.1@
                + ",\"valid\":true}"@,
            Err(e) => fail_text(e@),
        },
{
    match loaded {
        Ok((identity, team)) => {
            let mut t = owned("{\"fingerprint\":");
            push_str(&mut t, json_string(fingerprint_of(identity.as_str()).as_str()).as_str());
            push_str(&mut t, ",\"team\":");
            push_str(&mut t, team.as_str());
            push_str(&mut t, ",\"valid\":true}");
            t
        },
        Err(e) => fail(e.as_str()),
    }
}

} // verus!
