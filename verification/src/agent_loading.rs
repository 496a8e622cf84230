//! The rules a team is loaded by: what a delegated child inherits, how deep
//! and along which configurations delegation may go, which names its tools,
//! checks and children may take, and which mounts a check or a tool may
//! have. Reading files, compiling modules and resolving paths are the host's.

use vstd::prelude::*;
use crate::runtime::identifier;
use crate::text::{owned, push_char, push_str, same_text};
use crate::words::texts;

verus! {

// ---------------------------------------------------------------------------
// Descent
// ---------------------------------------------------------------------------

/// How an agent was reached: the configurations above it, the team budget it
/// shares (`B` is the host's handle to it), its actor path, whether it may
/// resolve credentials, whether its artifacts must be pinned, and the pin
/// its own configuration must match.
pub struct Descent<B> {
    pub chain: Vec<String>,
    pub shared: Option<B>,
    pub actor: String,
    pub defer_credential: bool,
    pub inherited_hashes: bool,
    pub expected_config: Option<String>,
}

impl<B> Descent<B> {
    /// A run with nothing above it: its own budget and no inherited pin.
    pub fn root(defer_credential: bool) -> (d: Self)
        ensures
            d.chain@.len() == 0,
            d.shared is None,
            d.actor@ == "root"@,
            d.defer_credential == defer_credential,
            !d.inherited_hashes,
            d.expected_config is None,
    {
        Descent {
            chain: Vec::new(),
            shared: None,
            actor: owned("root"),
            defer_credential,
            inherited_hashes: false,
            expected_config: None,
        }
    }

    /// Whether this agent's artifacts must be pinned: where an agent above
    /// it asked for pins, or its own configuration does (`configured`).
    pub fn requires_pins(&self, configured: bool) -> (r: bool)
        ensures
            r == (self.inherited_hashes || configured),
    {
        self.inherited_hashes || configured
    }

    /// What this agent's children inherit: its own configuration appended to
    /// the chain, its budget, and its pinning requirement with its own
    /// configuration's (`configured`) folded in. Strict pinning only widens as
    /// the team deepens: a child of an agent that must pin must pin too.
    pub fn below(&self, path: &str, budget: B, configured: bool) -> (d: Self)
        ensures
            texts(d.chain@) == texts(self.chain@).push(path@),
            d.shared == Some(budget),
            d.actor@ == self.actor@,
            d.defer_credential == self.defer_credential,
            d.inherited_hashes == (self.inherited_hashes || configured),
            self.inherited_hashes ==> d.inherited_hashes,
            d.expected_config is None,
    {
        let mut chain: Vec<String> = Vec::new();
        let mut i: usize = 0;
        while i < self.chain.len()
            invariant
                i <= self.chain@.len(),
                texts(chain@) == texts(self.chain@).take(i as int),
            decreases self.chain.len() - i,
        {
            let ghost before = texts(chain@);
            chain.push(owned(self.chain[i].as_str()));
            assert(texts(chain@) =~= before.push(self.chain@[i as int]@));
            assert(texts(self.chain@).take(i + 1) =~= texts(self.chain@).take(i as int).push(self.chain@[i as int]@));
            i = i + 1;
        }
        assert(texts(self.chain@).take(self.chain@.len() as int) =~= texts(self.chain@));
        let ghost before = texts(chain@);
        chain.push(owned(path));
        assert(texts(chain@) =~= before.push(path@));
        Descent {
            chain,
            shared: Some(budget),
            actor: owned(self.actor.as_str()),
            defer_credential: self.defer_credential,
            inherited_hashes: self.inherited_hashes || configured,
            expected_config: None,
        }
    }

    /// That inheritance addressed to one named delegate and its config pin:
    /// the same chain and budget, the actor path extended by the name.
    pub fn child(&self, name: &str, expected_config: Option<&str>, shared: Option<B>) -> (d: Self)
        ensures
            texts(d.chain@) == texts(self.chain@),
            d.shared == shared,
            d.actor@ == self.actor@ + "/"@ + name@,
            d.defer_credential == self.defer_credential,
            d.inherited_hashes == self.inherited_hashes,
            match expected_config {
                Some(p) => d.expected_config is Some && d.expected_config->Some_0@ == p@,
                None => d.expected_config is None,
            },
    {
        let mut chain: Vec<String> = Vec::new();
        let mut i: usize = 0;
        while i < self.chain.len()
            invariant
                i <= self.chain@.len(),
                texts(chain@) == texts(self.chain@).take(i as int),
            decreases self.chain.len() - i,
        {
            let ghost before = texts(chain@);
            chain.push(owned(self.chain[i].as_str()));
            assert(texts(chain@) =~= before.push(self.chain@[i as int]@));
            assert(texts(self.chain@).take(i + 1) =~= texts(self.chain@).take(i as int).push(self.chain@[i as int]@));
            i = i + 1;
        }
        assert(texts(self.chain@).take(self.chain@.len() as int) =~= texts(self.chain@));
        let mut actor = owned(self.actor.as_str());
        push_str(&mut actor, "/");
        push_str(&mut actor, name);
        Descent {
            chain,
            shared,
            actor,
            defer_credential: self.defer_credential,
            inherited_hashes: self.inherited_hashes,
            expected_config: match expected_config {
                Some(p) => Some(owned(p)),
                None => None,
            },
        }
    }
}

/// Whether a configuration may be loaded below these: not one of them
/// already (a cycle), and not deeper than four.
pub fn check_descent(chain: &[String], path: &str) -> (r: Result<(), String>)
    ensures
        texts(chain@).contains(path@) ==> r is Err && r->Err_0@ == "cyclic agent delegation configuration"@,
        !texts(chain@).contains(path@) && chain@.len() >= 4 ==> r is Err && r->Err_0@
            == "agent delegation depth exceeds 4"@,
        !texts(chain@).contains(path@) && chain@.len() < 4 ==> r is Ok,
{
    let mut i: usize = 0;
    while i < chain.len()
        invariant
            i <= chain@.len(),
            forall|k: int| 0 <= k < i ==> chain@[k]@ != path@,
        decreases chain.len() - i,
    {
        if same_text(chain[i].as_str(), path) {
            assert(texts(chain@)[i as int] == path@);
            return Err(owned("cyclic agent delegation configuration"));
        }
        i = i + 1;
    }
    proof {
        if texts(chain@).contains(path@) {
            let k = choose|k: int| 0 <= k < texts(chain@).len() && texts(chain@)[k] == path@;
            assert(chain@[k]@ == path@);
        }
    }
    if chain.len() >= 4 {
        return Err(owned("agent delegation depth exceeds 4"));
    }
    Ok(())
}

// ---------------------------------------------------------------------------
// Names
// ---------------------------------------------------------------------------

fn taken(names: &Vec<String>, name: &str) -> (r: bool)
    ensures
        r == texts(names@).contains(name@),
{
    let mut i: usize = 0;
    while i < names.len()
        invariant
            i <= names@.len(),
            forall|k: int| 0 <= k < i ==> names@[k]@ != name@,
        decreases names.len() - i,
    {
        if same_text(names[i].as_str(), name) {
            assert(texts(names@)[i as int] == name@);
            return true;
        }
        i = i + 1;
    }
    proof {
        if texts(names@).contains(name@) {
            let k = choose|k: int| 0 <= k < texts(names@).len() && texts(names@)[k] == name@;
            assert(names@[k]@ == name@);
        }
    }
    false
}

/// The tool name a delegated agent is offered under, `delegate_<name>`,
/// claimed among the team's names: the agent's name must be an identifier
/// and the tool name not already taken.
pub fn delegate_name(names: &mut Vec<String>, name: &str) -> (r: Result<String, String>)
    ensures
        !identifier(name@) ==> r is Err && r->Err_0@ == "invalid delegated agent name"@ && final(names)@ == old(names)@,
        identifier(name@) && texts(old(names)@).contains("delegate_"@ + name@) ==> r is Err && r->Err_0@
            == "duplicate tool or agent name: delegate_"@ + name@ && final(names)@ == old(names)@,
        identifier(name@) && !texts(old(names)@).contains("delegate_"@ + name@) ==> r is Ok && r->Ok_0@ == "delegate_"@
            + name@ && texts(final(names)@) == texts(old(names)@).push("delegate_"@ + name@),
{
    if !crate::runtime::is_identifier(name) {
        return Err(owned("invalid delegated agent name"));
    }
    let mut tool = owned("delegate_");
    push_str(&mut tool, name);
    if taken(names, tool.as_str()) {
        let mut message = owned("duplicate tool or agent name: ");
        push_str(&mut message, tool.as_str());
        proof {
            reveal_strlit("duplicate tool or agent name: delegate_");
            reveal_strlit("duplicate tool or agent name: ");
            reveal_strlit("delegate_");
        }
        assert(message@ =~= "duplicate tool or agent name: delegate_"@ + name@);
        return Err(message);
    }
    let ghost before = names@;
    names.push(owned(tool.as_str()));
    assert(texts(names@) =~= texts(before).push(tool@));
    Ok(tool)
}

/// A check is addressed by name in verdicts and journal records, so its name
/// must be a unique identifier, claimed here, and its parameters an object.
pub fn name_check(taken_names: &mut Vec<String>, name: &str, parameters_object: bool, label: &str) -> (r: Result<(), String>)
    ensures
        !(identifier(name@) && !texts(old(taken_names)@).contains(name@)) ==> r is Err && r->Err_0@ == label@
            + " check names must be unique nonempty ASCII identifiers"@ && final(taken_names)@ == old(taken_names)@,
        identifier(name@) && !texts(old(taken_names)@).contains(name@) ==> texts(final(taken_names)@) == texts(
            old(taken_names)@,
        ).push(name@) && (parameters_object <==> r is Ok) && (!parameters_object ==> r->Err_0@ == label@
            + " check parameters must be an object"@),
{
    if !crate::runtime::is_identifier(name) || taken(taken_names, name) {
        let mut message = owned(label);
        push_str(&mut message, " check names must be unique nonempty ASCII identifiers");
        return Err(message);
    }
    let ghost before = taken_names@;
    taken_names.push(owned(name));
    assert(texts(taken_names@) =~= texts(before).push(name@));
    if !parameters_object {
        let mut message = owned(label);
        push_str(&mut message, " check parameters must be an object");
        return Err(message);
    }
    Ok(())
}

/// At most sixteen checks of one kind.
pub fn check_count(count: usize, label: &str) -> (r: Result<(), String>)
    ensures
        count <= 16 <==> r is Ok,
        r is Err ==> r->Err_0@ == "at most 16 "@ + label@ + " checks are supported"@,
{
    if count > 16 {
        let mut message = owned("at most 16 ");
        push_str(&mut message, label);
        push_str(&mut message, " checks are supported");
        return Err(message);
    }
    Ok(())
}

// ---------------------------------------------------------------------------
// Mounts
// ---------------------------------------------------------------------------

/// The first fault of a check's mounts, in order: a writable mount, or a
/// guest path that is empty or repeats an earlier one.
pub open spec fn check_mount_fault(guests: Seq<Seq<char>>, read_only: Seq<bool>, label: Seq<char>) -> Option<Seq<char>>
    decreases guests.len(),
{
    if guests.len() == 0 || read_only.len() == 0 {
        None
    } else {
        match check_mount_fault(guests.drop_last(), read_only.drop_last(), label) {
            Some(m) => Some(m),
            None => if !read_only.last() {
                Some(label + " check mounts must be read-only"@)
            } else if guests.last().len() == 0 || guests.drop_last().contains(guests.last()) {
                Some(label + " check mount paths must be nonempty and unique"@)
            } else {
                None
            },
        }
    }
}

/// Checks read the artifacts they judge and never write them: every mount
/// must be read-only, and the guest paths nonempty and unique.
pub fn check_mounts(guests: &Vec<String>, read_only: &Vec<bool>, label: &str) -> (r: Result<(), String>)
    requires
        read_only@.len() == guests@.len(),
    ensures
        match check_mount_fault(texts(guests@), read_only@, label@) {
            Some(m) => r is Err && r->Err_0@ == m,
            None => r is Ok,
        },
{
    let mut seen: Vec<String> = Vec::new();
    let mut i: usize = 0;
    while i < guests.len()
        invariant
            i <= guests@.len(),
            read_only@.len() == guests@.len(),
            texts(seen@) == texts(guests@).take(i as int),
            check_mount_fault(texts(guests@).take(i as int), read_only@.take(i as int), label@) is None,
        decreases guests.len() - i,
    {
        proof {
            assert(texts(guests@).take(i + 1).drop_last() =~= texts(guests@).take(i as int));
            assert(read_only@.take(i + 1).drop_last() =~= read_only@.take(i as int));
        }
        if !read_only[i] {
            let mut message = owned(label);
            push_str(&mut message, " check mounts must be read-only");
            proof {
                assert(check_mount_fault(texts(guests@).take(i + 1), read_only@.take(i + 1), label@) == Some(message@));
                lemma_first_fault_stays(texts(guests@), read_only@, label@, i + 1);
            }
            return Err(message);
        }
        if guests[i].unicode_len() == 0 || taken(&seen, guests[i].as_str()) {
            let mut message = owned(label);
            push_str(&mut message, " check mount paths must be nonempty and unique");
            proof {
                assert(check_mount_fault(texts(guests@).take(i + 1), read_only@.take(i + 1), label@) == Some(message@));
                lemma_first_fault_stays(texts(guests@), read_only@, label@, i + 1);
            }
            return Err(message);
        }
        let ghost before = texts(seen@);
        seen.push(owned(guests[i].as_str()));
        assert(texts(seen@) =~= before.push(guests@[i as int]@));
        assert(texts(seen@) =~= texts(guests@).take(i + 1));
        i = i + 1;
    }
    assert(texts(guests@).take(guests@.len() as int) =~= texts(guests@));
    assert(read_only@.take(guests@.len() as int) =~= read_only@);
    Ok(())
}

/// A fault found among the first `n` mounts is the fault of them all.
proof fn lemma_first_fault_stays(guests: Seq<Seq<char>>, read_only: Seq<bool>, label: Seq<char>, n: int)
    requires
        0 <= n <= guests.len(),
        read_only.len() == guests.len(),
        check_mount_fault(guests.take(n), read_only.take(n), label) is Some,
    ensures
        check_mount_fault(guests, read_only, label) == check_mount_fault(guests.take(n), read_only.take(n), label),
    decreases guests.len() - n,
{
    if n < guests.len() {
        assert(guests.take(n + 1).drop_last() =~= guests.take(n));
        assert(read_only.take(n + 1).drop_last() =~= read_only.take(n));
        assert(check_mount_fault(guests.take(n + 1), read_only.take(n + 1), label) == check_mount_fault(
            guests.take(n),
            read_only.take(n),
            label,
        ));
        lemma_first_fault_stays(guests, read_only, label, n + 1);
    } else {
        assert(guests.take(n) =~= guests);
        assert(read_only.take(n) =~= read_only);
    }
}

/// The first repeated or empty guest path of a tool's mounts, if any.
pub open spec fn tool_mount_fault(guests: Seq<Seq<char>>) -> bool
    decreases guests.len(),
{
    if guests.len() == 0 {
        false
    } else {
        tool_mount_fault(guests.drop_last()) || guests.last().len() == 0 || guests.drop_last().contains(guests.last())
    }
}

/// A tool's mounts must have nonempty, unique guest paths.
pub fn tool_mounts(guests: &Vec<String>) -> (r: Result<(), String>)
    ensures
        tool_mount_fault(texts(guests@)) ==> r is Err && r->Err_0@ == "tool mount guest paths must be nonempty and unique"@,
        !tool_mount_fault(texts(guests@)) ==> r is Ok,
{
    let mut seen: Vec<String> = Vec::new();
    let mut i: usize = 0;
    while i < guests.len()
        invariant
            i <= guests@.len(),
            texts(seen@) == texts(guests@).take(i as int),
            !tool_mount_fault(texts(guests@).take(i as int)),
        decreases guests.len() - i,
    {
        proof {
            assert(texts(guests@).take(i + 1).drop_last() =~= texts(guests@).take(i as int));
        }
        if guests[i].unicode_len() == 0 || taken(&seen, guests[i].as_str()) {
            proof {
                assert(tool_mount_fault(texts(guests@).take(i + 1)));
                lemma_tool_fault_stays(texts(guests@), i + 1);
            }
            return Err(owned("tool mount guest paths must be nonempty and unique"));
        }
        let ghost before = texts(seen@);
        seen.push(owned(guests[i].as_str()));
        assert(texts(seen@) =~= before.push(guests@[i as int]@));
        assert(texts(seen@) =~= texts(guests@).take(i + 1));
        i = i + 1;
    }
    assert(texts(guests@).take(guests@.len() as int) =~= texts(guests@));
    Ok(())
}

proof fn lemma_tool_fault_stays(guests: Seq<Seq<char>>, n: int)
    requires
        0 <= n <= guests.len(),
        tool_mount_fault(guests.take(n)),
    ensures
        tool_mount_fault(guests),
    decreases guests.len() - n,
{
    if n < guests.len() {
        assert(guests.take(n + 1).drop_last() =~= guests.take(n));
        lemma_tool_fault_stays(guests, n + 1);
    } else {
        assert(guests.take(n) =~= guests);
    }
}

// ---------------------------------------------------------------------------
// Clipping
// ---------------------------------------------------------------------------

/// How many bytes UTF-8 takes for a character.
pub open spec fn utf8_width(c: char) -> nat {
    if (c as u32) < 0x80 {
        1
    } else if (c as u32) < 0x800 {
        2
    } else if (c as u32) < 0x10000 {
        3
    } else {
        4
    }
}

/// How many bytes UTF-8 takes for a text.
pub open spec fn utf8_len(s: Seq<char>) -> nat
    decreases s.len(),
{
    if s.len() == 0 { 0 } else { utf8_len(s.drop_last()) + utf8_width(s.last()) }
}

/// A text cut to at most `limit` bytes: as it is when it fits, else its
/// longest prefix that fits, on a character boundary, followed by `…`.
pub open spec fn clipped_to(s: Seq<char>, limit: nat, r: Seq<char>) -> bool {
    if utf8_len(s) <= limit {
        r == s
    } else {
        exists|k: int|
            0 <= k < s.len() && utf8_len(#[trigger] s.take(k)) <= limit && utf8_len(s.take(k + 1)) > limit && r
                == s.take(k) + seq!['…']
    }
}

fn width_of(c: char) -> (w: usize)
    ensures
        w == utf8_width(c),
{
    let u = c as u32;
    if u < 0x80 {
        1
    } else if u < 0x800 {
        2
    } else if u < 0x10000 {
        3
    } else {
        4
    }
}

/// Truncates on a character boundary, so a multi-byte name cannot split.
pub fn clipped(text: &str, limit: usize) -> (r: String)
    ensures
        clipped_to(text@, limit as nat, r@),
{
    let chars = crate::text::chars_of(text);
    let mut used: usize = 0;
    let mut k: usize = 0;
    while k < chars.len()
        invariant
            k <= chars@.len(),
            chars@ == text@,
            used == utf8_len(chars@.take(k as int)),
            used <= limit,
        decreases chars.len() - k,
    {
        let w = width_of(chars[k]);
        assert(chars@.take(k + 1).drop_last() =~= chars@.take(k as int));
        if w > limit - used {
            let mut r = crate::text::slice_text(chars.as_slice(), 0, k);
            push_char(&mut r, '…');
            proof {
                assert(chars@.subrange(0, k as int) =~= chars@.take(k as int));
                assert(r@ =~= chars@.take(k as int) + seq!['…']);
                lemma_utf8_len_grows(chars@, k + 1);
                assert(utf8_len(chars@.take(k + 1)) == utf8_len(chars@.take(k as int)) + utf8_width(chars@[k as int]));
                assert(utf8_len(chars@.take(k + 1)) > limit);
                assert(utf8_len(text@) > limit);
                assert(0 <= k < text@.len() && utf8_len(text@.take(k as int)) <= limit && utf8_len(text@.take(k + 1))
                    > limit && r@ == text@.take(k as int) + seq!['…']);
            }
            return r;
        }
        used = used + w;
        k = k + 1;
    }
    assert(chars@.take(chars@.len() as int) =~= text@);
    owned(text)
}

/// A longer prefix takes at least as many bytes.
proof fn lemma_utf8_len_grows(s: Seq<char>, n: int)
    requires
        0 <= n <= s.len(),
    ensures
        utf8_len(s.take(n)) <= utf8_len(s),
    decreases s.len() - n,
{
    if n < s.len() {
        lemma_utf8_len_grows(s, n + 1);
        assert(s.take(n + 1).drop_last() =~= s.take(n));
    } else {
        assert(s.take(n) =~= s);
    }
}

/// A clipped text holds at most `limit` bytes before its ellipsis, and is
/// the text itself when that fits.
pub proof fn law_clipping_keeps_within_the_limit(s: Seq<char>, limit: nat, r: Seq<char>)
    requires
        clipped_to(s, limit, r),
    ensures
        utf8_len(s) <= limit ==> r == s,
        utf8_len(s) > limit ==> r.len() > 0 && r.last() == '…' && utf8_len(r.drop_last()) <= limit && s.take(
            r.len() - 1,
        ) == r.drop_last(),
{
    if utf8_len(s) > limit {
        let k = choose|k: int|
            0 <= k < s.len() && utf8_len(#[trigger] s.take(k)) <= limit && utf8_len(s.take(k + 1)) > limit && r == s.take(
                k,
            ) + seq!['…'];
        assert(r.drop_last() =~= s.take(k));
    }
}

} // verus!
