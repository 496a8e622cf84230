//! Putting a run's writes back: what a run changed in each writable mount,
//! relative to the copy `--snapshot` took before it started, said in words,
//! and the answer of `porta rollback`. Copying, walking and restoring the
//! trees are the host's.

use vstd::prelude::*;
use crate::text::{decimal, owned, parse_u64, push_decimal, push_str, same_text, string_of, chars_of};
use crate::words::{split_once, texts, trim_end};

verus! {

// ---------------------------------------------------------------------------
// What changed
// ---------------------------------------------------------------------------

/// The entries of `s` that `other` lacks, in their order.
pub open spec fn lacking(other: Seq<Seq<char>>, s: Seq<Seq<char>>) -> Seq<Seq<char>>
    decreases s.len(),
{
    if s.len() == 0 {
        Seq::empty()
    } else {
        let rest = lacking(other, s.drop_last());
        if other.contains(s.last()) { rest } else { rest.push(s.last()) }
    }
}

/// The entries of `now` that `before` has too and that differ from their
/// copy, in their order.
pub open spec fn differing(before: Seq<Seq<char>>, now: Seq<Seq<char>>, differs: Seq<bool>) -> Seq<Seq<char>>
    decreases now.len(),
{
    if now.len() == 0 {
        Seq::empty()
    } else {
        let rest = differing(before, now.drop_last(), differs.drop_last());
        if before.contains(now.last()) && differs.last() { rest.push(now.last()) } else { rest }
    }
}

/// What a run changed in one mount, relative to it.
pub struct Changes {
    pub added: Vec<String>,
    pub changed: Vec<String>,
    pub removed: Vec<String>,
}

/// How many changes there are.
pub open spec fn change_count(c: Changes) -> nat {
    c.added@.len() + c.changed@.len() + c.removed@.len()
}

impl Changes {
    /// How many changes there are.
    pub fn count(&self) -> (r: usize)
        requires
            change_count(*self) <= usize::MAX,
        ensures
            r == change_count(*self),
    {
        self.added.len() + self.changed.len() + self.removed.len()
    }
}

fn has_entry(list: &[String], entry: &str) -> (r: bool)
    ensures
        r == texts(list@).contains(entry@),
{
    let mut i: usize = 0;
    while i < list.len()
        invariant
            i <= list@.len(),
            forall|k: int| 0 <= k < i ==> list@[k]@ != entry@,
        decreases list.len() - i,
    {
        if same_text(list[i].as_str(), entry) {
            assert(texts(list@)[i as int] == entry@);
            return true;
        }
        i = i + 1;
    }
    proof {
        if texts(list@).contains(entry@) {
            let k = choose|k: int| 0 <= k < texts(list@).len() && texts(list@)[k] == entry@;
            assert(list@[k]@ == entry@);
        }
    }
    false
}

fn entries_lacking(other: &[String], s: &[String]) -> (r: Vec<String>)
    ensures
        texts(r@) == lacking(texts(other@), texts(s@)),
{
    let mut r: Vec<String> = Vec::new();
    let mut i: usize = 0;
    while i < s.len()
        invariant
            i <= s@.len(),
            texts(r@) == lacking(texts(other@), texts(s@).take(i as int)),
        decreases s.len() - i,
    {
        proof {
            assert(texts(s@).take(i + 1).drop_last() =~= texts(s@).take(i as int));
        }
        if !has_entry(other, s[i].as_str()) {
            r.push(owned(s[i].as_str()));
            assert(texts(r@) =~= lacking(texts(other@), texts(s@).take(i as int)).push(s@[i as int]@));
        }
        i = i + 1;
    }
    assert(texts(s@).take(s@.len() as int) =~= texts(s@));
    r
}

/// What a mount's entries `now` changed from its copy's entries `before`:
/// added are the entries only `now` has, changed those both have that
/// `differs` marks (in kind, a link's target, or a file's bytes), removed
/// those only `before` has; each list in the order of the list it is from.
pub fn changes(before: &[String], now: &[String], differs: &[bool]) -> (c: Changes)
    requires
        differs@.len() == now@.len(),
    ensures
        texts(c.added@) == lacking(texts(before@), texts(now@)),
        texts(c.changed@) == differing(texts(before@), texts(now@), differs@),
        texts(c.removed@) == lacking(texts(now@), texts(before@)),
{
    let added = entries_lacking(before, now);
    let mut changed: Vec<String> = Vec::new();
    let mut i: usize = 0;
    while i < now.len()
        invariant
            i <= now@.len(),
            differs@.len() == now@.len(),
            texts(changed@) == differing(texts(before@), texts(now@).take(i as int), differs@.take(i as int)),
        decreases now.len() - i,
    {
        proof {
            assert(texts(now@).take(i + 1).drop_last() =~= texts(now@).take(i as int));
            assert(differs@.take(i + 1).drop_last() =~= differs@.take(i as int));
        }
        if has_entry(before, now[i].as_str()) && differs[i] {
            changed.push(owned(now[i].as_str()));
            assert(texts(changed@) =~= differing(texts(before@), texts(now@).take(i as int), differs@.take(i as int)).push(
                now@[i as int]@,
            ));
        }
        i = i + 1;
    }
    assert(texts(now@).take(now@.len() as int) =~= texts(now@));
    assert(differs@.take(now@.len() as int) =~= differs@);
    let removed = entries_lacking(now, before);
    Changes { added, changed, removed }
}

// ---------------------------------------------------------------------------
// In words
// ---------------------------------------------------------------------------

/// One line per entry: two spaces, the mark, a space, the entry.
pub open spec fn entry_lines(mark: Seq<char>, entries: Seq<Seq<char>>) -> Seq<char>
    decreases entries.len(),
{
    if entries.len() == 0 {
        Seq::empty()
    } else {
        entry_lines(mark, entries.drop_last()) + "  "@ + mark + " "@ + entries.last() + "\n"@
    }
}

/// The first twenty entries of a list, each on its line, and how many more
/// there are.
pub open spec fn list_text(mark: Seq<char>, entries: Seq<Seq<char>>) -> Seq<char> {
    entry_lines(mark, entries.take(if entries.len() < 20 { entries.len() as int } else { 20 })) + if entries.len()
        > 20 {
        "  "@ + mark + " … and "@ + decimal((entries.len() - 20) as nat) + " more\n"@
    } else {
        Seq::empty()
    }
}

/// What a run changed in one mount, in words.
pub open spec fn mount_text(id: Seq<char>, mount: Seq<char>, c: Changes) -> Seq<char> {
    "[porta] snapshot "@ + id + ": "@ + decimal(change_count(c)) + " change(s) in "@ + mount + "\n"@ + list_text(
        "+"@,
        texts(c.added@),
    ) + list_text("~"@, texts(c.changed@)) + list_text("-"@, texts(c.removed@))
}

/// What a run changed, in words, one mount after another.
pub open spec fn describe_text(id: Seq<char>, mounts: Seq<(String, Changes)>) -> Seq<char>
    decreases mounts.len(),
{
    if mounts.len() == 0 {
        Seq::empty()
    } else {
        describe_text(id, mounts.drop_last()) + mount_text(id, mounts.last().0@, mounts.last().1)
    }
}

/// Every mount's count of changes fits the machine's counters.
pub open spec fn countable(mounts: Seq<(String, Changes)>) -> bool {
    forall|k: int| 0 <= k < mounts.len() ==> change_count(#[trigger] mounts[k].1) <= usize::MAX
}

fn push_list(out: &mut String, mark: &str, entries: &[String])
    ensures
        final(out)@ == old(out)@ + list_text(mark@, texts(entries@)),
{
    let ghost start = out@;
    let shown: usize = if entries.len() < 20 { entries.len() } else { 20 };
    let mut i: usize = 0;
    while i < shown
        invariant
            i <= shown,
            shown <= entries@.len(),
            shown == (if entries@.len() < 20 { entries@.len() } else { 20 }),
            out@ == start + entry_lines(mark@, texts(entries@).take(i as int)),
        decreases shown - i,
    {
        proof {
            assert(texts(entries@).take(i + 1).drop_last() =~= texts(entries@).take(i as int));
        }
        push_str(out, "  ");
        push_str(out, mark);
        push_str(out, " ");
        push_str(out, entries[i].as_str());
        push_str(out, "\n");
        assert(out@ =~= start + entry_lines(mark@, texts(entries@).take(i + 1)));
        i = i + 1;
    }
    if entries.len() > 20 {
        push_str(out, "  ");
        push_str(out, mark);
        push_str(out, " … and ");
        push_decimal(out, (entries.len() - 20) as u64);
        push_str(out, " more\n");
    }
    assert(final(out)@ =~= start + list_text(mark@, texts(entries@)));
}

fn push_mount(out: &mut String, id: &str, mount: &str, c: &Changes)
    requires
        change_count(*c) <= usize::MAX,
    ensures
        final(out)@ == old(out)@ + mount_text(id@, mount@, *c),
{
    let ghost start = out@;
    push_str(out, "[porta] snapshot ");
    push_str(out, id);
    push_str(out, ": ");
    push_decimal(out, c.count() as u64);
    push_str(out, " change(s) in ");
    push_str(out, mount);
    push_str(out, "\n");
    let ghost head = out@;
    push_list(out, "+", c.added.as_slice());
    push_list(out, "~", c.changed.as_slice());
    push_list(out, "-", c.removed.as_slice());
    proof {
        let h = "[porta] snapshot "@ + id@ + ": "@ + decimal(change_count(*c)) + " change(s) in "@ + mount@ + "\n"@;
        assert(head =~= start + h);
        let l1 = list_text("+"@, texts(c.added@));
        let l2 = list_text("~"@, texts(c.changed@));
        let l3 = list_text("-"@, texts(c.removed@));
        assert(mount_text(id@, mount@, *c) == h + l1 + l2 + l3);
        assert(out@ =~= start + (h + l1 + l2 + l3));
    }
}

/// Appends what a run changed, one mount after another.
fn push_description(out: &mut String, id: &str, mounts: &[(String, Changes)])
    requires
        countable(mounts@),
    ensures
        final(out)@ == old(out)@ + describe_text(id@, mounts@),
{
    let ghost start = out@;
    let mut i: usize = 0;
    while i < mounts.len()
        invariant
            i <= mounts@.len(),
            countable(mounts@),
            out@ == start + describe_text(id@, mounts@.take(i as int)),
        decreases mounts.len() - i,
    {
        proof {
            assert(mounts@.take(i + 1).drop_last() =~= mounts@.take(i as int));
            assert(change_count(mounts@[i as int].1) <= usize::MAX);
        }
        push_mount(out, id, mounts[i].0.as_str(), &mounts[i].1);
        assert(out@ =~= start + describe_text(id@, mounts@.take(i + 1)));
        i = i + 1;
    }
    assert(mounts@.take(mounts@.len() as int) =~= mounts@);
}

/// What the run changed, in words, one mount after another: per mount the
/// count, then at most twenty added (`+`), changed (`~`) and removed (`-`)
/// entries each, and how many more.
pub fn describe(id: &str, mounts: &[(String, Changes)]) -> (r: String)
    requires
        countable(mounts@),
    ensures
        r@ == describe_text(id@, mounts@),
{
    let mut r = String::new();
    push_description(&mut r, id, mounts);
    r
}

/// What the run that snapshot `id` was taken for changed, and how to undo
/// it; nothing where the snapshots' home could not be found (`None`).
pub fn after_run(id: &str, mounts: &Option<Vec<(String, Changes)>>) -> (r: String)
    requires
        mounts is Some ==> countable(mounts->Some_0@),
    ensures
        r@ == match mounts {
            None => Seq::empty(),
            Some(m) => describe_text(id@, m@) + "[porta] `porta rollback "@ + id@
                + "` shows these again; add --yes to put them back\n"@,
        },
{
    match mounts {
        None => String::new(),
        Some(m) => {
            let mut r = String::new();
            push_description(&mut r, id, m.as_slice());
            push_str(&mut r, "[porta] `porta rollback ");
            push_str(&mut r, id);
            push_str(&mut r, "` shows these again; add --yes to put them back\n");
            r
        },
    }
}

// ---------------------------------------------------------------------------
// Rollback
// ---------------------------------------------------------------------------

/// The second a snapshot id begins with (what precedes its first `-`); 0
/// where that is not a number.
pub open spec fn snapshot_second(id: Seq<char>) -> u64 {
    let head = match split_once(id, "-"@) {
        Some(p) => p.0,
        None => id,
    };
    match parse_u64(head) {
        Some(n) => n,
        None => 0,
    }
}

/// The latest of the snapshots `ids` lists: the one of the latest second,
/// the last listed among those of the same second.
pub open spec fn is_latest(ids: Seq<Seq<char>>, i: int) -> bool {
    &&& 0 <= i < ids.len()
    &&& forall|k: int| 0 <= k < ids.len() ==> snapshot_second(#[trigger] ids[k]) <= snapshot_second(ids[i])
    &&& forall|k: int| i < k < ids.len() ==> snapshot_second(#[trigger] ids[k]) < snapshot_second(ids[i])
}

fn second_of(id: &str) -> (r: u64)
    ensures
        r == snapshot_second(id@),
{
    let chars = chars_of(id);
    let dash = chars_of("-");
    let head = match crate::words::split_once_at(chars.as_slice(), dash.as_slice()) {
        Some((h, _)) => h,
        None => chars,
    };
    match crate::text::parse_unsigned(head.as_slice()) {
        Some(n) => n,
        None => 0,
    }
}

/// The snapshot a rollback without an id means: the latest one, or the
/// reason there is none.
pub fn latest_snapshot(ids: &[String]) -> (r: Result<String, String>)
    ensures
        ids@.len() == 0 ==> r is Err && r->Err_0@ == "there is no snapshot; run with --snapshot first"@,
        ids@.len() > 0 ==> r is Ok && exists|i: int| is_latest(texts(ids@), i) && r->Ok_0@ == ids@[i]@,
{
    if ids.len() == 0 {
        return Err(owned("there is no snapshot; run with --snapshot first"));
    }
    let mut best: usize = 0;
    let mut best_second = second_of(ids[0].as_str());
    let mut i: usize = 1;
    while i < ids.len()
        invariant
            1 <= i <= ids@.len(),
            best < i,
            best_second == snapshot_second(ids@[best as int]@),
            forall|k: int| 0 <= k < i ==> snapshot_second(#[trigger] texts(ids@)[k]) <= best_second,
            forall|k: int| best < k < i ==> snapshot_second(#[trigger] texts(ids@)[k]) < best_second,
        decreases ids.len() - i,
    {
        let s = second_of(ids[i].as_str());
        if s >= best_second {
            best = i;
            best_second = s;
        }
        i = i + 1;
    }
    assert(is_latest(texts(ids@), best as int));
    Ok(owned(ids[best].as_str()))
}

/// What `porta rollback` says before it is trimmed: the changes since the
/// snapshot and how to put them back; with `apply`, that they were put
/// back, or at which mount restoring stopped and why.
pub open spec fn rollback_text(
    opened: Result<(String, Vec<(String, Changes)>), String>,
    apply: bool,
    stopped: Option<(String, String)>,
) -> Seq<char> {
    match opened {
        Err(reason) => "Error: "@ + reason@ + "\n"@,
        Ok(found) => {
            let text = describe_text(found.0@, found.1@);
            if !apply {
                text + "run `porta rollback "@ + found.0@ + " --yes` to put these back\n"@
            } else {
                match stopped {
                    Some(s) => text + "Error: restoring "@ + s.0@ + " stopped part way: "@ + s.1@ + "\n"@,
                    None => text + "[porta] put back as snapshot "@ + found.0@ + " held them\n"@,
                }
            }
        },
    }
}

/// `porta rollback [id] [--yes]`: `opened` is the snapshot found (its id
/// and each mount with what the run changed in it) or why none was; with
/// `apply`, `stopped` is the first mount whose restoring failed and why.
/// The answer is the text without its trailing white space.
pub fn wt_rollback(
    opened: &Result<(String, Vec<(String, Changes)>), String>,
    apply: bool,
    stopped: &Option<(String, String)>,
) -> (r: String)
    requires
        opened is Ok ==> countable(opened->Ok_0.1@),
    ensures
        r@ == trim_end(rollback_text(*opened, apply, *stopped)),
{
    let mut text = String::new();
    match opened {
        Err(reason) => {
            push_str(&mut text, "Error: ");
            push_str(&mut text, reason.as_str());
            push_str(&mut text, "\n");
        },
        Ok((id, mounts)) => {
            push_description(&mut text, id.as_str(), mounts.as_slice());
            if !apply {
                push_str(&mut text, "run `porta rollback ");
                push_str(&mut text, id.as_str());
                push_str(&mut text, " --yes` to put these back\n");
            } else {
                match stopped {
                    Some((mount, error)) => {
                        push_str(&mut text, "Error: restoring ");
                        push_str(&mut text, mount.as_str());
                        push_str(&mut text, " stopped part way: ");
                        push_str(&mut text, error.as_str());
                        push_str(&mut text, "\n");
                    },
                    None => {
                        push_str(&mut text, "[porta] put back as snapshot ");
                        push_str(&mut text, id.as_str());
                        push_str(&mut text, " held them\n");
                    },
                }
            }
        },
    }
    assert(text@ =~= rollback_text(*opened, apply, *stopped));
    let chars = chars_of(text.as_str());
    string_of(crate::words::trimmed_end(chars.as_slice()).as_slice())
}

// ---------------------------------------------------------------------------
// Laws
// ---------------------------------------------------------------------------

/// An entry is among those `s` has and `other` lacks exactly when `s` has it
/// and `other` does not.
pub proof fn law_lacking_is_the_difference(other: Seq<Seq<char>>, s: Seq<Seq<char>>, e: Seq<char>)
    ensures
        lacking(other, s).contains(e) <==> (s.contains(e) && !other.contains(e)),
    decreases s.len(),
{
    if s.len() > 0 {
        law_lacking_is_the_difference(other, s.drop_last(), e);
        let rest = lacking(other, s.drop_last());
        if s.contains(e) && !s.drop_last().contains(e) {
            let k = choose|k: int| 0 <= k < s.len() && s[k] == e;
            if k < s.len() - 1 {
                assert(s.drop_last()[k] == e);
            }
            assert(s.last() == e);
        }
        if s.drop_last().contains(e) {
            let k = choose|k: int| 0 <= k < s.drop_last().len() && s.drop_last()[k] == e;
            assert(s[k] == e);
        }
        if !other.contains(s.last()) {
            assert(rest.push(s.last()).last() == s.last());
            if rest.push(s.last()).contains(e) && e != s.last() {
                let k = choose|k: int| 0 <= k < rest.push(s.last()).len() && rest.push(s.last())[k] == e;
                assert(rest[k] == e);
            }
            if rest.contains(e) {
                let k = choose|k: int| 0 <= k < rest.len() && rest[k] == e;
                assert(rest.push(s.last())[k] == e);
            }
        }
    }
}

/// What a run changed partitions its entries: added are exactly the
/// entries now there that the copy lacks, removed exactly those of the copy
/// no longer there, and every changed entry is in both.
pub proof fn law_changes_partition(before: Seq<Seq<char>>, now: Seq<Seq<char>>, differs: Seq<bool>, e: Seq<char>)
    requires
        differs.len() == now.len(),
    ensures
        lacking(before, now).contains(e) <==> (now.contains(e) && !before.contains(e)),
        lacking(now, before).contains(e) <==> (before.contains(e) && !now.contains(e)),
        differing(before, now, differs).contains(e) ==> now.contains(e) && before.contains(e),
    decreases now.len(),
{
    law_lacking_is_the_difference(before, now, e);
    law_lacking_is_the_difference(now, before, e);
    if now.len() > 0 {
        law_changes_partition(before, now.drop_last(), differs.drop_last(), e);
        let rest = differing(before, now.drop_last(), differs.drop_last());
        if differing(before, now, differs).contains(e) {
            if rest.contains(e) {
                let k = choose|k: int| 0 <= k < now.drop_last().len() && now.drop_last()[k] == e;
                assert(now[k] == e);
            } else {
                let k = choose|k: int| 0 <= k < differing(before, now, differs).len() && differing(before, now, differs)[k] == e;
                if k < rest.len() {
                    assert(rest[k] == e);
                }
                assert(now[now.len() - 1] == e);
            }
        }
    }
}

} // verus!
