//! What the sandbox refused during a run, and what would have allowed it:
//! the refusals read back from the kernel's log, and for each the flag that
//! would have granted it, or why none would; then the footer that lists
//! them after a run, with the command line to run again.

use vstd::prelude::*;
use crate::preset::Closures;
use crate::text::{
    chars_of, contains_text, decimal, decimal_text, occurs_at, owned, push_char, push_decimal, push_str, slices_equal, starts,
    string_of,
};
use crate::words::{
    join, join_texts, lines, lines_of, rsplit_once, rsplit_once_at, split_once, split_once_at, str_contains,
    str_starts, strip_prefix, strip_prefix_of, text_less, texts, trim, trimmed, lemma_text_less_irreflexive,
    lemma_text_less_total, lemma_text_less_transitive, less_text,
};

verus! {

/// One refusal, as the kernel recorded it.
#[derive(Clone, Debug, PartialEq, Eq, PartialOrd, Ord)]
pub struct Denial {
    /// The operation: `file-write-create`, `network-outbound`, …
    pub operation: String,
    /// What it was tried on: a path, `remote:*:443`, a service name, or
    /// nothing for a bare network deny.
    pub target: String,
}

impl View for Denial {
    type V = (Seq<char>, Seq<char>);

    open spec fn view(&self) -> (Seq<char>, Seq<char>) {
        (self.operation@, self.target@)
    }
}

/// The views of some refusals.
pub open spec fn views(ds: Seq<Denial>) -> Seq<(Seq<char>, Seq<char>)> {
    ds.map_values(|d: Denial| d@)
}

// ---------------------------------------------------------------------------
// The order refusals are kept in, and the set they form
// ---------------------------------------------------------------------------

/// The order of `Denial`'s derived `Ord`: by operation, then by target.
pub open spec fn denial_less(a: (Seq<char>, Seq<char>), b: (Seq<char>, Seq<char>)) -> bool {
    text_less(a.0, b.0) || (a.0 == b.0 && text_less(a.1, b.1))
}

/// Each refusal comes before the next: in order, and none twice.
pub open spec fn strictly_sorted(s: Seq<(Seq<char>, Seq<char>)>) -> bool {
    forall|i: int, j: int| 0 <= i < j < s.len() ==> denial_less(#[trigger] s[i], #[trigger] s[j])
}

proof fn lemma_denial_less_transitive(a: (Seq<char>, Seq<char>), b: (Seq<char>, Seq<char>), c: (Seq<char>, Seq<char>))
    requires
        denial_less(a, b),
        denial_less(b, c),
    ensures
        denial_less(a, c),
{
    if text_less(a.0, b.0) && text_less(b.0, c.0) {
        lemma_text_less_transitive(a.0, b.0, c.0);
    } else if text_less(a.1, b.1) && text_less(b.1, c.1) && a.0 == b.0 && b.0 == c.0 {
        lemma_text_less_transitive(a.1, b.1, c.1);
    }
}

proof fn lemma_denial_less_total(a: (Seq<char>, Seq<char>), b: (Seq<char>, Seq<char>))
    ensures
        a == b || denial_less(a, b) || denial_less(b, a),
{
    lemma_text_less_total(a.0, b.0);
    lemma_text_less_total(a.1, b.1);
}

/// Whether `a` comes before `b`.
fn denial_before(a: &Denial, b: &Denial) -> (r: bool)
    ensures
        r == denial_less(a@, b@),
{
    let ao = chars_of(a.operation.as_str());
    let bo = chars_of(b.operation.as_str());
    if less_text(ao.as_slice(), bo.as_slice()) {
        return true;
    }
    if !slices_equal(ao.as_slice(), bo.as_slice()) {
        return false;
    }
    let at = chars_of(a.target.as_str());
    let bt = chars_of(b.target.as_str());
    less_text(at.as_slice(), bt.as_slice())
}

/// Whether two refusals are the same.
fn same_denial(a: &Denial, b: &Denial) -> (r: bool)
    ensures
        r == (a@ == b@),
{
    crate::text::same_text(a.operation.as_str(), b.operation.as_str()) && crate::text::same_text(
        a.target.as_str(),
        b.target.as_str(),
    )
}

/// `set` with `d` added in its place, unless it is there already: what
/// inserting into a `BTreeSet` of refusals does.
pub fn insert_sorted(set: &mut Vec<Denial>, d: Denial)
    requires
        strictly_sorted(views(old(set)@)),
    ensures
        strictly_sorted(views(final(set)@)),
        forall|x: (Seq<char>, Seq<char>)| views(final(set)@).contains(x) <==> (views(old(set)@).contains(x) || x == d@),
{
    let ghost before = views(set@);
    let mut k: usize = 0;
    while k < set.len() && denial_before(&set[k], &d)
        invariant
            k <= set@.len(),
            views(set@) == before,
            strictly_sorted(before),
            forall|j: int| 0 <= j < k ==> denial_less(#[trigger] before[j], d@),
        decreases set.len() - k,
    {
        assert(before[k as int] == set@[k as int]@);
        k = k + 1;
    }
    if k < set.len() && same_denial(&set[k], &d) {
        assert(before[k as int] == d@);
        assert forall|x: (Seq<char>, Seq<char>)| before.contains(x) <==> (before.contains(x) || x == d@) by {
            if x == d@ {
                assert(before[k as int] == x);
            }
        }
        return;
    }
    proof {
        if k < set.len() {
            let at = before[k as int];
            assert(at == set@[k as int]@);
            lemma_denial_less_total(at, d@);
            assert(denial_less(d@, at));
            assert forall|j: int| k < j < before.len() implies denial_less(d@, #[trigger] before[j]) by {
                lemma_denial_less_transitive(d@, at, before[j]);
            }
        }
    }
    let ghost old_set = set@;
    set.insert(k, d);
    proof {
        let after = views(set@);
        assert(after =~= before.insert(k as int, d@));
        assert forall|i: int, j: int| 0 <= i < j < after.len() implies denial_less(#[trigger] after[i], #[trigger] after[j]) by {
            if j < k {
                assert(after[i] == before[i] && after[j] == before[j]);
            } else if j == k {
                assert(after[j] == d@ && after[i] == before[i]);
            } else if i == k {
                assert(after[i] == d@ && after[j] == before[j - 1]);
            } else if i < k {
                assert(after[i] == before[i] && after[j] == before[j - 1]);
                lemma_denial_less_transitive(before[i], d@, before[j - 1]);
            } else {
                assert(after[i] == before[i - 1] && after[j] == before[j - 1]);
            }
        }
        assert forall|x: (Seq<char>, Seq<char>)| after.contains(x) <==> (before.contains(x) || x == d@) by {
            if after.contains(x) {
                let w = choose|w: int| 0 <= w < after.len() && after[w] == x;
                if w < k {
                    assert(before[w] == x);
                } else if w > k {
                    assert(before[w - 1] == x);
                }
            }
            if before.contains(x) {
                let w = choose|w: int| 0 <= w < before.len() && before[w] == x;
                if w < k {
                    assert(after[w] == x);
                } else {
                    assert(after[w + 1] == x);
                }
            }
            if x == d@ {
                assert(after[k as int] == x);
            }
        }
    }
}

// ---------------------------------------------------------------------------
// Reading the log
// ---------------------------------------------------------------------------

/// The refusal line `i` of the log records, when the line after it is this
/// run's tag: a denial line reads `… deny(1) <operation> <target>`.
pub open spec fn line_denial(lines: Seq<Seq<char>>, i: int, tag: Seq<char>) -> Option<(Seq<char>, Seq<char>)> {
    match split_once(lines[i], " deny(1) "@) {
        None => None,
        Some(parts) => {
            let rest = trim(parts.1);
            if i + 1 < lines.len() && trim(lines[i + 1]) == tag {
                match split_once(rest, " "@) {
                    Some(halves) => Some((halves.0, trim(halves.1))),
                    None => Some((rest, Seq::empty())),
                }
            } else {
                None
            }
        },
    }
}

/// Some line of the log records `d` for this run.
pub open spec fn logged(log: Seq<char>, tag: Seq<char>, d: (Seq<char>, Seq<char>)) -> bool {
    exists|i: int| 0 <= i < lines(log).len() && line_denial(lines(log), i, tag) == Some(d)
}

/// A refused connection with an address, which makes the bare record of the
/// same call redundant.
pub open spec fn addressed_outbound(d: (Seq<char>, Seq<char>)) -> bool {
    d.0 == "network-outbound"@ && d.1.len() > 0
}

/// A refused connection with no address.
pub open spec fn bare_outbound(d: (Seq<char>, Seq<char>)) -> bool {
    d.0 == "network-outbound"@ && d.1.len() == 0
}

/// The refusals `parse` reports: each logged one, except a bare refused
/// connection where an addressed one was logged too.
pub open spec fn reported(log: Seq<char>, tag: Seq<char>, d: (Seq<char>, Seq<char>)) -> bool {
    logged(log, tag, d) && !(bare_outbound(d) && exists|e: (Seq<char>, Seq<char>)|
        #[trigger] logged(log, tag, e) && addressed_outbound(e))
}

/// The refusal on line `i`, if the line is one and this run's.
fn denial_on(lines: &Vec<Vec<char>>, i: usize, tag: &[char]) -> (r: Option<Denial>)
    requires
        i < lines@.len(),
    ensures
        match r {
            Some(d) => line_denial(lines@.map_values(|l: Vec<char>| l@), i as int, tag@) == Some(d@),
            None => line_denial(lines@.map_values(|l: Vec<char>| l@), i as int, tag@) is None,
        },
{
    let ghost ls = lines@.map_values(|l: Vec<char>| l@);
    let marker: [char; 9] = [' ', 'd', 'e', 'n', 'y', '(', '1', ')', ' '];
    proof { reveal_strlit(" deny(1) "); }
    assert(marker@ =~= " deny(1) "@);
    assert(ls[i as int] == lines@[i as int]@);
    let parts = split_once_at(lines[i].as_slice(), marker.as_slice());
    match parts {
        None => None,
        Some((_, after)) => {
            let rest = trimmed(after.as_slice());
            if i >= lines.len() - 1 {
                return None;
            }
            assert(ls[i + 1] == lines@[i + 1]@);
            let next = trimmed(lines[i + 1].as_slice());
            if !slices_equal(next.as_slice(), tag) {
                return None;
            }
            let space: [char; 1] = [' '];
            proof { reveal_strlit(" "); }
            assert(space@ =~= " "@);
            match split_once_at(rest.as_slice(), space.as_slice()) {
                Some((operation, target)) => {
                    let t = trimmed(target.as_slice());
                    Some(Denial { operation: string_of(operation.as_slice()), target: string_of(t.as_slice()) })
                },
                None => Some(Denial { operation: string_of(rest.as_slice()), target: String::new() }),
            }
        },
    }
}

/// Whether `d` is a refused connection with an address.
fn is_addressed_outbound(d: &Denial) -> (r: bool)
    ensures
        r == addressed_outbound(d@),
{
    crate::text::same_text(d.operation.as_str(), "network-outbound") && d.target.unicode_len() > 0
}

/// This run's refusals in the log text: the lines reading
/// `… deny(1) <operation> <target>` whose next line is `tag`, in order and
/// each once; a bare refused connection is left out where an addressed one
/// is there.
pub fn parse(log: &str, tag: &str) -> (r: Vec<Denial>)
    ensures
        strictly_sorted(views(r@)),
        forall|d: (Seq<char>, Seq<char>)| views(r@).contains(d) <==> reported(log@, tag@, d),
{
    let text = chars_of(log);
    let tag_chars = chars_of(tag);
    let lines = lines_of(text.as_slice());
    let ghost ls = lines@.map_values(|l: Vec<char>| l@);
    assert(ls =~= crate::words::lines(log@));
    let mut found: Vec<Denial> = Vec::new();
    let mut i: usize = 0;
    while i < lines.len()
        invariant
            i <= lines@.len(),
            ls == lines@.map_values(|l: Vec<char>| l@),
            ls == crate::words::lines(log@),
            tag_chars@ == tag@,
            strictly_sorted(views(found@)),
            forall|d: (Seq<char>, Seq<char>)| views(found@).contains(d) <==> exists|j: int|
                0 <= j < i && #[trigger] line_denial(ls, j, tag@) == Some(d),
        decreases lines.len() - i,
    {
        let ghost before = views(found@);
        match denial_on(&lines, i, tag_chars.as_slice()) {
            Some(d) => {
                let ghost dv = d@;
                insert_sorted(&mut found, d);
                assert forall|x: (Seq<char>, Seq<char>)| views(found@).contains(x) <==> exists|j: int|
                    0 <= j < i + 1 && #[trigger] line_denial(ls, j, tag@) == Some(x) by {
                    if x == dv {
                        assert(line_denial(ls, i as int, tag@) == Some(x));
                    }
                    if exists|j: int| 0 <= j < i + 1 && #[trigger] line_denial(ls, j, tag@) == Some(x) {
                        let j = choose|j: int| 0 <= j < i + 1 && #[trigger] line_denial(ls, j, tag@) == Some(x);
                        if j < i {
                            assert(before.contains(x));
                        }
                    }
                }
            },
            None => {
                assert forall|x: (Seq<char>, Seq<char>)| views(found@).contains(x) <==> exists|j: int|
                    0 <= j < i + 1 && #[trigger] line_denial(ls, j, tag@) == Some(x) by {
                    if exists|j: int| 0 <= j < i + 1 && #[trigger] line_denial(ls, j, tag@) == Some(x) {
                        let j = choose|j: int| 0 <= j < i + 1 && #[trigger] line_denial(ls, j, tag@) == Some(x);
                        if j < i {
                            assert(before.contains(x));
                        }
                    }
                }
            },
        }
        i = i + 1;
    }
    let ghost all = views(found@);
    assert forall|d: (Seq<char>, Seq<char>)| all.contains(d) <==> #[trigger] logged(log@, tag@, d) by {
        if all.contains(d) {
            let j = choose|j: int| 0 <= j < i && #[trigger] line_denial(ls, j, tag@) == Some(d);
            assert(line_denial(crate::words::lines(log@), j, tag@) == Some(d));
        }
        if logged(log@, tag@, d) {
            let j = choose|j: int| 0 <= j < crate::words::lines(log@).len() && line_denial(
                crate::words::lines(log@),
                j,
                tag@,
            ) == Some(d);
            assert(line_denial(ls, j, tag@) == Some(d));
        }
    }
    let mut addressed = false;
    let mut k: usize = 0;
    while k < found.len()
        invariant
            k <= found@.len(),
            addressed == exists|j: int| 0 <= j < k && addressed_outbound(#[trigger] views(found@)[j]),
        decreases found.len() - k,
    {
        if is_addressed_outbound(&found[k]) {
            addressed = true;
        }
        assert(views(found@)[k as int] == found@[k as int]@);
        k = k + 1;
    }
    assert(addressed == exists|e: (Seq<char>, Seq<char>)| #[trigger] logged(log@, tag@, e) && addressed_outbound(e)) by {
        if addressed {
            let j = choose|j: int| 0 <= j < found@.len() && addressed_outbound(#[trigger] views(found@)[j]);
            assert(all.contains(all[j]));
            assert(logged(log@, tag@, all[j]));
        }
        if exists|e: (Seq<char>, Seq<char>)| #[trigger] logged(log@, tag@, e) && addressed_outbound(e) {
            let e = choose|e: (Seq<char>, Seq<char>)| #[trigger] logged(log@, tag@, e) && addressed_outbound(e);
            assert(all.contains(e));
            let j = choose|j: int| 0 <= j < all.len() && all[j] == e;
            assert(addressed_outbound(views(found@)[j]));
        }
    }
    let mut out: Vec<Denial> = Vec::new();
    let mut m: usize = 0;
    while m < found.len()
        invariant
            m <= found@.len(),
            all == views(found@),
            strictly_sorted(all),
            strictly_sorted(views(out@)),
            forall|x: int| #![trigger views(out@)[x]] 0 <= x < views(out@).len() ==> exists|j: int|
                0 <= j < m && views(out@)[x] == #[trigger] all[j],
            forall|d: (Seq<char>, Seq<char>)| views(out@).contains(d) <==> exists|j: int|
                0 <= j < m && #[trigger] all[j] == d && !(addressed && bare_outbound(d)),
        decreases found.len() - m,
    {
        let d = &found[m];
        assert(all[m as int] == d@);
        let drop = addressed && crate::text::same_text(d.operation.as_str(), "network-outbound")
            && d.target.unicode_len() == 0;
        let ghost prev = views(out@);
        if !drop {
            out.push(copy_denial(d));
            proof {
                let now = views(out@);
                assert(now =~= prev.push(d@));
                assert forall|x: int, y: int| 0 <= x < y < now.len() implies denial_less(#[trigger] now[x], #[trigger] now[y]) by {
                    if y == prev.len() {
                        let j = choose|j: int| 0 <= j < m && prev[x] == #[trigger] all[j];
                        assert(denial_less(all[j], all[m as int]));
                    } else {
                        assert(now[x] == prev[x] && now[y] == prev[y]);
                    }
                }
                assert forall|x: int| #![trigger now[x]] 0 <= x < now.len() implies exists|j: int| 0 <= j < m + 1 && now[x] == #[trigger] all[j] by {
                    if x == prev.len() {
                        assert(now[x] == all[m as int]);
                    } else {
                        let j = choose|j: int| 0 <= j < m && prev[x] == #[trigger] all[j];
                        assert(now[x] == all[j]);
                    }
                }
                assert forall|e: (Seq<char>, Seq<char>)| now.contains(e) <==> exists|j: int|
                    0 <= j < m + 1 && #[trigger] all[j] == e && !(addressed && bare_outbound(e)) by {
                    if now.contains(e) {
                        let w = choose|w: int| 0 <= w < now.len() && now[w] == e;
                        if w < prev.len() {
                            assert(prev[w] == e);
                            assert(prev.contains(e));
                        } else {
                            assert(all[m as int] == e);
                        }
                    }
                    if exists|j: int| 0 <= j < m + 1 && #[trigger] all[j] == e && !(addressed && bare_outbound(e)) {
                        let j = choose|j: int| 0 <= j < m + 1 && #[trigger] all[j] == e && !(addressed && bare_outbound(e));
                        if j < m {
                            assert(prev.contains(e));
                            let w = choose|w: int| 0 <= w < prev.len() && prev[w] == e;
                            assert(now[w] == e);
                        } else {
                            assert(now[prev.len() as int] == e);
                        }
                    }
                }
            }
        } else {
            proof {
                assert(addressed && bare_outbound(d@));
                assert forall|e: (Seq<char>, Seq<char>)| prev.contains(e) <==> exists|j: int|
                    0 <= j < m + 1 && #[trigger] all[j] == e && !(addressed && bare_outbound(e)) by {
                    if exists|j: int| 0 <= j < m + 1 && #[trigger] all[j] == e && !(addressed && bare_outbound(e)) {
                        let j = choose|j: int| 0 <= j < m + 1 && #[trigger] all[j] == e && !(addressed && bare_outbound(e));
                        if j == m {
                            assert(e == d@);
                        }
                    }
                }
                assert forall|x: int| #![trigger prev[x]] 0 <= x < prev.len() implies exists|j: int| 0 <= j < m + 1 && prev[x] == #[trigger] all[j] by {
                    let j = choose|j: int| 0 <= j < m && prev[x] == #[trigger] all[j];
                }
            }
        }
        m = m + 1;
    }
    assert forall|d: (Seq<char>, Seq<char>)| views(out@).contains(d) <==> reported(log@, tag@, d) by {
        if views(out@).contains(d) {
            let j = choose|j: int| 0 <= j < m && #[trigger] all[j] == d && !(addressed && bare_outbound(d));
            assert(all.contains(d));
        }
        if reported(log@, tag@, d) {
            assert(all.contains(d));
            let j = choose|j: int| 0 <= j < all.len() && all[j] == d;
        }
    }
    out
}

/// A refusal with the same operation and target.
pub fn copy_denial(d: &Denial) -> (r: Denial)
    ensures
        r@ == d@,
{
    Denial { operation: owned(d.operation.as_str()), target: owned(d.target.as_str()) }
}

// ---------------------------------------------------------------------------
// Advice
// ---------------------------------------------------------------------------

/// `target` is `path` or lies under it.
pub open spec fn under(target: Seq<char>, path: Seq<char>) -> bool {
    target == path || starts(target, path + "/"@)
}

/// A path the preset or `--deny-read` closes holds `target`.
pub open spec fn read_closed(target: Seq<char>, c: Closures) -> bool {
    exists|i: int| 0 <= i < c.deny_read@.len() && under(target, #[trigger] c.deny_read@[i]@)
}

/// `target` is the protected name `name`: under it when it is absolute,
/// otherwise holding `/name`.
pub open spec fn protect_hit(target: Seq<char>, name: Seq<char>) -> bool {
    if name.len() > 0 && name[0] == '/' { under(target, name) } else { contains_text(target, "/"@ + name) }
}

/// `target` is something the preset or `--protect` keeps closed inside a
/// writable mount.
pub open spec fn kept_inside(target: Seq<char>, c: Closures) -> bool {
    (exists|i: int| 0 <= i < c.repository@.len() && contains_text(target, "/.git/"@ + #[trigger] c.repository@[i]@))
        || (exists|i: int| 0 <= i < c.protect@.len() && protect_hit(target, #[trigger] c.protect@[i]@))
}

/// What `Path::parent` gives for a path: the path without its last
/// component, `None` for a root or an empty path. Its exact rules (repeated
/// and trailing separators, `.` components) are the standard library's.
pub uninterp spec fn path_parent(path: Seq<char>) -> Option<Seq<char>>;

/// `Path::new(path).parent()`, as text (a path made from a `&str` is UTF-8,
/// so nothing is lost). Without its final component a path is shorter than
/// it was.
#[verifier::external_body]
pub(crate) fn parent_of(path: &str) -> (r: Option<String>)
    ensures
        match r {
            Some(p) => path_parent(path@) == Some(p@) && p@.len() < path@.len(),
            None => path_parent(path@) is None,
        },
{
    std::path::Path::new(path).parent().map(|parent| parent.to_string_lossy().to_string())
}

/// `Path::new(path).is_dir()`: whether a directory is there now. What comes
/// back depends on the host's filesystem, so nothing is promised of it.
#[verifier::external_body]
pub(crate) fn is_directory(path: &str) -> (r: bool) {
    std::path::Path::new(path).is_dir()
}

/// The directory a `-v` grant names for a denied path: the path itself when
/// it is a directory, otherwise its parent, and `/` when it has none.
pub open spec fn grantable_directory(target: Seq<char>, target_is_dir: bool) -> Seq<char> {
    if target_is_dir {
        target
    } else {
        match path_parent(target) {
            Some(parent) => if parent.len() > 0 { parent } else { "/"@ },
            None => "/"@,
        }
    }
}

/// The `-v` grant for a denied read or write, or why none is offered.
pub open spec fn file_advice(operation: Seq<char>, target: Seq<char>, c: Closures, target_is_dir: bool) -> Seq<char> {
    if starts(operation, "file-read"@) && read_closed(target, c) {
        "closed by the preset or --deny-read; no mount reopens it (--preset none, or a preset without it, does)"@
    } else if kept_inside(target, c) {
        "protected inside the mount by the preset or --protect; no mount reopens it"@
    } else if starts(operation, "file-write"@) {
        "-v "@ + grantable_directory(target, target_is_dir)
    } else {
        "-v "@ + grantable_directory(target, target_is_dir) + ":ro"@
    }
}

/// The network flag for a denied outbound connection.
pub open spec fn outbound_advice(target: Seq<char>) -> Seq<char> {
    match strip_prefix(target, "remote:"@) {
        Some(endpoint) => match rsplit_once(endpoint, ":"@) {
            Some(halves) => "--allow-net '*:"@ + halves.1 + "'"@,
            None => "--allow-net '"@ + endpoint + "'"@,
        },
        None => if target.len() > 0 && target[0] == '/' {
            "--allow-unix "@ + target
        } else {
            "the network is closed by --allow-net; name the port to reach"@
        },
    }
}

/// A refused connection or listen: which port or host flag would have let it.
pub open spec fn network_advice(operation: Seq<char>, target: Seq<char>) -> Seq<char> {
    if operation == "network-outbound"@ {
        outbound_advice(target)
    } else if operation == "network-bind"@ || operation == "network-inbound"@ {
        match rsplit_once(target, ":"@) {
            Some(halves) => "--allow-bind "@ + halves.1,
            None => "--allow-bind <port>"@,
        }
    } else if operation == "network-socket"@ {
        "only a TCP socket leaves under --allow-net or a proxy; no flag opens another kind"@
    } else {
        "not something a flag grants"@
    }
}

/// The flag that would have allowed one refusal, or why none would.
pub open spec fn advice_text(operation: Seq<char>, target: Seq<char>, c: Closures, target_is_dir: bool) -> Seq<char> {
    if starts(operation, "file-write"@) || starts(operation, "file-read"@) {
        file_advice(operation, target, c, target_is_dir)
    } else if starts(operation, "network-"@) {
        network_advice(operation, target)
    } else if operation == "mach-lookup"@ {
        "a host service porta closes (Keychain, Launch Services, disks); no flag opens it"@
    } else if operation == "lsopen"@ {
        "open(1) would start a program outside the sandbox; porta never grants it"@
    } else if starts(operation, "sysctl"@) || starts(operation, "process-info"@) {
        "another process's details; porta never grants them"@
    } else {
        "not something a flag grants"@
    }
}

/// Whether `target` is `path` or under it.
fn is_under(target: &str, path: &str) -> (r: bool)
    ensures
        r == under(target@, path@),
{
    if crate::text::same_text(target, path) {
        return true;
    }
    let mut prefix = owned(path);
    push_char(&mut prefix, '/');
    proof { reveal_strlit("/"); }
    assert(prefix@ =~= path@ + "/"@);
    str_starts(target, prefix.as_str())
}

/// Whether a closed path holds `target`.
fn is_read_closed(target: &str, c: &Closures) -> (r: bool)
    ensures
        r == read_closed(target@, *c),
{
    let mut i: usize = 0;
    while i < c.deny_read.len()
        invariant
            i <= c.deny_read@.len(),
            forall|k: int| 0 <= k < i ==> !under(target@, #[trigger] c.deny_read@[k]@),
        decreases c.deny_read.len() - i,
    {
        if is_under(target, c.deny_read[i].as_str()) {
            return true;
        }
        i = i + 1;
    }
    false
}

/// Whether `target` is kept closed inside its mount.
fn is_kept_inside(target: &str, c: &Closures) -> (r: bool)
    ensures
        r == kept_inside(target@, *c),
{
    let mut i: usize = 0;
    while i < c.repository.len()
        invariant
            i <= c.repository@.len(),
            forall|k: int| 0 <= k < i ==> !contains_text(target@, "/.git/"@ + #[trigger] c.repository@[k]@),
        decreases c.repository.len() - i,
    {
        let mut needle = owned("/.git/");
        push_str(&mut needle, c.repository[i].as_str());
        if str_contains(target, needle.as_str()) {
            return true;
        }
        i = i + 1;
    }
    let mut j: usize = 0;
    while j < c.protect.len()
        invariant
            j <= c.protect@.len(),
            forall|k: int| 0 <= k < c.repository@.len() ==> !contains_text(target@, "/.git/"@ + #[trigger] c.repository@[k]@),
            forall|k: int| 0 <= k < j ==> !protect_hit(target@, #[trigger] c.protect@[k]@),
        decreases c.protect.len() - j,
    {
        let name = c.protect[j].as_str();
        let hit = if str_starts(name, "/") {
            proof { reveal_strlit("/"); }
            is_under(target, name)
        } else {
            let mut needle = owned("/");
            push_str(&mut needle, name);
            str_contains(target, needle.as_str())
        };
        proof {
            reveal_strlit("/");
            if name@.len() > 0 && name@[0] == '/' {
                assert(name@.subrange(0, 1) =~= "/"@);
                assert(starts(name@, "/"@));
            }
            if starts(name@, "/"@) {
                assert(name@.subrange(0, 1)[0] == '/');
            }
        }
        if hit {
            return true;
        }
        j = j + 1;
    }
    false
}

/// The directory a `-v` grant names, given whether the target is one.
fn grant_directory(target: &str, target_is_dir: bool) -> (r: String)
    ensures
        r@ == grantable_directory(target@, target_is_dir),
{
    if target_is_dir {
        return owned(target);
    }
    match parent_of(target) {
        Some(parent) => {
            if parent.unicode_len() > 0 {
                parent
            } else {
                owned("/")
            }
        },
        None => owned("/"),
    }
}

/// The advice for a file refusal.
fn file_advice_for(operation: &str, target: &str, c: &Closures, target_is_dir: bool) -> (r: String)
    ensures
        r@ == file_advice(operation@, target@, *c, target_is_dir),
{
    if str_starts(operation, "file-read") && is_read_closed(target, c) {
        return owned("closed by the preset or --deny-read; no mount reopens it (--preset none, or a preset without it, does)");
    }
    if is_kept_inside(target, c) {
        return owned("protected inside the mount by the preset or --protect; no mount reopens it");
    }
    let dir = grant_directory(target, target_is_dir);
    let mut out = owned("-v ");
    push_str(&mut out, dir.as_str());
    if !str_starts(operation, "file-write") {
        push_str(&mut out, ":ro");
    }
    out
}

/// The advice for a refused outbound connection.
fn outbound_advice_for(target: &str) -> (r: String)
    ensures
        r@ == outbound_advice(target@),
{
    let chars = chars_of(target);
    let prefix = chars_of("remote:");
    let colon: [char; 1] = [':'];
    proof { reveal_strlit(":"); }
    assert(colon@ =~= ":"@);
    match strip_prefix_of(chars.as_slice(), prefix.as_slice()) {
        Some(endpoint) => match rsplit_once_at(endpoint.as_slice(), colon.as_slice()) {
            Some((_, port)) => {
                let mut out = owned("--allow-net '*:");
                push_str(&mut out, string_of(port.as_slice()).as_str());
                push_char(&mut out, '\'');
                proof { reveal_strlit("'"); }
                assert(out@ =~= "--allow-net '*:"@ + port@ + "'"@);
                out
            },
            None => {
                let mut out = owned("--allow-net '");
                push_str(&mut out, string_of(endpoint.as_slice()).as_str());
                push_char(&mut out, '\'');
                proof { reveal_strlit("'"); }
                assert(out@ =~= "--allow-net '"@ + endpoint@ + "'"@);
                out
            },
        },
        None => {
            if chars.len() > 0 && chars[0] == '/' {
                let mut out = owned("--allow-unix ");
                push_str(&mut out, target);
                out
            } else {
                owned("the network is closed by --allow-net; name the port to reach")
            }
        },
    }
}

/// The advice for a refused connection, listen or socket.
fn network_advice_for(operation: &str, target: &str) -> (r: String)
    ensures
        r@ == network_advice(operation@, target@),
{
    if crate::text::same_text(operation, "network-outbound") {
        return outbound_advice_for(target);
    }
    if crate::text::same_text(operation, "network-bind") || crate::text::same_text(operation, "network-inbound") {
        let chars = chars_of(target);
        let colon: [char; 1] = [':'];
        proof { reveal_strlit(":"); }
        assert(colon@ =~= ":"@);
        return match rsplit_once_at(chars.as_slice(), colon.as_slice()) {
            Some((_, port)) => {
                let mut out = owned("--allow-bind ");
                push_str(&mut out, string_of(port.as_slice()).as_str());
                out
            },
            None => owned("--allow-bind <port>"),
        };
    }
    if crate::text::same_text(operation, "network-socket") {
        return owned("only a TCP socket leaves under --allow-net or a proxy; no flag opens another kind");
    }
    owned("not something a flag grants")
}

/// The flag that would have allowed `denial`, or why none would, given
/// whether its target is a directory on this host.
pub fn advice_given(denial: &Denial, closures: &Closures, target_is_dir: bool) -> (r: String)
    ensures
        r@ == advice_text(denial@.0, denial@.1, *closures, target_is_dir),
{
    let operation = denial.operation.as_str();
    let target = denial.target.as_str();
    if str_starts(operation, "file-write") || str_starts(operation, "file-read") {
        return file_advice_for(operation, target, closures, target_is_dir);
    }
    if str_starts(operation, "network-") {
        return network_advice_for(operation, target);
    }
    if crate::text::same_text(operation, "mach-lookup") {
        return owned("a host service porta closes (Keychain, Launch Services, disks); no flag opens it");
    }
    if crate::text::same_text(operation, "lsopen") {
        return owned("open(1) would start a program outside the sandbox; porta never grants it");
    }
    if str_starts(operation, "sysctl") || str_starts(operation, "process-info") {
        return owned("another process's details; porta never grants them");
    }
    owned("not something a flag grants")
}

/// The flag that would have allowed one refusal, or why none would. Whether
/// a denied path is a directory is asked of the host, so the contract holds
/// for either answer.
pub fn advice(denial: &Denial, closures: &Closures) -> (r: String)
    ensures
        exists|target_is_dir: bool| r@ == advice_text(denial@.0, denial@.1, *closures, target_is_dir),
{
    let target_is_dir = is_directory(denial.target.as_str());
    advice_given(denial, closures, target_is_dir)
}

// ---------------------------------------------------------------------------
// The footer
// ---------------------------------------------------------------------------

/// Each refusal's advice, given which targets are directories.
pub open spec fn advices(ds: Seq<(Seq<char>, Seq<char>)>, c: Closures, dirs: Seq<bool>) -> Seq<Seq<char>> {
    Seq::new(ds.len(), |i: int| advice_text(ds[i].0, ds[i].1, c, dirs[i]))
}

/// How a refusal is named in the footer: its operation, and its target if
/// it has one.
pub open spec fn what(d: (Seq<char>, Seq<char>)) -> Seq<char> {
    if d.1.len() == 0 { d.0 } else { d.0 + " "@ + d.1 }
}

/// One refusal's two lines.
pub open spec fn entry(d: (Seq<char>, Seq<char>), advice: Seq<char>) -> Seq<char> {
    "  "@ + what(d) + "\n    → "@ + advice + "\n"@
}

/// The lines of all the refusals.
pub open spec fn entries(ds: Seq<(Seq<char>, Seq<char>)>, advs: Seq<Seq<char>>) -> Seq<char>
    decreases ds.len(),
{
    if ds.len() == 0 || advs.len() < ds.len() {
        Seq::empty()
    } else {
        entries(ds.drop_last(), advs) + entry(ds.last(), advs[ds.len() - 1])
    }
}

/// The grants among the advice: each piece of advice that is a flag, once,
/// in the order it first appears.
pub open spec fn grants(advs: Seq<Seq<char>>) -> Seq<Seq<char>>
    decreases advs.len(),
{
    if advs.len() == 0 {
        Seq::empty()
    } else {
        let before = grants(advs.drop_last());
        let a = advs.last();
        if a.len() > 0 && a[0] == '-' && !before.contains(a) { before.push(a) } else { before }
    }
}

/// `rerun` with the grants put before its `--`, or at its end.
pub open spec fn with_grants(rerun: Seq<char>, grants: Seq<Seq<char>>) -> Seq<char> {
    let added = join(grants, " "@);
    match split_once(rerun, " -- "@) {
        Some(halves) => halves.0 + " "@ + added + " -- "@ + halves.1,
        None => rerun + " "@ + added,
    }
}

/// The footer's first line.
pub open spec fn footer_header(n: nat) -> Seq<char> {
    "[porta] the sandbox refused this run "@ + decimal(n) + (if n == 1 { " time"@ } else { " times"@ })
        + "; what each would have needed:\n"@
}

/// The footer porta prints after a run that was refused something, given
/// which denied targets are directories.
pub open spec fn footer_text(ds: Seq<(Seq<char>, Seq<char>)>, rerun: Seq<char>, c: Closures, dirs: Seq<bool>) -> Seq<char> {
    if ds.len() == 0 {
        Seq::empty()
    } else {
        let advs = advices(ds, c, dirs);
        let gs = grants(advs);
        footer_header(ds.len()) + entries(ds, advs) + if gs.len() > 0 && rerun.len() > 0 {
            "  to run again with those granted:\n    "@ + with_grants(rerun, gs) + "\n"@
        } else {
            Seq::empty()
        }
    }
}

/// `rerun` with `grants` inserted before its `--`, or at its end.
fn rerun_with(rerun: &str, grants: &Vec<String>) -> (r: String)
    ensures
        r@ == with_grants(rerun@, texts(grants@)),
{
    let added = join_texts(grants.as_slice(), " ");
    let chars = chars_of(rerun);
    let marker = chars_of(" -- ");
    match split_once_at(chars.as_slice(), marker.as_slice()) {
        Some((head, tail)) => {
            let mut out = string_of(head.as_slice());
            push_char(&mut out, ' ');
            push_str(&mut out, added.as_str());
            push_str(&mut out, " -- ");
            push_str(&mut out, string_of(tail.as_slice()).as_str());
            proof { reveal_strlit(" "); }
            assert(out@ =~= head@ + " "@ + added@ + " -- "@ + tail@);
            out
        },
        None => {
            let mut out = owned(rerun);
            push_char(&mut out, ' ');
            push_str(&mut out, added.as_str());
            proof { reveal_strlit(" "); }
            assert(out@ =~= rerun@ + " "@ + added@);
            out
        },
    }
}

/// Whether `list` holds a string with the text of `item`.
fn holds_text(list: &Vec<String>, item: &str) -> (r: bool)
    ensures
        r == texts(list@).contains(item@),
{
    let mut i: usize = 0;
    while i < list.len()
        invariant
            i <= list@.len(),
            forall|k: int| 0 <= k < i ==> list@[k]@ != item@,
        decreases list.len() - i,
    {
        if crate::text::same_text(list[i].as_str(), item) {
            assert(texts(list@)[i as int] == item@);
            return true;
        }
        i = i + 1;
    }
    assert(!texts(list@).contains(item@)) by {
        if texts(list@).contains(item@) {
            let k = choose|k: int| 0 <= k < texts(list@).len() && texts(list@)[k] == item@;
            assert(list@[k]@ == item@);
        }
    }
    false
}

/// The footer for `denials`, given which of their targets are directories
/// (`dirs`, one answer for each).
pub fn footer_given(denials: &[Denial], rerun: &str, closures: &Closures, dirs: &[bool]) -> (r: String)
    requires
        dirs@.len() == denials@.len(),
    ensures
        r@ == footer_text(views(denials@), rerun@, *closures, dirs@),
{
    let ghost ds = views(denials@);
    if denials.len() == 0 {
        return String::new();
    }
    let ghost advs = advices(ds, *closures, dirs@);
    let mut text = owned("[porta] the sandbox refused this run ");
    push_decimal(&mut text, denials.len() as u64);
    if denials.len() == 1 {
        push_str(&mut text, " time");
    } else {
        push_str(&mut text, " times");
    }
    push_str(&mut text, "; what each would have needed:\n");
    let ghost header = text@;
    assert(header == footer_header(ds.len()));
    let mut grant_list: Vec<String> = Vec::new();
    let mut i: usize = 0;
    assert(ds.take(0).len() == 0);
    while i < denials.len()
        invariant
            i <= denials@.len(),
            dirs@.len() == denials@.len(),
            ds == views(denials@),
            advs == advices(ds, *closures, dirs@),
            text@ == header + entries(ds.take(i as int), advs),
            texts(grant_list@) == grants(advs.take(i as int)),
        decreases denials.len() - i,
    {
        let denial = &denials[i];
        let advice_now = advice_given(denial, closures, dirs[i]);
        assert(ds[i as int] == denial@);
        assert(advice_now@ == advs[i as int]);
        push_str(&mut text, "  ");
        if denial.target.unicode_len() == 0 {
            push_str(&mut text, denial.operation.as_str());
        } else {
            push_str(&mut text, denial.operation.as_str());
            push_char(&mut text, ' ');
            push_str(&mut text, denial.target.as_str());
        }
        push_str(&mut text, "\n    → ");
        push_str(&mut text, advice_now.as_str());
        push_char(&mut text, '\n');
        proof {
            reveal_strlit(" ");
            reveal_strlit("\n");
            let t = ds.take(i + 1);
            assert(t.drop_last() =~= ds.take(i as int));
            assert(t.last() == ds[i as int]);
            assert(text@ =~= header + entries(ds.take(i as int), advs) + entry(ds[i as int], advs[i as int]));
            assert(entries(t, advs) == entries(ds.take(i as int), advs) + entry(ds[i as int], advs[i as int]));
            assert(advs.take(i + 1).drop_last() =~= advs.take(i as int));
        }
        let is_flag = advice_now.unicode_len() > 0 && str_starts(advice_now.as_str(), "-");
        proof {
            reveal_strlit("-");
            if advice_now@.len() > 0 && advice_now@[0] == '-' {
                assert(advice_now@.subrange(0, 1) =~= "-"@);
            }
            if starts(advice_now@, "-"@) {
                assert(advice_now@.subrange(0, 1)[0] == '-');
            }
        }
        if is_flag && !holds_text(&grant_list, advice_now.as_str()) {
            let ghost before = grant_list@;
            grant_list.push(advice_now);
            assert(texts(grant_list@) =~= texts(before).push(advs[i as int]));
        }
        i = i + 1;
    }
    assert(ds.take(ds.len() as int) =~= ds);
    assert(advs.take(advs.len() as int) =~= advs);
    if grant_list.len() > 0 && rerun.unicode_len() > 0 {
        push_str(&mut text, "  to run again with those granted:\n    ");
        let line = rerun_with(rerun, &grant_list);
        push_str(&mut text, line.as_str());
        push_char(&mut text, '\n');
        proof { reveal_strlit("\n"); }
        assert(text@ =~= footer_text(ds, rerun@, *closures, dirs@));
    } else {
        assert(text@ =~= footer_text(ds, rerun@, *closures, dirs@));
    }
    text
}

/// The footer porta prints after a run that was refused something: each
/// refusal with the flag it needed, then the command line to run again with
/// every grantable one added. `rerun` is that command line without them.
/// Whether each denied target is a directory is asked of the host, so the
/// contract holds whatever the answers were.
pub fn footer(denials: &[Denial], rerun: &str, closures: &Closures) -> (r: String)
    ensures
        exists|dirs: Seq<bool>| dirs.len() == denials@.len() && r@ == footer_text(views(denials@), rerun@, *closures, dirs),
{
    let mut dirs: Vec<bool> = Vec::new();
    let mut i: usize = 0;
    while i < denials.len()
        invariant
            i <= denials@.len(),
            dirs@.len() == i,
        decreases denials.len() - i,
    {
        dirs.push(is_directory(denials[i].target.as_str()));
        i = i + 1;
    }
    footer_given(denials, rerun, closures, dirs.as_slice())
}


/// The two listen refusals are network operations, not file ones.
proof fn lemma_network_operations()
    ensures
        !starts("network-inbound"@, "file-write"@) && !starts("network-inbound"@, "file-read"@),
        !starts("network-bind"@, "file-write"@) && !starts("network-bind"@, "file-read"@),
        starts("network-inbound"@, "network-"@) && starts("network-bind"@, "network-"@),
{
    reveal_strlit("network-inbound");
    reveal_strlit("network-bind");
    reveal_strlit("network-");
    reveal_strlit("file-write");
    reveal_strlit("file-read");
    assert("network-inbound"@.subrange(0, 10)[0] != "file-write"@[0]);
    assert("network-inbound"@.subrange(0, 9)[0] != "file-read"@[0]);
    assert("network-bind"@.subrange(0, 10)[0] != "file-write"@[0]);
    assert("network-bind"@.subrange(0, 9)[0] != "file-read"@[0]);
    assert("network-inbound"@.subrange(0, 8) =~= "network-"@);
    assert("network-bind"@.subrange(0, 8) =~= "network-"@);
}

/// A refused listen is advised by its port, whether the log calls it
/// `network-bind` or `network-inbound`: a refusal on `local:*:N` (`N` holding
/// no `:`) is advised `--allow-bind N`, whatever the closures.
pub proof fn law_a_refused_listen_is_advised_its_port(port: Seq<char>, c: Closures, target_is_dir: bool)
    requires
        forall|k: int| 0 <= k < port.len() ==> port[k] != ':',
    ensures
        advice_text("network-inbound"@, "local:*:"@ + port, c, target_is_dir) == "--allow-bind "@ + port,
        advice_text("network-bind"@, "local:*:"@ + port, c, target_is_dir) == "--allow-bind "@ + port,
{
    reveal_strlit("network-inbound");
    reveal_strlit("network-bind");
    reveal_strlit("network-outbound");
    reveal_strlit("network-socket");
    reveal_strlit("network-");
    reveal_strlit("file-write");
    reveal_strlit("file-read");
    reveal_strlit("local:*:");
    reveal_strlit(":");
    let t = "local:*:"@ + port;
    assert(occurs_at(t, ":"@, 7)) by {
        assert(t.subrange(7, 8) =~= ":"@);
    }
    assert forall|j: int| 7 < j implies !occurs_at(t, ":"@, j) by {
        if occurs_at(t, ":"@, j) {
            assert(t.subrange(j, j + 1)[0] == ':');
            assert(t[j] == port[j - 8]);
        }
    }
    crate::text::lemma_last_occurrence(t, ":"@, 7);
    assert(t.subrange(8, t.len() as int) =~= port);
    lemma_network_operations();
    assert("network-inbound"@ != "network-outbound"@ && "network-bind"@ != "network-outbound"@);
}

/// A refused `network-inbound` is advised exactly as a refused
/// `network-bind` on the same target, whatever the target and closures.
pub proof fn law_inbound_is_advised_as_bind(target: Seq<char>, c: Closures, target_is_dir: bool)
    ensures
        advice_text("network-inbound"@, target, c, target_is_dir) == advice_text("network-bind"@, target, c, target_is_dir),
{
    reveal_strlit("network-inbound");
    reveal_strlit("network-bind");
    reveal_strlit("network-outbound");
    reveal_strlit("network-");
    reveal_strlit("file-write");
    reveal_strlit("file-read");
    lemma_network_operations();
    assert("network-inbound"@ != "network-outbound"@ && "network-bind"@ != "network-outbound"@);
}

// ---------------------------------------------------------------------------
// The time the log is asked from
// ---------------------------------------------------------------------------

/// `k` zeros.
pub open spec fn zeros(k: int) -> Seq<char>
    decreases k,
{
    if k <= 0 {
        Seq::empty()
    } else {
        zeros(k - 1).push('0')
    }
}

/// `n` in decimal, padded with zeros after its sign to `width` characters.
pub open spec fn padded(n: int, width: int) -> Seq<char> {
    if n >= 0 {
        zeros(width - decimal(n as nat).len()) + decimal(n as nat)
    } else {
        seq!['-'] + zeros(width - 1 - decimal((-n) as nat).len()) + decimal((-n) as nat)
    }
}

/// A local time as the unified log takes it, `YYYY-MM-DD hh:mm:ss`, from the
/// fields of a C `struct tm` (years since 1900, months from 0).
pub open spec fn log_time_text(year: int, month: int, day: int, hour: int, minute: int, second: int) -> Seq<char> {
    padded(year + 1900, 4) + "-"@ + padded(month + 1, 2) + "-"@ + padded(day, 2) + " "@ + padded(hour, 2) + ":"@
        + padded(minute, 2) + ":"@ + padded(second, 2)
}

/// A number takes no more digits than it is large, plus one.
proof fn lemma_decimal_len(n: nat)
    ensures
        decimal(n).len() <= n + 1,
    decreases n,
{
    if n >= 10 {
        lemma_decimal_len(n / 10);
    }
}

fn push_zeros(out: &mut String, k: i64)
    ensures
        final(out)@ == old(out)@ + zeros(k as int),
    decreases if k > 0 { k as int } else { 0 },
{
    if k > 0 {
        push_zeros(out, k - 1);
        push_char(out, '0');
    }
}

fn push_padded(out: &mut String, n: i64, width: i64)
    requires
        -0x1_0000_0000 < n < 0x1_0000_0000,
        0 <= width <= 8,
    ensures
        final(out)@ == old(out)@ + padded(n as int, width as int),
{
    if n >= 0 {
        let digits = decimal_text(n as u64);
        let len = digits.unicode_len();
        proof { lemma_decimal_len(n as nat); }
        push_zeros(out, width - len as i64);
        push_str(out, digits.as_str());
    } else {
        let digits = decimal_text((-n) as u64);
        let len = digits.unicode_len();
        proof { lemma_decimal_len((-n) as nat); }
        push_char(out, '-');
        push_zeros(out, width - 1 - len as i64);
        push_str(out, digits.as_str());
    }
}

/// The local time the unified log is asked from, from the fields of the
/// `struct tm` the host's clock gives.
pub fn log_time(year: i32, month: i32, day: i32, hour: i32, minute: i32, second: i32) -> (r: String)
    ensures
        r@ == log_time_text(year as int, month as int, day as int, hour as int, minute as int, second as int),
{
    let mut r = String::new();
    push_padded(&mut r, year as i64 + 1900, 4);
    push_str(&mut r, "-");
    push_padded(&mut r, month as i64 + 1, 2);
    push_str(&mut r, "-");
    push_padded(&mut r, day as i64, 2);
    push_str(&mut r, " ");
    push_padded(&mut r, hour as i64, 2);
    push_str(&mut r, ":");
    push_padded(&mut r, minute as i64, 2);
    push_str(&mut r, ":");
    push_padded(&mut r, second as i64, 2);
    proof {
        reveal_strlit("-");
        reveal_strlit(" ");
        reveal_strlit(":");
    }
    r
}

} // verus!
