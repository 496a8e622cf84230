//! `--why` on Linux: the refusals of a run read back from an `strace` log
//! of the calls that failed. Each failed call is parsed, those the sandbox
//! could have refused become refusals, and a refusal the file permissions
//! would have made anyway is left for the host to rule out.

use vstd::prelude::*;
use crate::denials::{insert_sorted, strictly_sorted, views, Denial};
use crate::preset::char_index;
use crate::text::{chars_of, contains_text, occurs_at, owned, push_char, push_str, same_text, slice_chars, slices_equal, starts, string_of};
use crate::words::{
    is_space, lines, lines_of, rsplit_once, rsplit_once_at, split_once, split_once_at, strip_prefix, strip_prefix_of,
    strip_suffix, strip_suffix_of, text_less, texts, trim_start, trimmed_start,
};

verus! {

// ---------------------------------------------------------------------------
// Quoted strings and the paths a call names
// ---------------------------------------------------------------------------

/// A C string as `strace` quotes it, read from just after its opening quote:
/// the text up to the closing quote, with `\"` and `\\` unescaped and any
/// other escape kept as printed, and where the rest of the line begins (the
/// end when there is no closing quote).
pub open spec fn unquote(t: Seq<char>) -> (Seq<char>, int)
    decreases t.len(),
{
    if t.len() == 0 {
        (Seq::empty(), 0)
    } else if t[0] == '"' {
        (Seq::empty(), 1)
    } else if t[0] == '\\' {
        if t.len() == 1 {
            (Seq::empty(), 1)
        } else {
            let inner = unquote(t.subrange(2, t.len() as int));
            let c = t[1];
            (if c == '"' || c == '\\' { seq![c] } else { seq!['\\', c] } + inner.0, inner.1 + 2)
        }
    } else {
        let inner = unquote(t.drop_first());
        (seq![t[0]] + inner.0, inner.1 + 1)
    }
}

proof fn lemma_unquote_bounds(t: Seq<char>)
    ensures
        0 <= unquote(t).1 <= t.len(),
    decreases t.len(),
{
    if t.len() > 1 && t[0] == '\\' {
        lemma_unquote_bounds(t.subrange(2, t.len() as int));
    } else if t.len() > 0 && t[0] != '"' && t[0] != '\\' {
        lemma_unquote_bounds(t.drop_first());
    }
}

/// The quoted text of `s` from `start` on, and where what follows it begins.
fn unquote_from(s: &[char], start: usize) -> (r: (String, usize))
    requires
        start <= s@.len(),
    ensures
        r.0@ == unquote(s@.subrange(start as int, s@.len() as int)).0,
        r.1 == start + unquote(s@.subrange(start as int, s@.len() as int)).1,
        r.1 <= s@.len(),
{
    let mut out = String::new();
    let mut i: usize = start;
    let ghost whole = s@.subrange(start as int, s@.len() as int);
    proof { lemma_unquote_bounds(whole); }
    while i < s.len()
        invariant
            start <= i <= s@.len(),
            whole == s@.subrange(start as int, s@.len() as int),
            unquote(whole).0 == out@ + unquote(s@.subrange(i as int, s@.len() as int)).0,
            unquote(whole).1 == (i - start) + unquote(s@.subrange(i as int, s@.len() as int)).1,
        decreases s.len() - i,
    {
        let ghost t = s@.subrange(i as int, s@.len() as int);
        let c = s[i];
        assert(t[0] == c);
        if c == '"' {
            return (out, i + 1);
        }
        if c == '\\' {
            if i + 1 == s.len() {
                assert(t.len() == 1);
                return (out, s.len());
            }
            let e = s[i + 1];
            assert(t[1] == e);
            assert(t.subrange(2, t.len() as int) =~= s@.subrange(i + 2, s@.len() as int));
            let ghost before = out@;
            if e == '"' || e == '\\' {
                push_char(&mut out, e);
            } else {
                push_char(&mut out, '\\');
                push_char(&mut out, e);
            }
            proof {
                let piece = if e == '"' || e == '\\' { seq![e] } else { seq!['\\', e] };
                assert(out@ =~= before + piece);
                assert(unquote(t).0 =~= piece + unquote(s@.subrange(i + 2, s@.len() as int)).0);
            }
            i = i + 2;
        } else {
            push_char(&mut out, c);
            assert(t.drop_first() =~= s@.subrange(i + 1, s@.len() as int));
            i = i + 1;
        }
    }
    assert(s@.subrange(i as int, s@.len() as int).len() == 0);
    (out, i)
}

/// Where a quote or a `<` first occurs in `s`, or its length.
pub open spec fn quote_or_angle(s: Seq<char>) -> int
    decreases s.len(),
{
    if s.len() == 0 {
        0
    } else if s[0] == '"' || s[0] == '<' {
        0
    } else {
        1 + quote_or_angle(s.drop_first())
    }
}

proof fn lemma_quote_or_angle(s: Seq<char>)
    ensures
        0 <= quote_or_angle(s) <= s.len(),
        forall|j: int| 0 <= j < quote_or_angle(s) ==> s[j] != '"' && s[j] != '<',
        quote_or_angle(s) < s.len() ==> (s[quote_or_angle(s)] == '"' || s[quote_or_angle(s)] == '<'),
    decreases s.len(),
{
    if s.len() > 0 && s[0] != '"' && s[0] != '<' {
        lemma_quote_or_angle(s.drop_first());
        assert forall|j: int| 0 <= j < quote_or_angle(s) implies s[j] != '"' && s[j] != '<' by {
            if j > 0 {
                assert(s[j] == s.drop_first()[j - 1]);
            }
        }
    }
}

/// A quoted path made absolute against the directory printed before it.
pub open spec fn joined(base: Seq<char>, text: Seq<char>) -> Seq<char> {
    if (text.len() > 0 && text[0] == '/') || base.len() == 0 { text } else { base + seq!['/'] + text }
}

/// The paths named in `rest`, each made absolute against the directory
/// `strace` printed beside it (`AT_FDCWD</cwd>`, `3</dir>`), the last such
/// directory being `base`.
pub open spec fn paths_from(rest: Seq<char>, base: Seq<char>) -> Seq<Seq<char>>
    decreases rest.len(),
{
    let s = quote_or_angle(rest);
    if 0 <= s < rest.len() {
        let after = rest.subrange(s + 1, rest.len() as int);
        if rest[s] == '<' {
            let e = char_index(after, '>');
            if 0 <= e <= after.len() {
                paths_from(after.subrange(e, after.len() as int), after.subrange(0, e))
            } else {
                Seq::empty()
            }
        } else {
            let q = unquote(after);
            if 0 <= q.1 <= after.len() {
                seq![joined(base, q.0)] + paths_from(after.subrange(q.1, after.len() as int), Seq::empty())
            } else {
                Seq::empty()
            }
        }
    } else {
        Seq::empty()
    }
}

/// The paths a call names.
pub open spec fn call_paths(args: Seq<char>) -> Seq<Seq<char>> {
    paths_from(args, Seq::empty())
}

/// The paths a call names, each made absolute against the directory `strace`
/// printed beside it.
pub fn paths(args: &str) -> (r: Vec<String>)
    ensures
        texts(r@) == call_paths(args@),
{
    let s = chars_of(args);
    let mut found: Vec<String> = Vec::new();
    let mut base: Vec<char> = Vec::new();
    let mut pos: usize = 0;
    assert(s@.subrange(0, s@.len() as int) =~= s@);
    assert(texts(found@) =~= Seq::<Seq<char>>::empty());
    while pos < s.len()
        invariant
            pos <= s@.len(),
            s@ == args@,
            call_paths(args@) == texts(found@) + paths_from(s@.subrange(pos as int, s@.len() as int), base@),
        decreases s.len() - pos,
    {
        let ghost rest = s@.subrange(pos as int, s@.len() as int);
        proof { lemma_quote_or_angle(rest); }
        let mut k: usize = pos;
        while k < s.len() && s[k] != '"' && s[k] != '<'
            invariant
                pos <= k <= s@.len(),
                rest == s@.subrange(pos as int, s@.len() as int),
                forall|j: int| pos <= j < k ==> s@[j] != '"' && s@[j] != '<',
            decreases s.len() - k,
        {
            k = k + 1;
        }
        assert(quote_or_angle(rest) == k - pos) by {
            let w = quote_or_angle(rest);
            if w < k - pos {
                assert(rest[w] == s@[pos + w]);
            }
            if w > k - pos {
                assert(rest[k - pos] == s@[k as int]);
            }
        }
        if k == s.len() {
            assert(paths_from(rest, base@) == Seq::<Seq<char>>::empty());
            assert(texts(found@) + Seq::<Seq<char>>::empty() =~= texts(found@));
            pos = s.len();
            assert(s@.subrange(pos as int, s@.len() as int) =~= Seq::<char>::empty());
            assert(paths_from(Seq::<char>::empty(), base@) =~= Seq::<Seq<char>>::empty());
        } else {
            let ghost after = s@.subrange(k + 1, s@.len() as int);
            assert(rest.subrange((k - pos) + 1, rest.len() as int) =~= after);
            if s[k] == '<' {
                let mut e: usize = k + 1;
                while e < s.len() && s[e] != '>'
                    invariant
                        k + 1 <= e <= s@.len(),
                        forall|j: int| k + 1 <= j < e ==> s@[j] != '>',
                    decreases s.len() - e,
                {
                    e = e + 1;
                }
                proof {
                    crate::preset::lemma_char_index(after, '>');
                    let w = char_index(after, '>');
                    assert(w == e - (k + 1)) by {
                        if w < e - (k + 1) {
                            assert(after[w] == s@[k + 1 + w]);
                        }
                        if w > e - (k + 1) {
                            assert(after[e - (k + 1)] == s@[e as int]);
                        }
                    }
                    assert(after.subrange(0, w) =~= s@.subrange(k + 1, e as int));
                    assert(after.subrange(w, after.len() as int) =~= s@.subrange(e as int, s@.len() as int));
                    assert(rest[k - pos] == '<');
                    assert(paths_from(rest, base@) == paths_from(after.subrange(w, after.len() as int), after.subrange(0, w)));
                }
                base = slice_chars(s.as_slice(), k + 1, e);
                pos = e;
            } else {
                let ghost old_base = base@;
                let (text, next) = unquote_from(s.as_slice(), k + 1);
                let tc = chars_of(text.as_str());
                let item = if (tc.len() > 0 && tc[0] == '/') || base.len() == 0 {
                    text
                } else {
                    let mut joined_path = string_of(base.as_slice());
                    push_char(&mut joined_path, '/');
                    push_str(&mut joined_path, text.as_str());
                    joined_path
                };
                proof {
                    lemma_unquote_bounds(after);
                    assert(rest[k - pos] == '"');
                    assert(paths_from(rest, base@) == seq![joined(base@, unquote(after).0)] + paths_from(
                        after.subrange(unquote(after).1, after.len() as int),
                        Seq::empty(),
                    ));
                    assert(item@ =~= joined(base@, unquote(after).0));
                    assert(after.subrange(unquote(after).1, after.len() as int) =~= s@.subrange(next as int, s@.len() as int));
                }
                let ghost prev = found@;
                found.push(item);
                assert(texts(found@) =~= texts(prev).push(joined(old_base, unquote(after).0)));
                base = Vec::new();
                assert(base@ =~= Seq::<char>::empty());
                pos = next;
                assert(texts(prev) + (seq![joined(old_base, unquote(after).0)] + paths_from(s@.subrange(pos as int, s@.len() as int), Seq::empty()))
                    =~= texts(found@) + paths_from(s@.subrange(pos as int, s@.len() as int), base@));
            }
        }
    }
    assert(s@.subrange(pos as int, s@.len() as int) =~= Seq::<char>::empty());
    assert(texts(found@) + Seq::<Seq<char>>::empty() =~= texts(found@));
    found
}

// ---------------------------------------------------------------------------
// Failed calls
// ---------------------------------------------------------------------------

/// One failed call: its name, its arguments as `strace` printed them, and
/// the errno it returned.
pub struct Call {
    pub name: String,
    pub args: String,
    pub errno: String,
}

impl View for Call {
    type V = (Seq<char>, Seq<char>, Seq<char>);

    open spec fn view(&self) -> (Seq<char>, Seq<char>, Seq<char>) {
        (self.name@, self.args@, self.errno@)
    }
}

/// Where the first white space in `s` is, or its length.
pub open spec fn space_index(s: Seq<char>) -> int
    decreases s.len(),
{
    if s.len() == 0 {
        0
    } else if is_space(s[0]) {
        0
    } else {
        1 + space_index(s.drop_first())
    }
}

/// The first white space of `s` is where `space_index` says.
pub proof fn lemma_space_index_public(s: Seq<char>)
    ensures
        0 <= space_index(s) <= s.len(),
        forall|j: int| 0 <= j < space_index(s) ==> !is_space(s[j]),
        space_index(s) < s.len() ==> is_space(s[space_index(s)]),
{
    lemma_space_index(s);
}

proof fn lemma_space_index(s: Seq<char>)
    ensures
        0 <= space_index(s) <= s.len(),
        forall|j: int| 0 <= j < space_index(s) ==> !is_space(s[j]),
        space_index(s) < s.len() ==> is_space(s[space_index(s)]),
    decreases s.len(),
{
    if s.len() > 0 && !is_space(s[0]) {
        lemma_space_index(s.drop_first());
        assert forall|j: int| 0 <= j < space_index(s) implies !is_space(s[j]) by {
            if j > 0 {
                assert(s[j] == s.drop_first()[j - 1]);
            }
        }
    }
}

/// `split_whitespace().next()`: the first word of `s`.
pub open spec fn first_word(s: Seq<char>) -> Option<Seq<char>> {
    let t = trim_start(s);
    if t.len() == 0 { None } else { Some(t.subrange(0, space_index(t))) }
}

/// A failed call as `strace` prints it: `name(args) = -1 ERRNO (…)`.
pub open spec fn parsed_call(line: Seq<char>) -> Option<(Seq<char>, Seq<char>, Seq<char>)> {
    match split_once(line, "("@) {
        None => None,
        Some(h) => match rsplit_once(h.1, ") = -1 "@) {
            None => None,
            Some(g) => match first_word(g.1) {
                None => None,
                Some(errno) => Some((h.0, g.0, errno)),
            },
        },
    }
}

/// The first word of `s`.
fn first_word_of(s: &[char]) -> (r: Option<String>)
    ensures
        match r {
            Some(w) => first_word(s@) == Some(w@),
            None => first_word(s@) is None,
        },
{
    let t = trimmed_start(s);
    if t.len() == 0 {
        return None;
    }
    proof { lemma_space_index(t@); }
    let mut k: usize = 0;
    while k < t.len() && !crate::words::space(t[k])
        invariant
            k <= t@.len(),
            forall|j: int| 0 <= j < k ==> !is_space(#[trigger] t@[j]),
        decreases t.len() - k,
    {
        k = k + 1;
    }
    assert(space_index(t@) == k) by {
        let w = space_index(t@);
        if w < k {
            assert(!is_space(t@[w]));
        }
        if w > k {
            assert(is_space(t@[k as int]));
        }
    }
    Some(crate::text::slice_text(t.as_slice(), 0, k))
}

/// One failed call, if the line is one.
pub fn parse_call(line: &str) -> (r: Option<Call>)
    ensures
        match r {
            Some(c) => parsed_call(line@) == Some(c@),
            None => parsed_call(line@) is None,
        },
{
    let chars = chars_of(line);
    let open = chars_of("(");
    let marker = chars_of(") = -1 ");
    match split_once_at(chars.as_slice(), open.as_slice()) {
        None => None,
        Some((name, rest)) => match rsplit_once_at(rest.as_slice(), marker.as_slice()) {
            None => None,
            Some((args, result)) => match first_word_of(result.as_slice()) {
                None => None,
                Some(errno) => Some(Call { name: string_of(name.as_slice()), args: string_of(args.as_slice()), errno }),
            },
        },
    }
}

/// The string `strace` printed after `field`, unquoted.
pub open spec fn quoted_after(args: Seq<char>, field: Seq<char>) -> Option<Seq<char>> {
    match split_once(args, field) {
        None => None,
        Some(h) => if h.1.len() > 0 && h.1[0] == '"' { Some(unquote(h.1.drop_first()).0) } else { None },
    }
}

/// The string `strace` printed after `field`, unquoted.
pub fn quoted_field(args: &str, field: &str) -> (r: Option<String>)
    ensures
        match r {
            Some(v) => quoted_after(args@, field@) == Some(v@),
            None => quoted_after(args@, field@) is None,
        },
{
    let chars = chars_of(args);
    let f = chars_of(field);
    match split_once_at(chars.as_slice(), f.as_slice()) {
        None => None,
        Some((_, after)) => {
            if after.len() > 0 && after[0] == '"' {
                let (text, _) = unquote_from(after.as_slice(), 1);
                assert(after@.subrange(1, after@.len() as int) =~= after@.drop_first());
                Some(text)
            } else {
                None
            }
        },
    }
}

/// A path porta itself writes before the command exists: the maps of the
/// user namespace it gives the command.
pub open spec fn porta_own_path(path: Seq<char>) -> bool {
    match strip_prefix(path, "/proc/"@) {
        None => false,
        Some(rest) => {
            let parts = match split_once(rest, "/"@) {
                Some(h) => h,
                None => (rest, Seq::empty()),
            };
            let process = parts.0;
            let file = parts.1;
            let a_process = process == "self"@ || process == "thread-self"@ || crate::text::all_digits(process);
            a_process && (file == "setgroups"@ || file == "uid_map"@ || file == "gid_map"@)
        },
    }
}

/// Whether `path` is one porta itself writes.
pub fn porta_own(path: &str) -> (r: bool)
    ensures
        r == porta_own_path(path@),
{
    let chars = chars_of(path);
    let prefix = chars_of("/proc/");
    let rest = match strip_prefix_of(chars.as_slice(), prefix.as_slice()) {
        None => return false,
        Some(rest) => rest,
    };
    let slash = chars_of("/");
    let (process, file) = match split_once_at(rest.as_slice(), slash.as_slice()) {
        Some((p, f)) => (p, f),
        None => (rest, Vec::new()),
    };
    let mut digits = true;
    let mut i: usize = 0;
    while i < process.len()
        invariant
            i <= process@.len(),
            digits == forall|k: int| 0 <= k < i ==> crate::text::is_digit(#[trigger] process@[k]),
        decreases process.len() - i,
    {
        let u = process[i] as u32;
        if !(48 <= u && u <= 57) {
            digits = false;
        }
        i = i + 1;
    }
    let p = string_of(process.as_slice());
    let f = string_of(file.as_slice());
    proof { reveal_strlit(""); }
    let a_process = same_text(p.as_str(), "self") || same_text(p.as_str(), "thread-self") || digits;
    a_process && (same_text(f.as_str(), "setgroups") || same_text(f.as_str(), "uid_map") || same_text(f.as_str(), "gid_map"))
}

// ---------------------------------------------------------------------------
// A call split across two lines
// ---------------------------------------------------------------------------

/// The starts of calls `strace` split, by process: later entries replace
/// earlier ones.
pub open spec fn pending_map(v: Seq<(String, String)>) -> Map<Seq<char>, Seq<char>>
    decreases v.len(),
{
    if v.len() == 0 {
        Map::empty()
    } else {
        pending_map(v.drop_last()).insert(v.last().0@, v.last().1@)
    }
}

/// Each process is in the list once.
pub open spec fn distinct_keys(v: Seq<(String, String)>) -> bool {
    forall|a: int, b: int| 0 <= a < b < v.len() ==> v[a].0@ != v[b].0@
}

proof fn lemma_pending_domain(v: Seq<(String, String)>, k: Seq<char>)
    ensures
        pending_map(v).contains_key(k) <==> exists|i: int| 0 <= i < v.len() && v[i].0@ == k,
    decreases v.len(),
{
    if v.len() > 0 {
        lemma_pending_domain(v.drop_last(), k);
        if exists|i: int| 0 <= i < v.len() && v[i].0@ == k {
            let i = choose|i: int| 0 <= i < v.len() && v[i].0@ == k;
            if i < v.len() - 1 {
                assert(v.drop_last()[i].0@ == k);
            }
        }
        if exists|i: int| 0 <= i < v.len() - 1 && v.drop_last()[i].0@ == k {
            let i = choose|i: int| 0 <= i < v.len() - 1 && v.drop_last()[i].0@ == k;
            assert(v[i].0@ == k);
        }
    }
}

proof fn lemma_pending_at(v: Seq<(String, String)>, i: int)
    requires
        0 <= i < v.len(),
        distinct_keys(v),
    ensures
        pending_map(v).contains_key(v[i].0@),
        pending_map(v)[v[i].0@] == v[i].1@,
    decreases v.len(),
{
    if i < v.len() - 1 {
        lemma_pending_at(v.drop_last(), i);
        assert(v[i].0@ != v.last().0@);
    }
}

proof fn lemma_pending_remove(v: Seq<(String, String)>, i: int)
    requires
        0 <= i < v.len(),
        distinct_keys(v),
    ensures
        pending_map(v.remove(i)) == pending_map(v).remove(v[i].0@),
        distinct_keys(v.remove(i)),
    decreases v.len(),
{
    if i == v.len() - 1 {
        assert(v.remove(i) =~= v.drop_last());
        assert forall|k: Seq<char>| pending_map(v.drop_last()).contains_key(k) implies k != v[i].0@ by {
            lemma_pending_domain(v.drop_last(), k);
            let j = choose|j: int| 0 <= j < v.len() - 1 && v.drop_last()[j].0@ == k;
            assert(v[j].0@ == k);
        }
        assert(pending_map(v.drop_last()) =~= pending_map(v).remove(v[i].0@));
    } else {
        lemma_pending_remove(v.drop_last(), i);
        assert(v.remove(i).drop_last() =~= v.drop_last().remove(i));
        assert(v.remove(i).last() == v.last());
        assert(v[i].0@ != v.last().0@);
        assert(pending_map(v.remove(i)) =~= pending_map(v).remove(v[i].0@));
    }
    assert forall|a: int, b: int| 0 <= a < b < v.remove(i).len() implies v.remove(i)[a].0@ != v.remove(i)[b].0@ by {
        let a0 = if a < i { a } else { a + 1 };
        let b0 = if b < i { b } else { b + 1 };
        assert(v.remove(i)[a] == v[a0]);
        assert(v.remove(i)[b] == v[b0]);
    }
}

/// Takes the start recorded for `pid`, if there is one.
fn take_pending(pending: &mut Vec<(String, String)>, pid: &str) -> (r: Option<String>)
    requires
        distinct_keys(old(pending)@),
    ensures
        distinct_keys(final(pending)@),
        pending_map(final(pending)@) == pending_map(old(pending)@).remove(pid@),
        match r {
            Some(t) => pending_map(old(pending)@).contains_key(pid@) && pending_map(old(pending)@)[pid@] == t@,
            None => !pending_map(old(pending)@).contains_key(pid@),
        },
{
    let mut i: usize = 0;
    while i < pending.len()
        invariant
            i <= pending@.len(),
            pending@ == old(pending)@,
            distinct_keys(pending@),
            forall|j: int| 0 <= j < i ==> pending@[j].0@ != pid@,
        decreases pending.len() - i,
    {
        if same_text(pending[i].0.as_str(), pid) {
            proof {
                lemma_pending_at(pending@, i as int);
                lemma_pending_remove(pending@, i as int);
            }
            let (_, start) = pending.remove(i);
            return Some(start);
        }
        i = i + 1;
    }
    proof {
        lemma_pending_domain(pending@, pid@);
        assert(pending_map(pending@).remove(pid@) =~= pending_map(pending@));
    }
    None
}

/// Records the start of a call `pid` left unfinished.
fn put_pending(pending: &mut Vec<(String, String)>, pid: &str, start: String)
    requires
        distinct_keys(old(pending)@),
    ensures
        distinct_keys(final(pending)@),
        pending_map(final(pending)@) == pending_map(old(pending)@).insert(pid@, start@),
{
    let _ = take_pending(pending, pid);
    let ghost before = pending@;
    pending.push((owned(pid), start));
    proof {
        assert(pending@.drop_last() =~= before);
        assert(!pending_map(before).contains_key(pid@));
        assert forall|a: int, b: int| 0 <= a < b < pending@.len() implies pending@[a].0@ != pending@[b].0@ by {
            if b == pending@.len() - 1 {
                lemma_pending_domain(before, pid@);
                assert(before[a].0@ == pending@[a].0@);
            } else {
                assert(pending@[a] == before[a] && pending@[b] == before[b]);
            }
        }
        assert(pending_map(pending@) =~= pending_map(before).insert(pid@, pending@.last().1@));
    }
}

/// One line of the log read against the starts of unfinished calls: the
/// starts afterwards, and the failed call the line completes, if any.
pub open spec fn call_step(line: Seq<char>, pending: Map<Seq<char>, Seq<char>>) -> (
    Map<Seq<char>, Seq<char>>,
    Option<(Seq<char>, Seq<char>, Seq<char>)>,
) {
    match split_once(line, " "@) {
        None => (pending, None),
        Some(h) => {
            let pid = h.0;
            let rest = trim_start(h.1);
            match strip_suffix(rest, " <unfinished ...>"@) {
                Some(start) => (pending.insert(pid, start), None),
                None => {
                    let resumed = match strip_prefix(rest, "<... "@) {
                        Some(r) => split_once(r, " resumed>"@),
                        None => None,
                    };
                    match resumed {
                        Some(g) => {
                            let before = if pending.contains_key(pid) { pending[pid] } else { Seq::empty() };
                            (pending.remove(pid), parsed_call(before + g.1))
                        },
                        None => (pending, parsed_call(rest)),
                    }
                },
            }
        },
    }
}

/// The failed calls of the lines, in order, from the starts `pending`.
pub open spec fn calls_from(ls: Seq<Seq<char>>, pending: Map<Seq<char>, Seq<char>>) -> Seq<(Seq<char>, Seq<char>, Seq<char>)>
    decreases ls.len(),
{
    if ls.len() == 0 {
        Seq::empty()
    } else {
        let st = call_step(ls[0], pending);
        (match st.1 {
            Some(c) => seq![c],
            None => Seq::empty(),
        }) + calls_from(ls.drop_first(), st.0)
    }
}

/// The failed calls in a log, a call split across two lines put back
/// together.
pub open spec fn trace_calls(trace: Seq<char>) -> Seq<(Seq<char>, Seq<char>, Seq<char>)> {
    calls_from(lines(trace), Map::empty())
}

/// The views of some calls.
pub open spec fn call_views(cs: Seq<Call>) -> Seq<(Seq<char>, Seq<char>, Seq<char>)> {
    cs.map_values(|c: Call| c@)
}

/// The failed calls in a log, with a call `strace` split across two lines
/// (`<unfinished ...>`, then `<... name resumed>`) put back together.
pub fn calls(trace: &str) -> (r: Vec<Call>)
    ensures
        call_views(r@) == trace_calls(trace@),
{
    let text = chars_of(trace);
    let ls = lines_of(text.as_slice());
    let ghost all = ls@.map_values(|l: Vec<char>| l@);
    assert(all =~= lines(trace@));
    let mut pending: Vec<(String, String)> = Vec::new();
    let mut out: Vec<Call> = Vec::new();
    let space = chars_of(" ");
    let unfinished = chars_of(" <unfinished ...>");
    let resumed_start = chars_of("<... ");
    let resumed_end = chars_of(" resumed>");
    let mut i: usize = 0;
    assert(all.subrange(0, all.len() as int) =~= all);
    assert(call_views(out@) + calls_from(all, Map::empty()) =~= trace_calls(trace@));
    while i < ls.len()
        invariant
            i <= ls@.len(),
            all == ls@.map_values(|l: Vec<char>| l@),
            space@ == " "@,
            unfinished@ == " <unfinished ...>"@,
            resumed_start@ == "<... "@,
            resumed_end@ == " resumed>"@,
            distinct_keys(pending@),
            call_views(out@) + calls_from(all.subrange(i as int, all.len() as int), pending_map(pending@)) == trace_calls(trace@),
        decreases ls.len() - i,
    {
        let ghost rest_lines = all.subrange(i as int, all.len() as int);
        let ghost p0 = pending_map(pending@);
        let ghost st = call_step(all[i as int], p0);
        let ghost out0 = call_views(out@);
        assert(rest_lines[0] == all[i as int]);
        assert(rest_lines.drop_first() =~= all.subrange(i + 1, all.len() as int));
        assert(all[i as int] == ls@[i as int]@);
        let line = &ls[i];
        let mut found: Option<Call> = None;
        match split_once_at(line.as_slice(), space.as_slice()) {
            None => {},
            Some((pid_chars, tail)) => {
                let pid = string_of(pid_chars.as_slice());
                let rest = trimmed_start(tail.as_slice());
                match strip_suffix_of(rest.as_slice(), unfinished.as_slice()) {
                    Some(start) => {
                        put_pending(&mut pending, pid.as_str(), string_of(start.as_slice()));
                    },
                    None => {
                        let resumed = match strip_prefix_of(rest.as_slice(), resumed_start.as_slice()) {
                            Some(r) => split_once_at(r.as_slice(), resumed_end.as_slice()),
                            None => None,
                        };
                        match resumed {
                            Some((_, after)) => {
                                let before = match take_pending(&mut pending, pid.as_str()) {
                                    Some(t) => t,
                                    None => String::new(),
                                };
                                let mut whole = before;
                                push_str(&mut whole, string_of(after.as_slice()).as_str());
                                found = parse_call(whole.as_str());
                            },
                            None => {
                                found = parse_call(string_of(rest.as_slice()).as_str());
                            },
                        }
                    },
                }
            },
        }
        proof {
            assert(pending_map(pending@) == st.0);
        }
        match found {
            Some(call) => {
                out.push(call);
                assert(call_views(out@) =~= out0.push(st.1->Some_0));
                assert(out0 + (seq![st.1->Some_0] + calls_from(all.subrange(i + 1, all.len() as int), st.0))
                    =~= call_views(out@) + calls_from(all.subrange(i + 1, all.len() as int), st.0));
            },
            None => {
                assert(st.1 is None);
                assert(Seq::<(Seq<char>, Seq<char>, Seq<char>)>::empty() + calls_from(all.subrange(i + 1, all.len() as int), st.0)
                    =~= calls_from(all.subrange(i + 1, all.len() as int), st.0));
            },
        }
        i = i + 1;
    }
    assert(all.subrange(i as int, all.len() as int) =~= Seq::<Seq<char>>::empty());
    assert(call_views(out@) + Seq::<(Seq<char>, Seq<char>, Seq<char>)>::empty() =~= call_views(out@));
    out
}

// ---------------------------------------------------------------------------
// Which failed calls the sandbox refused
// ---------------------------------------------------------------------------

/// What the host still has to say about a refusal before it counts: nothing;
/// whether porta itself, outside the sandbox, may read or write `path` (if
/// it may, the policy refused it, not the permissions); or whether `path`
/// resolves to one of the credential sockets the run covered.
pub enum HostCheck {
    Nothing,
    Access { path: String, writes: bool },
    Socket { path: String },
}

/// A host check as values.
pub enum CheckView {
    Nothing,
    Access { path: Seq<char>, writes: bool },
    Socket { path: Seq<char> },
}

impl View for HostCheck {
    type V = CheckView;

    open spec fn view(&self) -> CheckView {
        match self {
            HostCheck::Nothing => CheckView::Nothing,
            HostCheck::Access { path, writes } => CheckView::Access { path: path@, writes: *writes },
            HostCheck::Socket { path } => CheckView::Socket { path: path@ },
        }
    }
}

/// A refusal the sandbox may have made, and what the host must confirm.
pub struct Candidate {
    pub denial: Denial,
    pub check: HostCheck,
}

/// The syscalls that create, remove or rename a path (the last path named).
pub open spec fn write_calls() -> Seq<Seq<char>> {
    seq![
        "mkdir"@, "mkdirat"@, "unlink"@, "unlinkat"@, "rmdir"@, "rename"@, "renameat"@, "renameat2"@, "link"@,
        "linkat"@, "symlink"@, "symlinkat"@, "mknodat"@, "truncate"@,
    ]
}

/// The syscalls that look a path up without writing it.
pub open spec fn read_calls() -> Seq<Seq<char>> {
    seq![
        "execve"@, "execveat"@, "stat"@, "lstat"@, "newfstatat"@, "statx"@, "access"@, "faccessat"@, "faccessat2"@,
        "readlink"@, "readlinkat"@, "chdir"@,
    ]
}

/// The open calls.
pub open spec fn open_calls() -> Seq<Seq<char>> {
    seq!["open"@, "openat"@, "openat2"@, "creat"@]
}

/// The errnos a policy refusal of a file call comes back with.
pub open spec fn refusal_errnos() -> Seq<Seq<char>> {
    seq!["EACCES"@, "EPERM"@, "EROFS"@, "EBUSY"@]
}

/// The flags that make an open a write.
pub open spec fn write_flags() -> Seq<Seq<char>> {
    seq!["O_WRONLY"@, "O_RDWR"@, "O_CREAT"@, "O_TRUNC"@]
}

/// A refused file call, unless porta itself writes that path.
pub open spec fn file_candidate(operation: Seq<char>, path: Seq<char>) -> Option<((Seq<char>, Seq<char>), CheckView)> {
    if porta_own_path(path) {
        None
    } else {
        Some(((operation, path), CheckView::Access { path, writes: starts(operation, "file-write"@) }))
    }
}

/// The first two pieces of `args` split at `, `, joined with a space: the
/// family and the kind of a `socket` call.
pub open spec fn socket_kind(args: Seq<char>) -> Seq<char> {
    match split_once(args, ", "@) {
        None => args,
        Some(h) => h.0 + " "@ + match split_once(h.1, ", "@) {
            Some(g) => g.0,
            None => h.1,
        },
    }
}

/// The port in `…_port=htons(N)…`.
pub open spec fn port_of(args: Seq<char>) -> Option<Seq<char>> {
    match split_once(args, "_port=htons("@) {
        None => None,
        Some(h) => {
            let piece = match split_once(h.1, "_port=htons("@) {
                Some(g) => g.0,
                None => h.1,
            };
            Some(match split_once(piece, ")"@) {
                Some(q) => q.0,
                None => piece,
            })
        },
    }
}

/// A refused connect or bind (Landlock's EACCES), a refused connection to a
/// credential socket the run covered, or a socket kind seccomp refused.
pub open spec fn network_candidate(call: (Seq<char>, Seq<char>, Seq<char>), sockets: Seq<Seq<char>>) -> Option<((Seq<char>, Seq<char>), CheckView)> {
    if call.0 == "socket"@ {
        if call.2 == "EAFNOSUPPORT"@ || call.2 == "EPROTONOSUPPORT"@ {
            Some((("network-socket"@, socket_kind(call.1)), CheckView::Nothing))
        } else {
            None
        }
    } else {
        match quoted_after(call.1, "sun_path="@) {
            Some(path) => Some((
                ("network-outbound"@, path),
                if sockets.contains(path) { CheckView::Nothing } else { CheckView::Socket { path } },
            )),
            None => if call.2 != "EACCES"@ {
                None
            } else {
                match port_of(call.1) {
                    None => None,
                    Some(port) => if call.0 == "bind"@ {
                        Some((("network-bind"@, "local:*:"@ + port), CheckView::Nothing))
                    } else {
                        Some((("network-outbound"@, "remote:*:"@ + port), CheckView::Nothing))
                    },
                }
            },
        }
    }
}

/// The port `strace` printed as `_port=htons(N)`: where that field occurs
/// once in `args` and `N` holds no `)`, the port read is `N`.
pub proof fn law_the_port_read_is_the_htons_port(prefix: Seq<char>, port: Seq<char>, suffix: Seq<char>)
    requires
        forall|k: int| 0 <= k < port.len() ==> port[k] != ')',
        forall|j: int|
            j != prefix.len() ==> !occurs_at(prefix + "_port=htons("@ + port + ")"@ + suffix, "_port=htons("@, j),
    ensures
        port_of(prefix + "_port=htons("@ + port + ")"@ + suffix) == Some(port),
{
    reveal_strlit("_port=htons(");
    reveal_strlit(")");
    let sep = "_port=htons("@;
    let args = prefix + sep + port + ")"@ + suffix;
    let n: int = prefix.len() as int;
    assert(args.subrange(n, n + 12) =~= sep);
    crate::text::lemma_first_occurrence(args, sep, n);
    let rest = args.subrange(n + 12, args.len() as int);
    assert(rest =~= port + ")"@ + suffix);
    assert forall|j: int| !occurs_at(rest, sep, j) by {
        if occurs_at(rest, sep, j) {
            assert(args.subrange(n + 12 + j, n + 12 + j + 12) =~= rest.subrange(j, j + 12));
            assert(occurs_at(args, sep, n + 12 + j));
        }
    }
    crate::text::lemma_no_occurrence(rest, sep);
    let m: int = port.len() as int;
    assert(rest.subrange(m, m + 1) =~= ")"@);
    assert forall|j: int| 0 <= j < m implies !occurs_at(rest, ")"@, j) by {
        if occurs_at(rest, ")"@, j) {
            assert(rest.subrange(j, j + 1)[0] == ')');
            assert(rest[j] == port[j]);
        }
    }
    crate::text::lemma_first_occurrence(rest, ")"@, m);
    assert(rest.subrange(0, m) =~= port);
}

/// A refused `connect` (EACCES) that names no socket path and carries a
/// port `N` is a refused outbound connection to `remote:*:N`; a refused
/// `bind` on the same arguments is a refused listen on `local:*:N`. Neither
/// waits on the host's answer.
pub proof fn law_a_refused_connect_is_outbound_to_its_port(args: Seq<char>, sockets: Seq<Seq<char>>)
    requires
        !contains_text(args, "sun_path="@),
        port_of(args) is Some,
    ensures
        candidate_of(("connect"@, args, "EACCES"@), sockets)
            == Some((("network-outbound"@, "remote:*:"@ + port_of(args).unwrap()), CheckView::Nothing)),
        candidate_of(("bind"@, args, "EACCES"@), sockets)
            == Some((("network-bind"@, "local:*:"@ + port_of(args).unwrap()), CheckView::Nothing)),
{
    reveal_strlit("connect");
    reveal_strlit("bind");
    reveal_strlit("socket");
    assert("connect"@[0] != "bind"@[0]);
    assert("connect"@.len() != "socket"@.len());
    assert("bind"@.len() != "socket"@.len());
    assert forall|j: int| !occurs_at(args, "sun_path="@, j) by {
        if occurs_at(args, "sun_path="@, j) {
            assert(contains_text(args, "sun_path="@));
        }
    }
    crate::text::lemma_no_occurrence(args, "sun_path="@);
}

/// A `connect` is never taken for a listen: whatever its arguments and
/// errno, the refusal it may be is never a `network-bind`.
pub proof fn law_a_connect_is_never_a_bind(args: Seq<char>, errno: Seq<char>, sockets: Seq<Seq<char>>)
    ensures
        match candidate_of(("connect"@, args, errno), sockets) {
            Some(c) => c.0.0 != "network-bind"@,
            None => true,
        },
{
    reveal_strlit("connect");
    reveal_strlit("bind");
    reveal_strlit("socket");
    reveal_strlit("network-bind");
    reveal_strlit("network-outbound");
    assert("connect"@[0] != "bind"@[0]);
    assert("connect"@.len() != "socket"@.len());
    assert("network-bind"@.len() != "network-outbound"@.len());
}

/// Whether some flag of `flags` occurs in `args`.
pub open spec fn any_flag(args: Seq<char>, flags: Seq<Seq<char>>) -> bool {
    exists|i: int| 0 <= i < flags.len() && contains_text(args, #[trigger] flags[i])
}

/// The refusal a failed call may be, with what the host must confirm.
pub open spec fn candidate_of(call: (Seq<char>, Seq<char>, Seq<char>), sockets: Seq<Seq<char>>) -> Option<((Seq<char>, Seq<char>), CheckView)> {
    let name = call.0;
    let paths = call_paths(call.1);
    if name == "connect"@ || name == "bind"@ || name == "socket"@ {
        network_candidate(call, sockets)
    } else if !refusal_errnos().contains(call.2) {
        None
    } else if open_calls().contains(name) {
        if paths.len() == 0 {
            None
        } else {
            let writes = name == "creat"@ || any_flag(call.1, write_flags());
            file_candidate(if writes { "file-write-data"@ } else { "file-read-data"@ }, paths[0])
        }
    } else if write_calls().contains(name) {
        if paths.len() == 0 { None } else { file_candidate("file-write-create"@, paths.last()) }
    } else if read_calls().contains(name) && call.2 == "EACCES"@ {
        if paths.len() == 0 { None } else { file_candidate("file-read-metadata"@, paths[0]) }
    } else {
        None
    }
}

/// Whether `item` is among `list`.
fn among(list: &[&str], item: &str) -> (r: bool)
    ensures
        r == list@.map_values(|s: &str| s@).contains(item@),
{
    let ghost l = list@.map_values(|s: &str| s@);
    let mut i: usize = 0;
    while i < list.len()
        invariant
            i <= list@.len(),
            l == list@.map_values(|s: &str| s@),
            forall|k: int| 0 <= k < i ==> l[k] != item@,
        decreases list.len() - i,
    {
        if same_text(list[i], item) {
            assert(l[i as int] == item@);
            return true;
        }
        i = i + 1;
    }
    assert(!l.contains(item@)) by {
        if l.contains(item@) {
            let k = choose|k: int| 0 <= k < l.len() && l[k] == item@;
        }
    }
    false
}

/// Whether any of `flags` occurs in `args`.
fn has_any(args: &str, flags: &[&str]) -> (r: bool)
    ensures
        r == any_flag(args@, flags@.map_values(|s: &str| s@)),
{
    let ghost l = flags@.map_values(|s: &str| s@);
    let mut i: usize = 0;
    while i < flags.len()
        invariant
            i <= flags@.len(),
            l == flags@.map_values(|s: &str| s@),
            forall|k: int| 0 <= k < i ==> !contains_text(args@, #[trigger] l[k]),
        decreases flags.len() - i,
    {
        if crate::words::str_contains(args, flags[i]) {
            assert(contains_text(args@, l[i as int]));
            return true;
        }
        i = i + 1;
    }
    false
}

fn file_candidate_for(operation: &str, path: String) -> (r: Option<Candidate>)
    ensures
        match r {
            Some(c) => file_candidate(operation@, path@) == Some((c.denial@, c.check@)),
            None => file_candidate(operation@, path@) is None,
        },
{
    if porta_own(path.as_str()) {
        return None;
    }
    let writes = crate::words::str_starts(operation, "file-write");
    let check = HostCheck::Access { path: owned(path.as_str()), writes };
    Some(Candidate { denial: Denial { operation: owned(operation), target: path }, check })
}

fn socket_kind_of(args: &str) -> (r: String)
    ensures
        r@ == socket_kind(args@),
{
    let chars = chars_of(args);
    let sep = chars_of(", ");
    match split_once_at(chars.as_slice(), sep.as_slice()) {
        None => owned(args),
        Some((first, rest)) => {
            let mut out = string_of(first.as_slice());
            push_str(&mut out, " ");
            match split_once_at(rest.as_slice(), sep.as_slice()) {
                Some((second, _)) => push_str(&mut out, string_of(second.as_slice()).as_str()),
                None => push_str(&mut out, string_of(rest.as_slice()).as_str()),
            }
            out
        },
    }
}

fn port_in(args: &str) -> (r: Option<String>)
    ensures
        match r {
            Some(p) => port_of(args@) == Some(p@),
            None => port_of(args@) is None,
        },
{
    let chars = chars_of(args);
    let sep = chars_of("_port=htons(");
    let close = chars_of(")");
    match split_once_at(chars.as_slice(), sep.as_slice()) {
        None => None,
        Some((_, after)) => {
            let piece = match split_once_at(after.as_slice(), sep.as_slice()) {
                Some((first, _)) => first,
                None => after,
            };
            match split_once_at(piece.as_slice(), close.as_slice()) {
                Some((port, _)) => Some(string_of(port.as_slice())),
                None => Some(string_of(piece.as_slice())),
            }
        },
    }
}

fn holds_text(list: &[String], item: &str) -> (r: bool)
    ensures
        r == texts(list@).contains(item@),
{
    let mut i: usize = 0;
    while i < list.len()
        invariant
            i <= list@.len(),
            forall|k: int| 0 <= k < i ==> list@[k]@ != item@,
        decreases list.len() - i,
    {
        if same_text(list[i].as_str(), item) {
            assert(texts(list@)[i as int] == item@);
            return true;
        }
        i = i + 1;
    }
    assert(!texts(list@).contains(item@)) by {
        if texts(list@).contains(item@) {
            let k = choose|k: int| 0 <= k < texts(list@).len() && texts(list@)[k] == item@;
            assert(list@[k]@ == item@);
        }
    }
    false
}

fn network_candidate_for(call: &Call, sockets: &[String]) -> (r: Option<Candidate>)
    ensures
        match r {
            Some(c) => network_candidate(call@, texts(sockets@)) == Some((c.denial@, c.check@)),
            None => network_candidate(call@, texts(sockets@)) is None,
        },
{
    if same_text(call.name.as_str(), "socket") {
        if same_text(call.errno.as_str(), "EAFNOSUPPORT") || same_text(call.errno.as_str(), "EPROTONOSUPPORT") {
            return Some(Candidate {
                denial: Denial { operation: owned("network-socket"), target: socket_kind_of(call.args.as_str()) },
                check: HostCheck::Nothing,
            });
        }
        return None;
    }
    match quoted_field(call.args.as_str(), "sun_path=") {
        Some(path) => {
            let check = if holds_text(sockets, path.as_str()) {
                HostCheck::Nothing
            } else {
                HostCheck::Socket { path: owned(path.as_str()) }
            };
            Some(Candidate { denial: Denial { operation: owned("network-outbound"), target: path }, check })
        },
        None => {
            if !same_text(call.errno.as_str(), "EACCES") {
                return None;
            }
            match port_in(call.args.as_str()) {
                None => None,
                Some(port) => {
                    if same_text(call.name.as_str(), "bind") {
                        Some(Candidate {
                            denial: Denial {
                                operation: owned("network-bind"),
                                target: crate::text::concat("local:*:", port.as_str()),
                            },
                            check: HostCheck::Nothing,
                        })
                    } else {
                        Some(Candidate {
                            denial: Denial {
                                operation: owned("network-outbound"),
                                target: crate::text::concat("remote:*:", port.as_str()),
                            },
                            check: HostCheck::Nothing,
                        })
                    }
                },
            }
        },
    }
}

/// The refusal a failed call may be, with what the host must still confirm;
/// `None` when the sandbox had nothing to do with it.
pub fn candidate(call: &Call, sockets: &[String]) -> (r: Option<Candidate>)
    ensures
        match r {
            Some(c) => candidate_of(call@, texts(sockets@)) == Some((c.denial@, c.check@)),
            None => candidate_of(call@, texts(sockets@)) is None,
        },
{
    let name = call.name.as_str();
    if same_text(name, "connect") || same_text(name, "bind") || same_text(name, "socket") {
        return network_candidate_for(call, sockets);
    }
    let errnos: [&str; 4] = ["EACCES", "EPERM", "EROFS", "EBUSY"];
    assert(errnos@.map_values(|s: &str| s@) =~= refusal_errnos());
    if !among(errnos.as_slice(), call.errno.as_str()) {
        return None;
    }
    let paths = paths(call.args.as_str());
    let opens: [&str; 4] = ["open", "openat", "openat2", "creat"];
    assert(opens@.map_values(|s: &str| s@) =~= open_calls());
    if among(opens.as_slice(), name) {
        if paths.len() == 0 {
            return None;
        }
        let flags: [&str; 4] = ["O_WRONLY", "O_RDWR", "O_CREAT", "O_TRUNC"];
        assert(flags@.map_values(|s: &str| s@) =~= write_flags());
        let writes = same_text(name, "creat") || has_any(call.args.as_str(), flags.as_slice());
        let path = owned(paths[0].as_str());
        assert(texts(paths@)[0] == paths@[0]@);
        return if writes {
            file_candidate_for("file-write-data", path)
        } else {
            file_candidate_for("file-read-data", path)
        };
    }
    let writes: [&str; 14] = [
        "mkdir", "mkdirat", "unlink", "unlinkat", "rmdir", "rename", "renameat", "renameat2", "link", "linkat",
        "symlink", "symlinkat", "mknodat", "truncate",
    ];
    assert(writes@.map_values(|s: &str| s@) =~= write_calls());
    if among(writes.as_slice(), name) {
        if paths.len() == 0 {
            return None;
        }
        let last = paths.len() - 1;
        assert(texts(paths@)[last as int] == paths@[last as int]@);
        return file_candidate_for("file-write-create", owned(paths[last].as_str()));
    }
    let reads: [&str; 12] = [
        "execve", "execveat", "stat", "lstat", "newfstatat", "statx", "access", "faccessat", "faccessat2", "readlink",
        "readlinkat", "chdir",
    ];
    assert(reads@.map_values(|s: &str| s@) =~= read_calls());
    if among(reads.as_slice(), name) && same_text(call.errno.as_str(), "EACCES") {
        if paths.len() == 0 {
            return None;
        }
        assert(texts(paths@)[0] == paths@[0]@);
        return file_candidate_for("file-read-metadata", owned(paths[0].as_str()));
    }
    None
}

/// The path porta asks the host about for a refused file call: for a write
/// to a path that does not exist yet, its parent (empty when it has none).
pub open spec fn asked_path(path: Seq<char>, writes: bool, exists: bool) -> Seq<char> {
    if writes && !exists {
        match crate::denials::path_parent(path) {
            Some(p) => p,
            None => Seq::empty(),
        }
    } else {
        path
    }
}

/// The path to ask the host about, given whether `path` exists.
pub fn asked_path_for(path: &str, writes: bool, exists: bool) -> (r: String)
    ensures
        r@ == asked_path(path@, writes, exists),
{
    if writes && !exists {
        match crate::denials::parent_of(path) {
            Some(p) => p,
            None => String::new(),
        }
    } else {
        owned(path)
    }
}

/// The refusals among the candidates, each once and in order: those that
/// needed no confirmation, and those the host confirmed (`confirmed`, one
/// answer for each candidate).
pub open spec fn kept(cs: Seq<Candidate>, confirmed: Seq<bool>, d: (Seq<char>, Seq<char>)) -> bool {
    exists|i: int| 0 <= i < cs.len() && (#[trigger] cs[i]).denial@ == d && (cs[i].check is Nothing || confirmed[i])
}

/// The refusals in a run's log: each candidate the host confirmed or that
/// needed no confirmation, in order and each once.
pub fn refusals_given(candidates: &[Candidate], confirmed: &[bool]) -> (r: Vec<Denial>)
    requires
        confirmed@.len() == candidates@.len(),
    ensures
        strictly_sorted(views(r@)),
        forall|d: (Seq<char>, Seq<char>)| views(r@).contains(d) <==> kept(candidates@, confirmed@, d),
{
    let mut found: Vec<Denial> = Vec::new();
    let mut i: usize = 0;
    while i < candidates.len()
        invariant
            i <= candidates@.len(),
            confirmed@.len() == candidates@.len(),
            strictly_sorted(views(found@)),
            forall|d: (Seq<char>, Seq<char>)| views(found@).contains(d) <==> kept(
                candidates@.take(i as int),
                confirmed@.take(i as int),
                d,
            ),
        decreases candidates.len() - i,
    {
        let c = &candidates[i];
        let keep = match &c.check {
            HostCheck::Nothing => true,
            _ => confirmed[i],
        };
        let ghost before = views(found@);
        let ghost cs = candidates@.take(i + 1);
        let ghost ks = confirmed@.take(i + 1);
        let ghost cs0 = candidates@.take(i as int);
        let ghost ks0 = confirmed@.take(i as int);
        assert(forall|j: int| 0 <= j < i ==> cs[j] == cs0[j] && ks[j] == ks0[j]);
        assert(cs[i as int] == candidates@[i as int] && ks[i as int] == confirmed@[i as int]);
        let ghost dv = c.denial@;
        if keep {
            let d = Denial { operation: owned(c.denial.operation.as_str()), target: owned(c.denial.target.as_str()) };
            insert_sorted(&mut found, d);
        }
        proof {
            assert forall|x: (Seq<char>, Seq<char>)| views(found@).contains(x) <==> kept(cs, ks, x) by {
                if kept(cs, ks, x) {
                    let j = choose|j: int| 0 <= j < cs.len() && (#[trigger] cs[j]).denial@ == x && (cs[j].check is Nothing || ks[j]);
                    if j < i {
                        assert(cs0[j] == cs[j]);
                        assert(kept(cs0, ks0, x));
                    }
                }
                if before.contains(x) {
                    assert(kept(cs0, ks0, x));
                    let j = choose|j: int| 0 <= j < cs0.len() && (#[trigger] cs0[j]).denial@ == x && (cs0[j].check is Nothing || ks0[j]);
                    assert(cs[j] == cs0[j]);
                }
                if keep && x == dv {
                    assert(cs[i as int].denial@ == x);
                }
            }
        }
        i = i + 1;
    }
    assert(candidates@.take(candidates@.len() as int) =~= candidates@);
    assert(confirmed@.take(confirmed@.len() as int) =~= confirmed@);
    found
}

// ---------------------------------------------------------------------------
// The footer of a traced run
// ---------------------------------------------------------------------------

/// How many refusals the footer lists before it says how many more there are.
pub const SHOWN: usize = 25;

/// The footer of a traced run, given which denied targets are directories.
pub open spec fn why_footer_text(ds: Seq<(Seq<char>, Seq<char>)>, rerun: Seq<char>, c: crate::preset::Closures, dirs: Seq<bool>) -> Seq<char> {
    if ds.len() == 0 {
        "[porta] the sandbox refused nothing this run\n"@
    } else {
        let n = if ds.len() < 25 { ds.len() as int } else { 25 };
        crate::denials::footer_text(ds.take(n), rerun, c, dirs.take(n)) + if ds.len() > 25 {
            "  … and "@ + crate::text::decimal((ds.len() - 25) as nat) + " more\n"@
        } else {
            Seq::empty()
        }
    }
}

/// The footer of a traced run: what the sandbox refused, the first of them
/// with their advice, or that it refused nothing.
pub fn why_footer_given(denials: &[Denial], rerun: &str, closures: &crate::preset::Closures, dirs: &[bool]) -> (r: String)
    requires
        dirs@.len() == denials@.len(),
    ensures
        r@ == why_footer_text(views(denials@), rerun@, *closures, dirs@),
{
    if denials.len() == 0 {
        return owned("[porta] the sandbox refused nothing this run\n");
    }
    let n = if denials.len() < SHOWN { denials.len() } else { SHOWN };
    let mut shown: Vec<Denial> = Vec::new();
    let mut shown_dirs: Vec<bool> = Vec::new();
    let mut i: usize = 0;
    while i < n
        invariant
            i <= n <= denials@.len(),
            dirs@.len() == denials@.len(),
            views(shown@) == views(denials@).take(i as int),
            shown_dirs@ == dirs@.take(i as int),
        decreases n - i,
    {
        let ghost before = shown@;
        let d = crate::denials::copy_denial(&denials[i]);
        shown.push(d);
        shown_dirs.push(dirs[i]);
        assert(shown@ == before.push(shown@.last()));
        assert(views(shown@) =~= views(before).push(denials@[i as int]@));
        assert(views(denials@).take(i + 1) =~= views(denials@).take(i as int).push(denials@[i as int]@));
        assert(views(shown@) =~= views(denials@).take(i + 1));
        assert(shown_dirs@ =~= dirs@.take(i + 1));
        i = i + 1;
    }
    let mut text = crate::denials::footer_given(shown.as_slice(), rerun, closures, shown_dirs.as_slice());
    if denials.len() > SHOWN {
        push_str(&mut text, "  … and ");
        crate::text::push_decimal(&mut text, (denials.len() - SHOWN) as u64);
        push_str(&mut text, " more\n");
    }
    text
}

/// The footer of a traced run. Whether each denied target is a directory is
/// asked of the host, so the contract holds whatever the answers were.
pub fn why_footer(denials: &[Denial], rerun: &str, closures: &crate::preset::Closures) -> (r: String)
    ensures
        exists|dirs: Seq<bool>| dirs.len() == denials@.len() && r@ == why_footer_text(views(denials@), rerun@, *closures, dirs),
{
    let mut dirs: Vec<bool> = Vec::new();
    let mut i: usize = 0;
    while i < denials.len()
        invariant
            i <= denials@.len(),
            dirs@.len() == i,
        decreases denials.len() - i,
    {
        dirs.push(crate::denials::is_directory(denials[i].target.as_str()));
        i = i + 1;
    }
    why_footer_given(denials, rerun, closures, dirs.as_slice())
}

} // verus!
