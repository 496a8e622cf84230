//! What a run closes beyond its own grants: the paths it may not read, the
//! names inside a writable mount it may not change, the Unix sockets it may
//! not reach. A preset names them and the caller adds to them; this module
//! checks each entry and merges the lists, each entry once, in order.

use vstd::prelude::*;
use crate::text::{chars_of, concat, owned, push_char, push_str};
use crate::words::{strip_prefix, strip_prefix_of, texts};

verus! {

/// Everything one run closes beyond its grants.
#[derive(Clone, Debug, PartialEq, Eq)]
pub struct Closures {
    /// Absolute paths, as the kernel resolves them, closed to reads.
    pub deny_read: Vec<String>,
    /// Names relative to each writable mount's root.
    pub protect: Vec<String>,
    /// Regular expressions over a Unix socket's path.
    pub deny_unix: Vec<String>,
    /// Names under a mount's `.git` directory that stay closed.
    pub repository: Vec<String>,
}

impl Default for Closures {
    fn default() -> (c: Self)
        ensures
            c.deny_read@.len() == 0,
            c.protect@.len() == 0,
            c.deny_unix@.len() == 0,
            c.repository@.len() == 0,
    {
        Closures { deny_read: Vec::new(), protect: Vec::new(), deny_unix: Vec::new(), repository: Vec::new() }
    }
}

// ---------------------------------------------------------------------------
// Protected names
// ---------------------------------------------------------------------------

/// `s` without the `c` characters it begins with.
pub open spec fn strip_leading(s: Seq<char>, c: char) -> Seq<char>
    decreases s.len(),
{
    if s.len() > 0 && s[0] == c { strip_leading(s.drop_first(), c) } else { s }
}

/// `s` without the `c` characters it ends with.
pub open spec fn strip_trailing(s: Seq<char>, c: char) -> Seq<char>
    decreases s.len(),
{
    if s.len() > 0 && s.last() == c { strip_trailing(s.drop_last(), c) } else { s }
}

/// `str::trim_matches(c)`.
pub open spec fn trim_char(s: Seq<char>, c: char) -> Seq<char> {
    strip_trailing(strip_leading(s, c), c)
}

/// `str::split(c)`: the pieces between the occurrences of `c`, empty ones
/// included.
pub open spec fn split_char(s: Seq<char>, c: char) -> Seq<Seq<char>>
    decreases s.len(),
{
    let i = char_index(s, c);
    if 0 <= i < s.len() {
        seq![s.subrange(0, i)] + split_char(s.subrange(i + 1, s.len() as int), c)
    } else {
        seq![s]
    }
}

/// Where `c` first occurs in `s`, or the length of `s` when it does not.
pub open spec fn char_index(s: Seq<char>, c: char) -> int
    decreases s.len(),
{
    if s.len() == 0 {
        0
    } else if s[0] == c {
        0
    } else {
        1 + char_index(s.drop_first(), c)
    }
}

pub proof fn lemma_char_index(s: Seq<char>, c: char)
    ensures
        0 <= char_index(s, c) <= s.len(),
        forall|j: int| 0 <= j < char_index(s, c) ==> s[j] != c,
        char_index(s, c) < s.len() ==> s[char_index(s, c)] == c,
    decreases s.len(),
{
    if s.len() > 0 && s[0] != c {
        lemma_char_index(s.drop_first(), c);
        assert forall|j: int| 0 <= j < char_index(s, c) implies s[j] != c by {
            if j > 0 {
                assert(s[j] == s.drop_first()[j - 1]);
            }
        }
    }
}

/// A path segment that leaves where it starts or says nothing: `..`, `.`,
/// or empty.
pub open spec fn escaping_segment(part: Seq<char>) -> bool {
    part == seq!['.', '.'] || part == seq!['.'] || part.len() == 0
}

/// What `--protect` accepts: a name that, once its slashes at either end are
/// gone, is not empty and has no segment that leaves the mount.
pub open spec fn protectable(name: Seq<char>) -> bool {
    let trimmed = trim_char(name, '/');
    trimmed.len() > 0 && !(exists|k: int| 0 <= k < split_char(trimmed, '/').len()
        && escaping_segment(#[trigger] split_char(trimmed, '/')[k]))
}

/// The refusal of a name `--protect` does not accept.
pub open spec fn protect_refusal(name: Seq<char>) -> Seq<char> {
    "--protect takes a name inside a mount, like .envrc or .github/workflows, not "@ + name
}

proof fn lemma_strip_leading_from(s: Seq<char>, c: char, i: int)
    requires
        0 <= i <= s.len(),
        forall|k: int| 0 <= k < i ==> #[trigger] s[k] == c,
    ensures
        strip_leading(s, c) == strip_leading(s.subrange(i, s.len() as int), c),
    decreases i,
{
    if i > 0 {
        lemma_strip_leading_from(s.drop_first(), c, i - 1);
        assert(s.drop_first().subrange(i - 1, s.drop_first().len() as int) =~= s.subrange(i, s.len() as int));
    } else {
        assert(s.subrange(0, s.len() as int) =~= s);
    }
}

proof fn lemma_strip_trailing_upto(s: Seq<char>, c: char, j: int)
    requires
        0 <= j <= s.len(),
        forall|k: int| j <= k < s.len() ==> #[trigger] s[k] == c,
    ensures
        strip_trailing(s, c) == strip_trailing(s.subrange(0, j), c),
    decreases s.len() - j,
{
    if j < s.len() {
        lemma_strip_trailing_upto(s.drop_last(), c, j);
        assert(s.drop_last().subrange(0, j) =~= s.subrange(0, j));
    } else {
        assert(s.subrange(0, j) =~= s);
    }
}

/// `s` without the `c` characters at either end.
fn trim_char_of(s: &[char], c: char) -> (r: Vec<char>)
    ensures
        r@ == trim_char(s@, c),
{
    let mut i: usize = 0;
    while i < s.len() && s[i] == c
        invariant
            i <= s.len(),
            forall|k: int| 0 <= k < i ==> #[trigger] s@[k] == c,
        decreases s.len() - i,
    {
        i = i + 1;
    }
    proof {
        lemma_strip_leading_from(s@, c, i as int);
    }
    let ghost t = s@.subrange(i as int, s@.len() as int);
    assert(t.len() == 0 || t[0] != c);
    assert(strip_leading(t, c) == t);
    let mut j: usize = s.len();
    while j > i && s[j - 1] == c
        invariant
            i <= j <= s.len(),
            forall|k: int| j <= k < s.len() ==> #[trigger] s@[k] == c,
        decreases j,
    {
        j = j - 1;
    }
    proof {
        lemma_strip_trailing_upto(t, c, j - i);
        assert(t.subrange(0, j - i) =~= s@.subrange(i as int, j as int));
        let u = s@.subrange(i as int, j as int);
        assert(u.len() == 0 || u.last() != c);
    }
    crate::text::slice_chars(s, i, j)
}

/// The segments of `s` between slashes: whether any of them is `..`, `.` or
/// empty, from position `start` on.
fn has_escaping_segment(s: &[char], start: usize) -> (r: bool)
    requires
        start <= s@.len(),
    ensures
        r == (exists|k: int| 0 <= k < split_char(s@.subrange(start as int, s@.len() as int), '/').len()
            && escaping_segment(#[trigger] split_char(s@.subrange(start as int, s@.len() as int), '/')[k])),
    decreases s@.len() - start,
{
    let ghost t = s@.subrange(start as int, s@.len() as int);
    let mut end: usize = start;
    while end < s.len() && s[end] != '/'
        invariant
            start <= end <= s.len(),
            forall|k: int| start <= k < end ==> #[trigger] s@[k] != '/',
        decreases s.len() - end,
    {
        end = end + 1;
    }
    let len = end - start;
    let bad = len == 0 || (len == 1 && s[start] == '.') || (len == 2 && s[start] == '.' && s[start + 1] == '.');
    let ghost part = s@.subrange(start as int, end as int);
    proof {
        if len == 1 && s@[start as int] == '.' {
            assert(part =~= seq!['.']);
        }
        if len == 2 && s@[start as int] == '.' && s@[start + 1] == '.' {
            assert(part =~= seq!['.', '.']);
        }
        if part == seq!['.'] {
            assert(part.len() == 1 && part[0] == '.');
        }
        if part == seq!['.', '.'] {
            assert(part.len() == 2 && part[0] == '.' && part[1] == '.');
        }
        assert(bad == escaping_segment(part));
    }
    if end == s.len() {
        proof {
            lemma_char_index(t, '/');
            assert(char_index(t, '/') == t.len()) by {
                let w = char_index(t, '/');
                if w < t.len() {
                    assert(s@[start + w] == '/');
                }
            }
            assert(part =~= t);
            assert(split_char(t, '/') == seq![t]);
            if bad {
                assert(escaping_segment(split_char(t, '/')[0]));
            }
        }
        bad
    } else {
        let ghost rest = s@.subrange(end + 1, s@.len() as int);
        proof {
            assert(t[end - start] == '/');
            lemma_char_index(t, '/');
            let i = char_index(t, '/');
            assert(i == end - start) by {
                if i < end - start {
                    assert(s@[start + i] == '/');
                }
                if i > end - start {
                    assert(t[end - start] == '/');
                }
            }
            assert(t.subrange(0, i) =~= part);
            assert(t.subrange(i + 1, t.len() as int) =~= rest);
            assert(split_char(t, '/') == seq![part] + split_char(rest, '/'));
        }
        let later = has_escaping_segment(s, end + 1);
        proof {
            let whole = split_char(t, '/');
            let tail = split_char(rest, '/');
            if later {
                let k = choose|k: int| 0 <= k < tail.len() && escaping_segment(#[trigger] tail[k]);
                assert(whole[k + 1] == tail[k]);
            }
            if bad {
                assert(escaping_segment(whole[0]));
            }
            if !bad && !later {
                assert forall|k: int| 0 <= k < whole.len() implies !escaping_segment(#[trigger] whole[k]) by {
                    if k > 0 {
                        assert(whole[k] == tail[k - 1]);
                    }
                }
            }
        }
        bad || later
    }
}

/// A name relative to a mount root, without a way out of it: the name with
/// its slashes at either end removed, or the refusal.
pub fn protected_name(name: &str) -> (r: Result<String, String>)
    ensures
        protectable(name@) ==> r is Ok && r->Ok_0@ == trim_char(name@, '/'),
        !protectable(name@) ==> r is Err && r->Err_0@ == protect_refusal(name@),
{
    let chars = chars_of(name);
    let trimmed = trim_char_of(chars.as_slice(), '/');
    assert(trimmed@.subrange(0, trimmed@.len() as int) =~= trimmed@);
    if trimmed.len() == 0 || has_escaping_segment(trimmed.as_slice(), 0) {
        let mut message = owned("--protect takes a name inside a mount, like .envrc or .github/workflows, not ");
        push_str(&mut message, name);
        return Err(message);
    }
    Ok(crate::text::string_of(trimmed.as_slice()))
}

// ---------------------------------------------------------------------------
// Paths closed to reads
// ---------------------------------------------------------------------------

/// What `--deny-read` makes of an entry before the kernel resolves it: `~/`
/// against the home, an absolute path as it is; anything else, or a home path
/// with no home known, refused.
pub open spec fn expanded_path(entry: Seq<char>, home: Option<Seq<char>>) -> Result<Seq<char>, Seq<char>> {
    match strip_prefix(entry, "~/"@) {
        Some(rest) => match home {
            Some(h) => Ok(h + "/"@ + rest),
            None => Err(entry + " names the home directory, and HOME is not set"@),
        },
        None => if entry.len() > 0 && entry[0] == '/' {
            Ok(entry)
        } else {
            Err("--deny-read takes an absolute path or ~/…, not "@ + entry)
        },
    }
}

/// The text of an optional string.
pub open spec fn opt_text(o: Option<&str>) -> Option<Seq<char>> {
    match o {
        Some(h) => Some(h@),
        None => None,
    }
}

/// An entry of `--deny-read` with `~/` made the home: the path to hand the
/// kernel (which then resolves its symlinks), or the refusal.
pub fn expand_deny_read(entry: &str, home: Option<&str>) -> (r: Result<String, String>)
    ensures
        match r {
            Ok(path) => expanded_path(entry@, opt_text(home)) == Ok::<Seq<char>, Seq<char>>(path@),
            Err(reason) => expanded_path(entry@, opt_text(home)) == Err::<Seq<char>, Seq<char>>(reason@),
        },
{
    let chars = chars_of(entry);
    let prefix: [char; 2] = ['~', '/'];
    proof { reveal_strlit("~/"); }
    assert(prefix@ =~= "~/"@);
    match strip_prefix_of(chars.as_slice(), prefix.as_slice()) {
        Some(rest) => match home {
            Some(h) => {
                let mut path = owned(h);
                push_char(&mut path, '/');
                let tail = crate::text::string_of(rest.as_slice());
                push_str(&mut path, tail.as_str());
                proof { reveal_strlit("/"); }
                assert(path@ =~= h@ + "/"@ + rest@);
                Ok(path)
            },
            None => Err(concat(entry, " names the home directory, and HOME is not set")),
        },
        None => {
            if chars.len() > 0 && chars[0] == '/' {
                Ok(owned(entry))
            } else {
                Err(concat("--deny-read takes an absolute path or ~/…, not ", entry))
            }
        },
    }
}

// ---------------------------------------------------------------------------
// Merging
// ---------------------------------------------------------------------------

/// Whether `pattern` compiles as a regular expression under the `regex`
/// crate's syntax (what `regex::Regex::new` accepts).
pub uninterp spec fn regex_compiles(pattern: Seq<char>) -> bool;

/// `regex::Regex::new(pattern).is_ok()`: whether the crate compiles the
/// pattern. The contract names the answer and says nothing of which patterns
/// compile, which only the crate's parser decides.
#[verifier::external_body]
fn compiles_as_regex(pattern: &str) -> (r: bool)
    ensures
        r == regex_compiles(pattern@),
{
    regex::Regex::new(pattern).is_ok()
}

/// `char::is_control`: the characters of the Unicode category Cc.
pub open spec fn is_control(c: char) -> bool {
    let u = c as u32;
    u <= 0x1F || (0x7F <= u <= 0x9F)
}

/// What `--deny-unix` accepts: a nonempty pattern without a control
/// character (which would carry a rule onto a second line) that compiles.
pub open spec fn socket_pattern_ok(pattern: Seq<char>) -> bool {
    pattern.len() > 0 && !(exists|i: int| 0 <= i < pattern.len() && is_control(#[trigger] pattern[i]))
        && regex_compiles(pattern)
}

/// How `{:?}` prints a string: quoted, with the escapes `char::escape_debug`
/// chooses, which follow Unicode's tables.
pub uninterp spec fn debug_form(s: Seq<char>) -> Seq<char>;

/// `format!("{s:?}")`.
#[verifier::external_body]
fn debug_text(s: &str) -> (r: String)
    ensures
        r@ == debug_form(s@),
{
    format!("{s:?}")
}

/// The refusal of a pattern `--deny-unix` does not accept.
pub open spec fn socket_refusal(pattern: Seq<char>) -> Seq<char> {
    "--deny-unix takes a regular expression over a socket path, not "@ + debug_form(pattern)
}

/// The distinct entries of `items`, each where it first appears.
pub open spec fn distinct(items: Seq<Seq<char>>) -> Seq<Seq<char>>
    decreases items.len(),
{
    if items.len() == 0 {
        Seq::empty()
    } else {
        let before = distinct(items.drop_last());
        if before.contains(items.last()) { before } else { before.push(items.last()) }
    }
}

/// `list` with `item` added unless it is there already.
pub fn push_unique(list: &mut Vec<String>, item: String)
    ensures
        texts(final(list)@) == if texts(old(list)@).contains(item@) {
            texts(old(list)@)
        } else {
            texts(old(list)@).push(item@)
        },
{
    let mut i: usize = 0;
    while i < list.len()
        invariant
            i <= list@.len(),
            forall|k: int| 0 <= k < i ==> list@[k]@ != item@,
        decreases list.len() - i,
    {
        if crate::text::same_text(list[i].as_str(), item.as_str()) {
            assert(texts(list@)[i as int] == item@);
            return;
        }
        i = i + 1;
    }
    proof {
        assert(!texts(list@).contains(item@)) by {
            if texts(list@).contains(item@) {
                let k = choose|k: int| 0 <= k < texts(list@).len() && texts(list@)[k] == item@;
                assert(list@[k]@ == item@);
            }
        }
    }
    let ghost before = list@;
    list.push(item);
    assert(texts(list@) =~= texts(before).push(item@));
}

/// The protected names of `names`, in order and each once, or the refusal
/// of the first that `--protect` does not accept.
pub open spec fn protect_merge(names: Seq<Seq<char>>) -> Result<Seq<Seq<char>>, Seq<char>>
    decreases names.len(),
{
    if names.len() == 0 {
        Ok(Seq::empty())
    } else {
        match protect_merge(names.drop_last()) {
            Err(e) => Err(e),
            Ok(before) => {
                let name = names.last();
                if protectable(name) {
                    let t = trim_char(name, '/');
                    Ok(if before.contains(t) { before } else { before.push(t) })
                } else {
                    Err(protect_refusal(name))
                }
            },
        }
    }
}

/// The socket patterns of `patterns`, in order and each once, or the
/// refusal of the first that `--deny-unix` does not accept.
pub open spec fn unix_merge(patterns: Seq<Seq<char>>) -> Result<Seq<Seq<char>>, Seq<char>>
    decreases patterns.len(),
{
    if patterns.len() == 0 {
        Ok(Seq::empty())
    } else {
        match unix_merge(patterns.drop_last()) {
            Err(e) => Err(e),
            Ok(before) => {
                let p = patterns.last();
                if socket_pattern_ok(p) {
                    Ok(if before.contains(p) { before } else { before.push(p) })
                } else {
                    Err(socket_refusal(p))
                }
            },
        }
    }
}

/// Whether `text` holds a control character.
fn has_control(text: &str) -> (r: bool)
    ensures
        r == (exists|i: int| 0 <= i < text@.len() && is_control(#[trigger] text@[i])),
{
    let chars = chars_of(text);
    let mut i: usize = 0;
    while i < chars.len()
        invariant
            chars@ == text@,
            i <= chars@.len(),
            forall|k: int| 0 <= k < i ==> !is_control(#[trigger] chars@[k]),
        decreases chars.len() - i,
    {
        let u = chars[i] as u32;
        if u <= 0x1F || (0x7F <= u && u <= 0x9F) {
            assert(is_control(text@[i as int]));
            return true;
        }
        i = i + 1;
    }
    false
}

/// The closures of one run: the read paths (already expanded and resolved,
/// preset first), the protected names and the socket patterns, each list in
/// order and each entry once; or the refusal of the first name or pattern
/// that is not accepted, names before patterns.
pub fn merge(read: &[String], protect: &[String], unix: &[String]) -> (r: Result<Closures, String>)
    ensures
        match (protect_merge(texts(protect@)), unix_merge(texts(unix@))) {
            (Err(e), _) => r is Err && r->Err_0@ == e,
            (Ok(_), Err(e)) => r is Err && r->Err_0@ == e,
            (Ok(names), Ok(patterns)) => r is Ok && texts(r->Ok_0.deny_read@) == distinct(texts(read@))
                && texts(r->Ok_0.protect@) == names && texts(r->Ok_0.deny_unix@) == patterns
                && r->Ok_0.repository@.len() == 0,
        },
{
    let mut deny_read: Vec<String> = Vec::new();
    let mut i: usize = 0;
    while i < read.len()
        invariant
            i <= read@.len(),
            texts(deny_read@) == distinct(texts(read@.take(i as int))),
        decreases read.len() - i,
    {
        proof {
            assert(texts(read@.take(i + 1)).drop_last() =~= texts(read@.take(i as int)));
        }
        push_unique(&mut deny_read, read[i].clone());
        i = i + 1;
    }
    assert(read@.take(read@.len() as int) =~= read@);
    let mut names: Vec<String> = Vec::new();
    let mut j: usize = 0;
    assert(texts(protect@.take(0)) =~= Seq::<Seq<char>>::empty());
    assert(texts(names@) =~= Seq::<Seq<char>>::empty());
    while j < protect.len()
        invariant
            j <= protect@.len(),
            protect_merge(texts(protect@.take(j as int))) == Ok::<Seq<Seq<char>>, Seq<char>>(texts(names@)),
        decreases protect.len() - j,
    {
        proof {
            assert(texts(protect@.take(j + 1)).drop_last() =~= texts(protect@.take(j as int)));
        }
        match protected_name(protect[j].as_str()) {
            Ok(name) => {
                push_unique(&mut names, name);
            },
            Err(reason) => {
                proof {
                    assert(texts(protect@).take(j as int) =~= texts(protect@.take(j as int)));
                    assert(texts(protect@)[j as int] == protect@[j as int]@);
                    lemma_protect_merge_fails(texts(protect@), j as int);
                }
                return Err(reason);
            },
        }
        j = j + 1;
    }
    assert(protect@.take(protect@.len() as int) =~= protect@);
    let mut patterns: Vec<String> = Vec::new();
    let mut k: usize = 0;
    assert(texts(unix@.take(0)) =~= Seq::<Seq<char>>::empty());
    assert(texts(patterns@) =~= Seq::<Seq<char>>::empty());
    while k < unix.len()
        invariant
            k <= unix@.len(),
            protect_merge(texts(protect@)) == Ok::<Seq<Seq<char>>, Seq<char>>(texts(names@)),
            unix_merge(texts(unix@.take(k as int))) == Ok::<Seq<Seq<char>>, Seq<char>>(texts(patterns@)),
        decreases unix.len() - k,
    {
        proof {
            assert(texts(unix@.take(k + 1)).drop_last() =~= texts(unix@.take(k as int)));
        }
        let pattern = unix[k].as_str();
        if pattern.unicode_len() == 0 || has_control(pattern) || !compiles_as_regex(pattern) {
            proof {
                assert(texts(unix@).take(k as int) =~= texts(unix@.take(k as int)));
                assert(texts(unix@)[k as int] == unix@[k as int]@);
                lemma_unix_merge_fails(texts(unix@), k as int);
            }
            let mut message = owned("--deny-unix takes a regular expression over a socket path, not ");
            let quoted = debug_text(pattern);
            push_str(&mut message, quoted.as_str());
            return Err(message);
        }
        push_unique(&mut patterns, unix[k].clone());
        k = k + 1;
    }
    assert(unix@.take(unix@.len() as int) =~= unix@);
    Ok(Closures { deny_read, protect: names, deny_unix: patterns, repository: Vec::new() })
}

/// A refusal at entry `j`, after every earlier one was accepted, is the
/// refusal of the whole list.
proof fn lemma_protect_merge_fails(names: Seq<Seq<char>>, j: int)
    requires
        0 <= j < names.len(),
        protect_merge(names.take(j)) is Ok,
        !protectable(names[j]),
    ensures
        protect_merge(names) == Err::<Seq<Seq<char>>, Seq<char>>(protect_refusal(names[j])),
    decreases names.len() - j,
{
    if j + 1 < names.len() {
        assert(names.drop_last().take(j) =~= names.take(j));
        lemma_protect_merge_fails(names.drop_last(), j);
    } else {
        assert(names.drop_last() =~= names.take(j));
    }
}

/// The same for socket patterns.
proof fn lemma_unix_merge_fails(patterns: Seq<Seq<char>>, k: int)
    requires
        0 <= k < patterns.len(),
        unix_merge(patterns.take(k)) is Ok,
        !socket_pattern_ok(patterns[k]),
    ensures
        unix_merge(patterns) == Err::<Seq<Seq<char>>, Seq<char>>(socket_refusal(patterns[k])),
    decreases patterns.len() - k,
{
    if k + 1 < patterns.len() {
        assert(patterns.drop_last().take(k) =~= patterns.take(k));
        lemma_unix_merge_fails(patterns.drop_last(), k);
    } else {
        assert(patterns.drop_last() =~= patterns.take(k));
    }
}

} // verus!
