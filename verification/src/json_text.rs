//! Escaping for the replies these host functions assemble by hand.
//!
//! Several host functions answer the guest with a small JSON object built by
//! formatting rather than by a serializer, and the text they embed comes from
//! a command, a response body or an OS error message. Escaping it here keeps
//! one rule for all of them, including the control characters a raw byte
//! stream can carry, which JSON cannot hold literally.

use vstd::prelude::*;
use crate::text::{chars_of, flat_map, hex_char, hex_digit, lemma_flat_map_step, push_char};

verus! {

/// How one character is written inside a JSON string: backslash, quote and
/// the three common control characters by their short escapes, any other
/// character below U+0020 as `\u00XX`, everything else as itself.
pub open spec fn json_escape_char(c: char) -> Seq<char> {
    if c == '\\' {
        seq!['\\', '\\']
    } else if c == '"' {
        seq!['\\', '"']
    } else if c == '\n' {
        seq!['\\', 'n']
    } else if c == '\r' {
        seq!['\\', 'r']
    } else if c == '\t' {
        seq!['\\', 't']
    } else if (c as u32) < 32 {
        seq!['\\', 'u', '0', '0', hex_digit((c as u32 / 16) as nat), hex_digit((c as u32 % 16) as nat)]
    } else {
        seq![c]
    }
}

/// `text` as the inside of a JSON string.
pub open spec fn json_escaped(text: Seq<char>) -> Seq<char> {
    flat_map(text, |c: char| json_escape_char(c))
}

/// An escaped text holds no character below U+0020, which a JSON string
/// cannot hold literally.
pub proof fn law_escaped_text_has_no_control_character(text: Seq<char>)
    ensures
        forall|k: int| 0 <= k < json_escaped(text).len() ==> (#[trigger] json_escaped(text)[k] as u32) >= 32,
    decreases text.len(),
{
    if text.len() > 0 {
        law_escaped_text_has_no_control_character(text.drop_last());
        let head = json_escaped(text.drop_last());
        let c = text.last();
        let tail = json_escape_char(c);
        assert(json_escaped(text) == head + tail);
        assert forall|k: int| 0 <= k < tail.len() implies (#[trigger] tail[k] as u32) >= 32 by {
            if (c as u32) < 32 && c != '\n' && c != '\r' && c != '\t' {
                let hi = (c as u32 / 16) as nat;
                let lo = (c as u32 % 16) as nat;
                assert(hi < 10 && lo < 16);
                lemma_hex_digit_printable(hi);
                lemma_hex_digit_printable(lo);
            }
        }
        assert forall|k: int| 0 <= k < json_escaped(text).len() implies (#[trigger] json_escaped(text)[k] as u32) >= 32 by {
            if k < head.len() {
                assert(json_escaped(text)[k] == head[k]);
            } else {
                assert(json_escaped(text)[k] == tail[k - head.len()]);
            }
        }
    }
}

proof fn lemma_hex_digit_printable(d: nat)
    requires
        d < 16,
    ensures
        (hex_digit(d) as u32) >= 48,
{
}

/// The value of a hexadecimal digit, either case.
pub open spec fn hex_value(c: char) -> Option<nat> {
    let u = c as u32;
    if 48 <= u <= 57 {
        Some((u - 48) as nat)
    } else if 97 <= u <= 102 {
        Some((u - 87) as nat)
    } else if 65 <= u <= 70 {
        Some((u - 55) as nat)
    } else {
        None
    }
}

/// The character a `\uXXXX` escape names, where its four digits are
/// hexadecimal and name a character on their own (not half a surrogate pair).
pub open spec fn unicode_escape(a: char, b: char, c: char, d: char) -> Option<char> {
    match (hex_value(a), hex_value(b), hex_value(c), hex_value(d)) {
        (Some(w), Some(x), Some(y), Some(z)) => {
            let v = w * 4096 + x * 256 + y * 16 + z;
            if v < 0xD800 || v > 0xDFFF { Some((v as u32) as char) } else { None }
        },
        _ => None,
    }
}

/// What a JSON parser reads from the inside of a JSON string: the text its
/// escapes stand for (`\\`, `\"`, `\/`, `\b`, `\f`, `\n`, `\r`, `\t` and
/// `\uXXXX`), or none where it is not the inside of a JSON string (a bare
/// quote, a control character, an unknown or cut escape).
pub open spec fn json_unescaped(t: Seq<char>) -> Option<Seq<char>>
    decreases t.len(),
{
    if t.len() == 0 {
        Some(Seq::empty())
    } else if t[0] == '\\' {
        if t.len() < 2 {
            None
        } else {
            let e = t[1];
            let one = if e == '\\' { Some('\\') } else if e == '"' { Some('"') } else if e == '/' { Some('/') }
                else if e == 'b' { Some('\x08') } else if e == 'f' { Some('\x0c') } else if e == 'n' { Some('\n') }
                else if e == 'r' { Some('\r') } else if e == 't' { Some('\t') } else { None };
            match one {
                Some(c) => match json_unescaped(t.skip(2)) {
                    Some(rest) => Some(seq![c] + rest),
                    None => None,
                },
                None => if e == 'u' && t.len() >= 6 {
                    match unicode_escape(t[2], t[3], t[4], t[5]) {
                        Some(c) => match json_unescaped(t.skip(6)) {
                            Some(rest) => Some(seq![c] + rest),
                            None => None,
                        },
                        None => None,
                    }
                } else {
                    None
                },
            }
        }
    } else if t[0] == '"' || (t[0] as u32) < 32 {
        None
    } else {
        match json_unescaped(t.skip(1)) {
            Some(rest) => Some(seq![t[0]] + rest),
            None => None,
        }
    }
}

/// Escaping a text puts one character's escape in front of the rest's.
proof fn lemma_escaped_front(text: Seq<char>)
    requires
        text.len() > 0,
    ensures
        json_escaped(text) == json_escape_char(text[0]) + json_escaped(text.drop_first()),
    decreases text.len(),
{
    if text.len() > 1 {
        lemma_escaped_front(text.drop_last());
        assert(text.drop_last().drop_first() =~= text.drop_first().drop_last());
        assert(text.drop_first().last() == text.last());
    } else {
        assert(text.drop_last() =~= Seq::<char>::empty());
        assert(text.drop_first() =~= Seq::<char>::empty());
    }
}

/// One character's escape read back in front of any text: the character,
/// then whatever the text reads as.
proof fn lemma_escape_char_reads_back(c: char, rest: Seq<char>)
    ensures
        json_unescaped(json_escape_char(c) + rest) == match json_unescaped(rest) {
            Some(r) => Some(seq![c] + r),
            None => None::<Seq<char>>,
        },
{
    let t = json_escape_char(c) + rest;
    let e = json_escape_char(c);
    if c == '\\' || c == '"' || c == '\n' || c == '\r' || c == '\t' {
        assert(t[0] == '\\' && t[1] == e[1]);
        assert(t.skip(2) =~= rest);
    } else if (c as u32) < 32 {
        let hi = (c as u32 / 16) as nat;
        let lo = (c as u32 % 16) as nat;
        assert(t[0] == '\\' && t[1] == 'u' && t[2] == '0' && t[3] == '0');
        assert(t[4] == hex_digit(hi) && t[5] == hex_digit(lo));
        assert(hex_value('0') == Some(0nat));
        assert(hi < 2 && lo < 16);
        assert(hex_value(hex_digit(hi)) == Some(hi));
        assert(hex_value(hex_digit(lo)) == Some(lo));
        assert(hi * 16 + lo == c as u32);
        assert(((c as u32) as u32) as char == c);
        assert(t.skip(6) =~= rest);
    } else {
        assert(t[0] == c);
        assert(t.skip(1) =~= rest);
    }
}

/// Escaping round-trips: a JSON parser reads an escaped text back as the
/// text itself, whatever characters it holds.
pub proof fn law_escaped_text_reads_back(text: Seq<char>)
    ensures
        json_unescaped(json_escaped(text)) == Some(text),
    decreases text.len(),
{
    if text.len() == 0 {
        assert(json_escaped(text) =~= Seq::<char>::empty());
    } else {
        lemma_escaped_front(text);
        law_escaped_text_reads_back(text.drop_first());
        lemma_escape_char_reads_back(text[0], json_escaped(text.drop_first()));
        assert(seq![text[0]] + text.drop_first() =~= text);
    }
}

/// Appends the escaped form of one character.
pub fn push_json_escaped_char(out: &mut String, c: char)
    ensures
        final(out)@ == old(out)@ + json_escape_char(c),
{
    let code = c as u32;
    if c == '\\' {
        push_char(out, '\\');
        push_char(out, '\\');
    } else if c == '"' {
        push_char(out, '\\');
        push_char(out, '"');
    } else if c == '\n' {
        push_char(out, '\\');
        push_char(out, 'n');
    } else if c == '\r' {
        push_char(out, '\\');
        push_char(out, 'r');
    } else if c == '\t' {
        push_char(out, '\\');
        push_char(out, 't');
    } else if code < 32 {
        push_char(out, '\\');
        push_char(out, 'u');
        push_char(out, '0');
        push_char(out, '0');
        push_char(out, hex_char(code / 16));
        push_char(out, hex_char(code % 16));
    } else {
        push_char(out, c);
    }
    assert(final(out)@ =~= old(out)@ + json_escape_char(c));
}

/// Appends `text`, escaped for a JSON string, to `out`.
pub fn push_json_escaped(out: &mut String, text: &str)
    ensures
        final(out)@ == old(out)@ + json_escaped(text@),
{
    let chars = chars_of(text);
    let ghost start = out@;
    let mut i: usize = 0;
    while i < chars.len()
        invariant
            i <= chars@.len(),
            chars@ == text@,
            out@ == start + json_escaped(chars@.take(i as int)),
        decreases chars.len() - i,
    {
        proof { lemma_flat_map_step(chars@, |c: char| json_escape_char(c), i as int); }
        push_json_escaped_char(out, chars[i]);
        i = i + 1;
        assert(out@ =~= start + json_escaped(chars@.take(i as int)));
    }
    assert(chars@.take(chars@.len() as int) =~= text@);
}

/// Escapes a string for embedding between double quotes in JSON.
pub fn escape_json_text(text: &str) -> (escaped: String)
    ensures
        escaped@ == json_escaped(text@),
{
    let mut escaped = String::new();
    push_json_escaped(&mut escaped, text);
    assert(escaped@ =~= json_escaped(text@));
    escaped
}

/// `text` as a JSON string, quotes included.
pub open spec fn json_quoted(text: Seq<char>) -> Seq<char> {
    seq!['"'] + json_escaped(text) + seq!['"']
}

/// Appends `text` as a quoted JSON string.
pub fn push_json_quoted(out: &mut String, text: &str)
    ensures
        final(out)@ == old(out)@ + json_quoted(text@),
{
    push_char(out, '"');
    push_json_escaped(out, text);
    push_char(out, '"');
    assert(final(out)@ =~= old(out)@ + json_quoted(text@));
}

/// `items` as a JSON array of strings.
pub open spec fn json_array(items: Seq<Seq<char>>) -> Seq<char> {
    seq!['['] + crate::words::join(items.map_values(|t: Seq<char>| json_quoted(t)), seq![',']) + seq![']']
}

/// Appends `items` as a JSON array of strings.
pub fn push_json_array(out: &mut String, items: &[String])
    ensures
        final(out)@ == old(out)@ + json_array(crate::words::texts(items@)),
{
    let ghost start = out@;
    let ghost quoted = crate::words::texts(items@).map_values(|t: Seq<char>| json_quoted(t));
    push_char(out, '[');
    let mut i: usize = 0;
    while i < items.len()
        invariant
            i <= items@.len(),
            quoted == crate::words::texts(items@).map_values(|t: Seq<char>| json_quoted(t)),
            out@ == start + seq!['['] + crate::words::join(quoted.take(i as int), seq![',']),
        decreases items.len() - i,
    {
        let ghost before = out@;
        if i > 0 {
            push_char(out, ',');
        }
        push_json_quoted(out, items[i].as_str());
        proof {
            let t = quoted.take(i + 1);
            assert(t.drop_last() =~= quoted.take(i as int));
            assert(t.last() == json_quoted(items@[i as int]@));
            if i == 0 {
                assert(t.len() == 1);
                assert(crate::words::join(quoted.take(0), seq![',']) =~= Seq::<char>::empty());
            }
            assert(out@ =~= start + seq!['['] + crate::words::join(t, seq![',']));
        }
        i = i + 1;
    }
    push_char(out, ']');
    assert(quoted.take(quoted.len() as int) =~= quoted);
    assert(final(out)@ =~= start + json_array(crate::words::texts(items@)));
}

/// What `serde_json` reads from `text` as an array of strings, or the text
/// of its error where the text is not one.
pub uninterp spec fn parsed_strings(text: Seq<char>) -> Result<Seq<Seq<char>>, Seq<char>>;

/// The strings `text` lists as a JSON array, if it is one.
pub open spec fn string_list(text: Seq<char>) -> Option<Seq<Seq<char>>> {
    match parsed_strings(text) {
        Ok(l) => Some(l),
        Err(_) => None,
    }
}

/// `serde_json::from_str::<Vec<String>>`, its error as its message. What the
/// parse accepts, yields and says of a failure is serde_json's (JSON text,
/// escapes decoded); the contract names it.
#[verifier::external_body]
pub(crate) fn parse_string_list(text: &str) -> (r: Result<Vec<String>, String>)
    ensures
        match r {
            Ok(v) => parsed_strings(text@) == Ok::<Seq<Seq<char>>, Seq<char>>(crate::words::texts(v@)),
            Err(e) => parsed_strings(text@) == Err::<Seq<Seq<char>>, Seq<char>>(e@),
        },
{
    serde_json::from_str::<Vec<String>>(text).map_err(|error| error.to_string())
}

/// The strings `text` lists, or none where it is not such a list.
pub open spec fn listed(text: Seq<char>) -> Seq<Seq<char>> {
    match string_list(text) {
        Some(l) => l,
        None => Seq::empty(),
    }
}

} // verus!
