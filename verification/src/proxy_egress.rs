//! What the loopback proxy needs beyond matching a hostname: the per-run
//! credential its client presents, and the address guard that keeps an
//! allowed name from carrying the client somewhere it must not reach. The
//! random token and the resolution of names are the host's.

use vstd::prelude::*;
use crate::text::{owned, push_char, push_str};
use crate::words::{join, texts};

verus! {

/// A byte as two lowercase hexadecimal digits.
pub open spec fn hex_byte(b: u8) -> Seq<char> {
    seq![crate::text::hex_digit((b / 16) as nat), crate::text::hex_digit((b % 16) as nat)]
}

/// Bytes as lowercase hexadecimal, two digits each.
pub open spec fn hex_text(bytes: Seq<u8>) -> Seq<char>
    decreases bytes.len(),
{
    if bytes.len() == 0 {
        Seq::empty()
    } else {
        hex_text(bytes.drop_last()) + hex_byte(bytes.last())
    }
}

/// A run's proxy token: 32 lowercase hexadecimal digits.
pub open spec fn token_shaped(t: Seq<char>) -> bool {
    t.len() == 32 && forall|k: int| 0 <= k < t.len() ==> ('0' <= #[trigger] t[k] <= '9' || 'a' <= t[k] <= 'f')
}

proof fn lemma_hex_text_shape(bytes: Seq<u8>)
    ensures
        hex_text(bytes).len() == 2 * bytes.len(),
        forall|k: int| 0 <= k < hex_text(bytes).len() ==> ('0' <= #[trigger] hex_text(bytes)[k] <= '9' || 'a'
            <= hex_text(bytes)[k] <= 'f'),
    decreases bytes.len(),
{
    if bytes.len() > 0 {
        lemma_hex_text_shape(bytes.drop_last());
        let head = hex_text(bytes.drop_last());
        let tail = hex_byte(bytes.last());
        let b = bytes.last();
        assert((b / 16) < 16 && (b % 16) < 16);
        assert forall|k: int| 0 <= k < tail.len() implies ('0' <= #[trigger] tail[k] <= '9' || 'a' <= tail[k] <= 'f') by {
            let d: nat = if k == 0 { (b / 16) as nat } else { (b % 16) as nat };
            assert(tail[k] == crate::text::hex_digit(d));
            if d < 10 {
                assert(crate::text::hex_digit(d) == crate::text::digit_char(d));
            }
        }
        assert forall|k: int| 0 <= k < hex_text(bytes).len() implies ('0' <= #[trigger] hex_text(bytes)[k] <= '9' || 'a'
            <= hex_text(bytes)[k] <= 'f') by {
            if k < head.len() {
                assert(hex_text(bytes)[k] == head[k]);
            } else {
                assert(hex_text(bytes)[k] == tail[k - head.len()]);
            }
        }
    }
}

/// The token a run's proxy credential is made from: sixteen random bytes
/// (drawn by the host from the kernel's random source) written as 32
/// lowercase hexadecimal digits.
pub fn mint_token(random: &[u8; 16]) -> (r: String)
    ensures
        r@ == hex_text(random@),
        token_shaped(r@),
{
    let mut r = String::new();
    let mut i: usize = 0;
    while i < 16
        invariant
            i <= 16,
            random@.len() == 16,
            r@ == hex_text(random@.take(i as int)),
        decreases 16 - i,
    {
        let b = random[i];
        push_char(&mut r, crate::text::hex_char((b / 16) as u32));
        push_char(&mut r, crate::text::hex_char((b % 16) as u32));
        proof {
            assert(random@.take(i + 1).drop_last() =~= random@.take(i as int));
            assert(r@ =~= hex_text(random@.take(i + 1)));
        }
        i = i + 1;
    }
    proof {
        assert(random@.take(16) =~= random@);
        lemma_hex_text_shape(random@);
    }
    r
}

// ---------------------------------------------------------------------------
// The credential
// ---------------------------------------------------------------------------

/// The base64 digit for `v` (`v < 64`) of the standard alphabet.
pub open spec fn b64_digit(v: int) -> char {
    if v < 26 {
        (65 + v) as char
    } else if v < 52 {
        (71 + v) as char
    } else if v < 62 {
        (v - 4) as char
    } else if v == 62 {
        '+'
    } else {
        '/'
    }
}

/// The four characters for a chunk of `n` bytes (`1 <= n <= 3`) `a b c`, the
/// missing bytes zero and the missing digits padded with `=`.
pub open spec fn b64_quad(a: int, b: int, c: int, n: int) -> Seq<char> {
    seq![
        b64_digit(a / 4),
        b64_digit((a % 4) * 16 + b / 16),
        if n >= 2 { b64_digit((b % 16) * 4 + c / 64) } else { '=' },
        if n >= 3 { b64_digit(c % 64) } else { '=' },
    ]
}

/// Standard base64 with padding.
pub open spec fn base64(input: Seq<u8>) -> Seq<char>
    decreases input.len(),
{
    if input.len() == 0 {
        Seq::empty()
    } else if input.len() >= 3 {
        b64_quad(input[0] as int, input[1] as int, input[2] as int, 3) + base64(
            input.subrange(3, input.len() as int),
        )
    } else if input.len() == 2 {
        b64_quad(input[0] as int, input[1] as int, 0, 2)
    } else {
        b64_quad(input[0] as int, 0, 0, 1)
    }
}

fn b64_char(v: u8) -> (c: char)
    requires
        v < 64,
    ensures
        c == b64_digit(v as int),
{
    if v < 26 {
        (65u8 + v) as char
    } else if v < 52 {
        (71u8 + v) as char
    } else if v < 62 {
        (v - 4) as char
    } else if v == 62 {
        '+'
    } else {
        '/'
    }
}

fn push_quad(out: &mut String, a: u8, b: u8, c: u8, n: u8)
    requires
        1 <= n <= 3,
    ensures
        final(out)@ == old(out)@ + b64_quad(a as int, b as int, c as int, n as int),
{
    push_char(out, b64_char(a / 4));
    push_char(out, b64_char((a % 4) * 16 + b / 16));
    if n >= 2 {
        push_char(out, b64_char((b % 16) * 4 + c / 64));
    } else {
        push_char(out, '=');
    }
    if n >= 3 {
        push_char(out, b64_char(c % 64));
    } else {
        push_char(out, '=');
    }
    assert(final(out)@ =~= old(out)@ + b64_quad(a as int, b as int, c as int, n as int));
}

/// Standard base64 with padding.
pub fn encode_base64(input: &[u8]) -> (r: String)
    ensures
        r@ == base64(input@),
{
    let mut out = String::new();
    let mut i: usize = 0;
    let n = input.len();
    assert(input@.subrange(0, n as int) =~= input@);
    assert(out@ + base64(input@) =~= base64(input@));
    while n - i >= 3
        invariant
            n == input@.len(),
            i <= n,
            out@ + base64(input@.subrange(i as int, n as int)) == base64(input@),
        decreases n - i,
    {
        let ghost rest = input@.subrange(i as int, n as int);
        push_quad(&mut out, input[i], input[i + 1], input[i + 2], 3);
        proof {
            assert(rest.subrange(3, rest.len() as int) =~= input@.subrange(i + 3, n as int));
            assert(base64(rest) == b64_quad(rest[0] as int, rest[1] as int, rest[2] as int, 3) + base64(
                input@.subrange(i + 3, n as int),
            ));
            assert(out@ + base64(input@.subrange(i + 3, n as int)) =~= base64(input@));
        }
        i = i + 3;
    }
    let ghost rest = input@.subrange(i as int, n as int);
    if n - i == 2 {
        push_quad(&mut out, input[i], input[i + 1], 0, 2);
    } else if n - i == 1 {
        push_quad(&mut out, input[i], 0, 0, 1);
    }
    proof {
        if n - i == 0 {
            assert(rest.len() == 0);
        }
        assert(out@ =~= base64(input@));
    }
    out
}

/// The credential a client puts on the wire for `porta:<token>`.
pub open spec fn basic_text(token: Seq<char>) -> Seq<char> {
    "Basic "@ + base64(vstd::utf8::encode_utf8("porta:"@ + token))
}

/// `Basic` credentials for `porta:<token>`, as a client puts them on the wire.
pub fn basic_credential(token: &str) -> (r: String)
    ensures
        r@ == basic_text(token@),
{
    let mut user = owned("porta:");
    push_str(&mut user, token);
    let bytes = user.as_str().as_bytes();
    let mut r = owned("Basic ");
    push_str(&mut r, encode_base64(bytes).as_str());
    r
}

// ---------------------------------------------------------------------------
// The address guard
// ---------------------------------------------------------------------------

/// An address a name resolved to: the four octets of IPv4, or the eight
/// segments of IPv6.
#[derive(Clone, Copy)]
pub enum IpAddress {
    V4([u8; 4]),
    V6([u16; 8]),
}

/// `Ipv4Addr::is_loopback`: `127.0.0.0/8`.
pub open spec fn v4_loopback(o: Seq<u8>) -> bool {
    o[0] == 127
}

/// `Ipv4Addr::is_unspecified`: `0.0.0.0`.
pub open spec fn v4_unspecified(o: Seq<u8>) -> bool {
    o[0] == 0 && o[1] == 0 && o[2] == 0 && o[3] == 0
}

/// `Ipv4Addr::is_link_local`: `169.254.0.0/16`.
pub open spec fn v4_link_local(o: Seq<u8>) -> bool {
    o[0] == 169 && o[1] == 254
}

/// `Ipv4Addr::is_broadcast`: `255.255.255.255`.
pub open spec fn v4_broadcast(o: Seq<u8>) -> bool {
    o[0] == 255 && o[1] == 255 && o[2] == 255 && o[3] == 255
}

/// `Ipv4Addr::is_multicast`: `224.0.0.0/4`.
pub open spec fn v4_multicast(o: Seq<u8>) -> bool {
    224 <= o[0] <= 239
}

/// An IPv4 address an allowed name may not lead to: this machine, the link,
/// broadcast, multicast, or anything in `0.0.0.0/8`.
pub open spec fn v4_blocked(o: Seq<u8>) -> bool {
    v4_loopback(o) || v4_unspecified(o) || v4_link_local(o) || v4_broadcast(o) || v4_multicast(o) || o[0] == 0
}

/// `Ipv6Addr::to_ipv4_mapped`: the IPv4 address `::ffff:a.b.c.d` stands for.
pub open spec fn v6_mapped(s: Seq<u16>) -> Option<Seq<u8>> {
    if s[0] == 0 && s[1] == 0 && s[2] == 0 && s[3] == 0 && s[4] == 0 && s[5] == 0xffff {
        Some(seq![(s[6] / 256) as u8, (s[6] % 256) as u8, (s[7] / 256) as u8, (s[7] % 256) as u8])
    } else {
        None
    }
}

/// `Ipv6Addr::is_loopback`: `::1`.
pub open spec fn v6_loopback(s: Seq<u16>) -> bool {
    s[0] == 0 && s[1] == 0 && s[2] == 0 && s[3] == 0 && s[4] == 0 && s[5] == 0 && s[6] == 0 && s[7] == 1
}

/// `Ipv6Addr::is_unspecified`: `::`.
pub open spec fn v6_unspecified(s: Seq<u16>) -> bool {
    s[0] == 0 && s[1] == 0 && s[2] == 0 && s[3] == 0 && s[4] == 0 && s[5] == 0 && s[6] == 0 && s[7] == 0
}

/// The cloud metadata endpoint `fd00:ec2::254`.
pub open spec fn v6_metadata(s: Seq<u16>) -> bool {
    s[0] == 0xfd00 && s[1] == 0xec2 && s[2] == 0 && s[3] == 0 && s[4] == 0 && s[5] == 0 && s[6] == 0 && s[7] == 0x254
}

/// An IPv6 address an allowed name may not lead to: a mapped IPv4 address
/// judged as IPv4, else this machine, the unspecified address, multicast,
/// link-local `fe80::/10` or the metadata endpoint.
pub open spec fn v6_blocked(s: Seq<u16>) -> bool {
    match v6_mapped(s) {
        Some(o) => v4_blocked(o),
        None => v6_loopback(s) || v6_unspecified(s) || (s[0] & 0xff00) == 0xff00 || (s[0] & 0xffc0) == 0xfe80
            || v6_metadata(s),
    }
}

/// Whether an allowed hostname must not be able to smuggle the client to
/// this address. Private ranges stay reachable: an internal API is a
/// legitimate target.
pub open spec fn blocked(a: IpAddress) -> bool {
    match a {
        IpAddress::V4(o) => v4_blocked(o@),
        IpAddress::V6(s) => v6_blocked(s@),
    }
}

fn blocked_v4(o: [u8; 4]) -> (r: bool)
    ensures
        r == v4_blocked(o@),
{
    (o[0] == 127) || (o[0] == 0 && o[1] == 0 && o[2] == 0 && o[3] == 0) || (o[0] == 169 && o[1] == 254) || (o[0]
        == 255 && o[1] == 255 && o[2] == 255 && o[3] == 255) || (224 <= o[0] && o[0] <= 239) || o[0] == 0
}

fn blocked_v6(s: [u16; 8]) -> (r: bool)
    ensures
        r == v6_blocked(s@),
{
    if s[0] == 0 && s[1] == 0 && s[2] == 0 && s[3] == 0 && s[4] == 0 && s[5] == 0xffff {
        let mapped: [u8; 4] = [(s[6] / 256) as u8, (s[6] % 256) as u8, (s[7] / 256) as u8, (s[7] % 256) as u8];
        let r = blocked_v4(mapped);
        proof {
            assert(mapped@ =~= v6_mapped(s@).unwrap());
        }
        return r;
    }
    (s[0] == 0 && s[1] == 0 && s[2] == 0 && s[3] == 0 && s[4] == 0 && s[5] == 0 && s[6] == 0 && s[7] == 1) || (s[0]
        == 0 && s[1] == 0 && s[2] == 0 && s[3] == 0 && s[4] == 0 && s[5] == 0 && s[6] == 0 && s[7] == 0) || (s[0]
        & 0xff00) == 0xff00 || (s[0] & 0xffc0) == 0xfe80 || (s[0] == 0xfd00 && s[1] == 0xec2 && s[2] == 0 && s[3]
        == 0 && s[4] == 0 && s[5] == 0 && s[6] == 0 && s[7] == 0x254)
}

/// Whether the proxy refuses to reach this address by name.
pub fn blocked_address(a: &IpAddress) -> (r: bool)
    ensures
        r == blocked(*a),
{
    match a {
        IpAddress::V4(o) => blocked_v4(*o),
        IpAddress::V6(s) => blocked_v6(*s),
    }
}

/// Why a dial did not happen: the host resolved only to addresses the proxy
/// refuses to reach, or it could not be reached at all.
pub enum Dial {
    Blocked(String),
    Failed(String),
}

/// The reason a name that resolves only to blocked addresses is refused,
/// the addresses written as `shown` gives them.
pub open spec fn blocked_reason(shown: Seq<Seq<char>>) -> Seq<char> {
    "resolves only to blocked addresses ("@ + join(shown, ", "@)
        + "): loopback, link-local, metadata and multicast are never reached by name"@
}

/// Which of the addresses a name resolved to the proxy dials: the first it
/// may reach. `shown` is how each address is written.
pub fn reachable_address(addresses: &[IpAddress], shown: &[String]) -> (r: Result<usize, Dial>)
    requires
        shown@.len() == addresses@.len(),
    ensures
        addresses@.len() == 0 ==> r is Err && r->Err_0 is Failed && r->Err_0->Failed_0@ == "resolve failed: no addr"@,
        addresses@.len() > 0 && (forall|k: int| 0 <= k < addresses@.len() ==> blocked(#[trigger] addresses@[k]))
            ==> r is Err && r->Err_0 is Blocked && r->Err_0->Blocked_0@ == blocked_reason(texts(shown@)),
        r is Ok ==> r->Ok_0 < addresses@.len() && !blocked(addresses@[r->Ok_0 as int]) && forall|k: int|
            0 <= k < r->Ok_0 ==> blocked(#[trigger] addresses@[k]),
        (exists|k: int| 0 <= k < addresses@.len() && !blocked(#[trigger] addresses@[k])) ==> r is Ok,
{
    if addresses.len() == 0 {
        return Err(Dial::Failed(owned("resolve failed: no addr")));
    }
    let mut i: usize = 0;
    while i < addresses.len()
        invariant
            i <= addresses@.len(),
            forall|k: int| 0 <= k < i ==> blocked(#[trigger] addresses@[k]),
        decreases addresses.len() - i,
    {
        if !blocked_address(&addresses[i]) {
            return Ok(i);
        }
        i = i + 1;
    }
    let mut reason = owned("resolves only to blocked addresses (");
    let listed = crate::words::join_texts(shown, ", ");
    push_str(&mut reason, listed.as_str());
    push_str(&mut reason, "): loopback, link-local, metadata and multicast are never reached by name");
    Err(Dial::Blocked(reason))
}

// ---------------------------------------------------------------------------
// Laws
// ---------------------------------------------------------------------------

/// Base64 with padding writes four characters for every three bytes or
/// part of three.
pub proof fn law_base64_length(input: Seq<u8>)
    ensures
        base64(input).len() == 4 * ((input.len() + 2) / 3),
    decreases input.len(),
{
    if input.len() >= 3 {
        law_base64_length(input.subrange(3, input.len() as int));
    }
}


/// Which IPv4 addresses a name may not lead the proxy to, by their octets:
/// all of loopback `127.0.0.0/8` (Debian names this host `127.0.1.1`), all
/// of `0.0.0.0/8`, link-local `169.254.0.0/16` (the cloud metadata
/// endpoint), multicast `224.0.0.0/4` and broadcast `255.255.255.255`, and
/// no other; the same addresses mapped into IPv6 (`::ffff:a.b.c.d`) are
/// blocked alike.
pub proof fn law_blocked_ipv4_addresses(o: [u8; 4])
    ensures
        blocked(IpAddress::V4(o)) <==> (o[0] == 127 || o[0] == 0 || (o[0] == 169 && o[1] == 254) || (224 <= o[0]
            && o[0] <= 239) || (o[0] == 255 && o[1] == 255 && o[2] == 255 && o[3] == 255)),
{
}

/// An IPv4-mapped IPv6 address `::ffff:127.x.y.z` is loopback too, and
/// blocked.
pub proof fn law_mapped_loopback_is_blocked(s: [u16; 8])
    ensures
        s[0] == 0 && s[1] == 0 && s[2] == 0 && s[3] == 0 && s[4] == 0 && s[5] == 0xffff && s[6] / 256 == 127
            ==> blocked(IpAddress::V6(s)),
{
}

/// A name that resolves only to loopback addresses, anywhere in
/// `127.0.0.0/8`, is never dialled.
pub proof fn law_loopback_is_never_dialled(addresses: Seq<IpAddress>)
    requires
        addresses.len() > 0,
        forall|k: int| 0 <= k < addresses.len() ==> ((#[trigger] addresses[k]) matches IpAddress::V4(o) && o[0] == 127),
    ensures
        forall|k: int| 0 <= k < addresses.len() ==> blocked(#[trigger] addresses[k]),
{
    assert forall|k: int| 0 <= k < addresses.len() implies blocked(#[trigger] addresses[k]) by {
        law_blocked_ipv4_addresses(addresses[k]->V4_0);
    }
}

} // verus!
