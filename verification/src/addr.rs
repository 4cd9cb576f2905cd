use vstd::prelude::*;
use vstd::string::StringSliceAdditionalSpecFns;

use crate::text::{
    all_digits, ascii_chars, ascii_string, dec_digits, hex_digits, is_ascii_bytes, is_digit, lemma_dec_digits_digits,
    lemma_parse_dec_digits, lemma_split_join, lemma_split_single, pad_left, parse_unsigned, parse_unsigned_exec,
    push_bytes, push_dec, push_hex, push_padded, split, split_bytes,
};

verus! {

/// Ethernet MAC address.
#[derive(Clone, Copy, Debug, Default)]
pub struct MacAddr(pub [u8; 6]);

/// IP address, either IPv4 or IPv6.
#[derive(Clone, Copy, Debug)]
pub enum IpAddr {
    Ipv4(Ipv4Addr),
    Ipv6(Ipv6Addr),
}

/// IPv4 address; its first octet is the lowest byte.
#[derive(Clone, Copy, Debug, Default)]
pub struct Ipv4Addr(pub u32);

/// IPv6 address as four words, with a zone identifier.
#[derive(Clone, Copy, Debug, Default)]
pub struct Ipv6Addr {
    pub addr: [u32; 4],
    pub zone: u8,
}

/// IP address and port.
#[derive(Clone, Copy, Debug)]
pub struct SocketAddr {
    pub addr: IpAddr,
    pub port: u16,
}

/// The mask given to `mask_to_prefix` is not a run of ones followed by zeros.
#[derive(Clone, Copy, Debug, PartialEq, Eq, Structural)]
pub struct MaskError;

/// The value of the first `n` bytes of `b`, the first byte lowest.
pub open spec fn le_value(b: Seq<u8>, n: int) -> nat
    decreases n,
{
    if n <= 0 {
        0
    } else {
        le_value(b, n - 1) + b[n - 1] as nat * pow256(n - 1)
    }
}

pub open spec fn pow256(k: int) -> nat
    decreases k,
{
    if k <= 0 {
        1
    } else {
        256 * pow256(k - 1)
    }
}

/// The four octets of a parsed dotted IPv4 address, as a number.
pub open spec fn dotted_value(parts: Seq<Seq<u8>>) -> Option<nat> {
    match (
        parse_unsigned(parts[0], 255),
        parse_unsigned(parts[1], 255),
        parse_unsigned(parts[2], 255),
        parse_unsigned(parts[3], 255),
    ) {
        (Some(a), Some(b), Some(c), Some(d)) => Some(a + b * 256 + c * 65536 + d * 16777216),
        _ => None,
    }
}

/// What `IpAddr::from_str` gives for `s`: the first four `.`-separated
/// pieces as octets; later pieces are not looked at.
pub open spec fn ipv4_from_str(s: Seq<u8>) -> Option<u32> {
    let parts = split(s, 46);
    if parts.len() < 4 {
        None
    } else {
        match dotted_value(parts) {
            Some(v) => Some(v as u32),
            None => None,
        }
    }
}

/// What `SocketAddr::from_str` gives for `s`: an address, `:`, a port;
/// later `:`-separated pieces are not looked at.
pub open spec fn socket_from_str(s: Seq<u8>) -> Option<(u32, u16)> {
    let parts = split(s, 58);
    if parts.len() < 2 {
        None
    } else {
        match (ipv4_from_str(parts[0]), parse_unsigned(parts[1], 65535)) {
            (Some(a), Some(p)) => Some((a, p as u16)),
            _ => None,
        }
    }
}

/// Dotted decimal text of an IPv4 address.
pub open spec fn ipv4_text(x: u32) -> Seq<u8> {
    dec_digits((x % 256) as nat) + seq![46u8] + dec_digits(((x / 256) % 256) as nat) + seq![46u8]
        + dec_digits(((x / 65536) % 256) as nat) + seq![46u8] + dec_digits((x / 16777216) as nat)
}

/// Two lower-case hex digits of a byte.
pub open spec fn hex2(b: u8) -> Seq<u8> {
    pad_left(hex_digits(b as nat), 2, 48)
}

/// Text of a MAC address: six two-digit hex bytes joined by `-`.
pub open spec fn mac_text(m: Seq<u8>) -> Seq<u8> {
    hex2(m[0]) + seq![45u8] + hex2(m[1]) + seq![45u8] + hex2(m[2]) + seq![45u8] + hex2(m[3])
        + seq![45u8] + hex2(m[4]) + seq![45u8] + hex2(m[5])
}

/// The state of the IPv6 text writer between words.
#[derive(Clone, Copy, PartialEq, Eq, Structural)]
pub enum V6State {
    Head,
    HeadBody,
    Tail,
    TailBody,
}

/// What the IPv6 text writer writes for `word` in state `st`, and its next state.
pub open spec fn v6_step(word: u16, st: V6State) -> (Seq<u8>, V6State) {
    if word == 0 && (st == V6State::Head || st == V6State::HeadBody) {
        (seq![58u8, 58u8], V6State::Tail)
    } else if word == 0 && st == V6State::Tail {
        (Seq::empty(), V6State::Tail)
    } else if st == V6State::Head {
        (hex_digits(word as nat), V6State::HeadBody)
    } else if st == V6State::Tail {
        (hex_digits(word as nat), V6State::TailBody)
    } else {
        (seq![58u8] + hex_digits(word as nat), st)
    }
}

/// The IPv6 text of `words` written from state `st`: the first run of zero
/// words becomes `::`.
pub open spec fn v6_text(words: Seq<u16>, st: V6State) -> Seq<u8>
    decreases words.len(),
{
    if words.len() == 0 {
        Seq::empty()
    } else {
        let (out, next) = v6_step(words[0], st);
        out + v6_text(words.drop_first(), next)
    }
}

pub open spec fn swap16(x: u16) -> u16 {
    ((x / 256) + (x % 256) * 256) as u16
}

/// The eight 16-bit groups of an IPv6 address, in text order.
pub open spec fn v6_words(a: Seq<u32>) -> Seq<u16> {
    Seq::new(
        8,
        |k: int|
            if k % 2 == 0 {
                swap16((a[k / 2] % 65536) as u16)
            } else {
                swap16((a[k / 2] / 65536) as u16)
            },
    )
}

pub open spec fn swap32(x: u32) -> u32 {
    ((x & 0xff) << 24) | (((x >> 8) & 0xff) << 16) | (((x >> 16) & 0xff) << 8) | (x >> 24)
}

/// The 32-bit mask with the top `p` bits set, for `p <= 32`.
pub open spec fn pmask(p: u32) -> u32 {
    ((0xffff_ffff_0000_0000u64 >> (p as u64)) & 0xffff_ffffu64) as u32
}

/// The length of the run of ones that `x` is, as a prefix mask, looking at
/// lengths from `p` on.
pub open spec fn prefix32_from(x: u32, p: u32) -> Option<u32>
    decreases 33 - p,
{
    if p > 32 {
        None
    } else if x == pmask(p) {
        Some(p)
    } else {
        prefix32_from(x, (p + 1) as u32)
    }
}

/// The prefix length of the 32-bit mask `x`, if it is one.
pub open spec fn prefix32(x: u32) -> Option<u32> {
    prefix32_from(x, 0)
}

/// The prefix length of the mask made of the words `ws` (first word
/// highest), if it is one.
pub open spec fn prefix_words(ws: Seq<u32>) -> Option<nat>
    decreases ws.len(),
{
    if ws.len() == 0 {
        Some(0)
    } else {
        match prefix32(ws[0]) {
            None => None,
            Some(p) => if p == 32 {
                match prefix_words(ws.drop_first()) {
                    Some(n) => Some(n + 32),
                    None => None,
                }
            } else if forall|i: int| 1 <= i < ws.len() ==> #[trigger] ws[i] == 0 {
                Some(p as nat)
            } else {
                None
            },
        }
    }
}

/// The prefix length of a network mask.
pub open spec fn mask_prefix(mask: IpAddr) -> Option<nat> {
    match mask {
        IpAddr::Ipv4(Ipv4Addr(m)) => match prefix32(swap32(m)) {
            Some(p) => Some(p as nat),
            None => None,
        },
        IpAddr::Ipv6(v6) => prefix_words(v6.addr@.map_values(|w: u32| swap32(w))),
    }
}

impl MacAddr {
    /// Creates a MAC address from its six bytes.
    pub fn from_bytes(bytes: &[u8]) -> (r: MacAddr)
        requires
            bytes@.len() == 6,
        ensures
            r.0@ == bytes@,
    {
        let addr = [bytes[0], bytes[1], bytes[2], bytes[3], bytes[4], bytes[5]];
        assert(addr@ =~= bytes@);
        MacAddr(addr)
    }

    /// The text of the address, such as `52-54-00-12-34-56`.
    pub fn to_string(&self) -> (r: String)
        ensures
            r@ == ascii_chars(mac_text(self.0@)),
    {
        let mut out: Vec<u8> = Vec::new();
        let mut i: usize = 0;
        let ghost m = self.0@;
        while i < 6
            invariant
                i <= 6,
                m == self.0@,
                i == 0 ==> out@.len() == 0,
                i > 0 ==> out@ == mac_prefix(m, i as int),
            decreases 6 - i,
        {
            if i > 0 {
                out.push(45);
            }
            let mut digits: Vec<u8> = Vec::new();
            push_hex(self.0[i] as u64, &mut digits);
            push_padded(&digits, 2, 48, &mut out);
            proof {
                if i == 0 {
                    assert(out@ =~= mac_prefix(m, 1));
                } else {
                    assert(out@ =~= mac_prefix(m, i + 1));
                }
            }
            i += 1;
        }
        proof {
            reveal_with_fuel(mac_prefix, 7);
            assert(mac_prefix(m, 6) =~= mac_text(m));
            lemma_hex2_ascii_all(m);
        }
        ascii_string(out)
    }
}

/// The text of the first `n` bytes of a MAC address.
pub open spec fn mac_prefix(m: Seq<u8>, n: int) -> Seq<u8>
    decreases n,
{
    if n <= 1 {
        hex2(m[0])
    } else {
        mac_prefix(m, n - 1) + seq![45u8] + hex2(m[n - 1])
    }
}

proof fn lemma_dec_digits_ascii(v: nat)
    ensures
        is_ascii_bytes(dec_digits(v)),
    decreases v,
{
    if v >= 10 {
        lemma_dec_digits_ascii(v / 10);
    }
}

proof fn lemma_hex_digits_ascii(v: nat)
    ensures
        is_ascii_bytes(hex_digits(v)),
    decreases v,
{
    if v >= 16 {
        lemma_hex_digits_ascii(v / 16);
    }
}

proof fn lemma_concat_ascii(a: Seq<u8>, b: Seq<u8>)
    requires
        is_ascii_bytes(a),
        is_ascii_bytes(b),
    ensures
        is_ascii_bytes(a + b),
{
    assert forall|i: int| 0 <= i < (a + b).len() implies #[trigger] (a + b)[i] < 128 by {
        if i < a.len() {
            assert((a + b)[i] == a[i]);
        } else {
            assert((a + b)[i] == b[i - a.len()]);
        }
    }
}

proof fn lemma_hex2_ascii(b: u8)
    ensures
        is_ascii_bytes(hex2(b)),
{
    lemma_hex_digits_ascii(b as nat);
    let h = hex_digits(b as nat);
    if h.len() < 2 {
        let z = Seq::new((2 - h.len()) as nat, |i: int| 48u8);
        assert(is_ascii_bytes(z));
        lemma_concat_ascii(z, h);
    }
}

proof fn lemma_hex2_ascii_all(m: Seq<u8>)
    requires
        m.len() == 6,
    ensures
        is_ascii_bytes(mac_text(m)),
{
    let dash = seq![45u8];
    assert(is_ascii_bytes(dash));
    lemma_hex2_ascii(m[0]);
    lemma_hex2_ascii(m[1]);
    lemma_hex2_ascii(m[2]);
    lemma_hex2_ascii(m[3]);
    lemma_hex2_ascii(m[4]);
    lemma_hex2_ascii(m[5]);
    let t1 = hex2(m[0]) + dash;
    lemma_concat_ascii(hex2(m[0]), dash);
    lemma_concat_ascii(t1, hex2(m[1]));
    let t2 = t1 + hex2(m[1]);
    lemma_concat_ascii(t2, dash);
    let t3 = t2 + dash;
    lemma_concat_ascii(t3, hex2(m[2]));
    let t4 = t3 + hex2(m[2]);
    lemma_concat_ascii(t4, dash);
    let t5 = t4 + dash;
    lemma_concat_ascii(t5, hex2(m[3]));
    let t6 = t5 + hex2(m[3]);
    lemma_concat_ascii(t6, dash);
    let t7 = t6 + dash;
    lemma_concat_ascii(t7, hex2(m[4]));
    let t8 = t7 + hex2(m[4]);
    lemma_concat_ascii(t8, dash);
    let t9 = t8 + dash;
    lemma_concat_ascii(t9, hex2(m[5]));
}

proof fn lemma_le_value_bound(b: Seq<u8>, n: int)
    requires
        0 <= n <= b.len(),
    ensures
        le_value(b, n) < pow256(n),
    decreases n,
{
    if n > 0 {
        lemma_le_value_bound(b, n - 1);
        assert(b[n - 1] as nat * pow256(n - 1) <= 255 * pow256(n - 1)) by (nonlinear_arith)
            requires
                b[n - 1] <= 255,
        ;
    }
}

/// The bytes of `x`, lowest first.
pub open spec fn le_bytes(x: u32) -> Seq<u8> {
    seq![(x % 256) as u8, ((x / 256) % 256) as u8, ((x / 65536) % 256) as u8, (x / 16777216) as u8]
}

/// The bytes of an IP address in memory order.
pub open spec fn ip_bytes(ip: IpAddr) -> Seq<u8> {
    match ip {
        IpAddr::Ipv4(Ipv4Addr(x)) => le_bytes(x),
        IpAddr::Ipv6(v6) => le_bytes(v6.addr@[0]) + le_bytes(v6.addr@[1]) + le_bytes(v6.addr@[2])
            + le_bytes(v6.addr@[3]),
    }
}

/// The text of an IP address.
pub open spec fn ip_text(ip: IpAddr) -> Seq<u8> {
    match ip {
        IpAddr::Ipv4(Ipv4Addr(x)) => ipv4_text(x),
        IpAddr::Ipv6(v6) => v6_text(v6_words(v6.addr@), V6State::Head),
    }
}

fn push_le_bytes(x: u32, out: &mut Vec<u8>)
    ensures
        final(out)@ == old(out)@ + le_bytes(x),
{
    out.push((x % 256) as u8);
    out.push(((x / 256) % 256) as u8);
    out.push(((x / 65536) % 256) as u8);
    out.push((x / 16777216) as u8);
    assert(out@ =~= old(out)@ + le_bytes(x));
}

fn push_ipv4_text(x: u32, out: &mut Vec<u8>)
    ensures
        final(out)@ == old(out)@ + ipv4_text(x),
{
    push_dec((x % 256) as u64, out);
    out.push(46);
    push_dec(((x / 256) % 256) as u64, out);
    out.push(46);
    push_dec(((x / 65536) % 256) as u64, out);
    out.push(46);
    push_dec((x / 16777216) as u64, out);
    assert(out@ =~= old(out)@ + ipv4_text(x));
}

proof fn lemma_v6_text_split(words: Seq<u16>, st: V6State, k: int)
    requires
        0 <= k <= words.len(),
    ensures
        v6_text(words, st) == v6_prefix_text(words, st, k) + v6_text(
            words.subrange(k, words.len() as int),
            v6_state_after(words, st, k),
        ),
    decreases k,
{
    if k == 0 {
        assert(words.subrange(0, words.len() as int) =~= words);
    } else {
        lemma_v6_text_split(words, st, k - 1);
        let rest = words.subrange(k - 1, words.len() as int);
        assert(rest[0] == words[k - 1]);
        assert(rest.drop_first() =~= words.subrange(k, words.len() as int));
    }
}

/// What the writer writes for the first `k` words.
pub open spec fn v6_prefix_text(words: Seq<u16>, st: V6State, k: int) -> Seq<u8>
    decreases k,
{
    if k <= 0 {
        Seq::empty()
    } else {
        v6_prefix_text(words, st, k - 1) + v6_step(words[k - 1], v6_state_after(words, st, k - 1)).0
    }
}

/// The writer's state after the first `k` words.
pub open spec fn v6_state_after(words: Seq<u16>, st: V6State, k: int) -> V6State
    decreases k,
{
    if k <= 0 {
        st
    } else {
        v6_step(words[k - 1], v6_state_after(words, st, k - 1)).1
    }
}

fn push_ipv6_text(a: &[u32; 4], out: &mut Vec<u8>)
    ensures
        final(out)@ == old(out)@ + v6_text(v6_words(a@), V6State::Head),
{
    let ghost words = v6_words(a@);
    let mut st = V6State::Head;
    let mut k: usize = 0;
    while k < 8
        invariant
            k <= 8,
            words == v6_words(a@),
            st == v6_state_after(words, V6State::Head, k as int),
            out@ == old(out)@ + v6_prefix_text(words, V6State::Head, k as int),
        decreases 8 - k,
    {
        let w32 = a[k / 2];
        let half: u32 = if k % 2 == 0 {
            w32 % 65536
        } else {
            w32 / 65536
        };
        let h = half as u16;
        let word: u16 = (h / 256) + (h % 256) * 256;
        assert(word == words[k as int]);
        let next: V6State;
        if word == 0 && (st == V6State::Head || st == V6State::HeadBody) {
            out.push(58);
            out.push(58);
            next = V6State::Tail;
        } else if word == 0 && st == V6State::Tail {
            next = V6State::Tail;
        } else if st == V6State::Head {
            push_hex(word as u64, out);
            next = V6State::HeadBody;
        } else if st == V6State::Tail {
            push_hex(word as u64, out);
            next = V6State::TailBody;
        } else {
            out.push(58);
            push_hex(word as u64, out);
            next = st;
        }
        proof {
            assert(out@ =~= old(out)@ + v6_prefix_text(words, V6State::Head, k + 1));
        }
        st = next;
        k += 1;
    }
    proof {
        lemma_v6_text_split(words, V6State::Head, 8);
        assert(words.subrange(8, 8) =~= Seq::<u16>::empty());
    }
}

proof fn lemma_v6_text_ascii(words: Seq<u16>, st: V6State)
    ensures
        is_ascii_bytes(v6_text(words, st)),
    decreases words.len(),
{
    if words.len() > 0 {
        let (o, n) = v6_step(words[0], st);
        lemma_v6_text_ascii(words.drop_first(), n);
        lemma_hex_digits_ascii(words[0] as nat);
        assert(is_ascii_bytes(seq![58u8]));
        assert(is_ascii_bytes(seq![58u8, 58u8]));
        assert(is_ascii_bytes(Seq::<u8>::empty()));
        lemma_concat_ascii(seq![58u8], hex_digits(words[0] as nat));
        lemma_concat_ascii(o, v6_text(words.drop_first(), n));
    }
}

proof fn lemma_ipv4_text_ascii(x: u32)
    ensures
        is_ascii_bytes(ipv4_text(x)),
{
    let dot = seq![46u8];
    assert(is_ascii_bytes(dot));
    lemma_dec_digits_ascii((x % 256) as nat);
    lemma_dec_digits_ascii(((x / 256) % 256) as nat);
    lemma_dec_digits_ascii(((x / 65536) % 256) as nat);
    lemma_dec_digits_ascii((x / 16777216) as nat);
    let a = dec_digits((x % 256) as nat);
    let b = dec_digits(((x / 256) % 256) as nat);
    let c = dec_digits(((x / 65536) % 256) as nat);
    let d = dec_digits((x / 16777216) as nat);
    lemma_concat_ascii(a, dot);
    lemma_concat_ascii(a + dot, b);
    lemma_concat_ascii(a + dot + b, dot);
    lemma_concat_ascii(a + dot + b + dot, c);
    lemma_concat_ascii(a + dot + b + dot + c, dot);
    lemma_concat_ascii(a + dot + b + dot + c + dot, d);
}

proof fn lemma_ip_text_ascii(ip: IpAddr)
    ensures
        is_ascii_bytes(ip_text(ip)),
{
    match ip {
        IpAddr::Ipv4(Ipv4Addr(x)) => lemma_ipv4_text_ascii(x),
        IpAddr::Ipv6(v6) => lemma_v6_text_ascii(v6_words(v6.addr@), V6State::Head),
    }
}

fn push_ip_text(ip: &IpAddr, out: &mut Vec<u8>)
    ensures
        final(out)@ == old(out)@ + ip_text(*ip),
{
    match ip {
        IpAddr::Ipv4(Ipv4Addr(x)) => push_ipv4_text(*x, out),
        IpAddr::Ipv6(v6) => push_ipv6_text(&v6.addr, out),
    }
}

fn parse_ipv4(bytes: &[u8]) -> (r: Option<u32>)
    ensures
        r == ipv4_from_str(bytes@),
{
    let parts = split_bytes(bytes, 46);
    let ghost ps = parts@.map_values(|v: Vec<u8>| v@);
    if parts.len() < 4 {
        return None;
    }
    assert(ps[0] == parts@[0]@ && ps[1] == parts@[1]@ && ps[2] == parts@[2]@ && ps[3] == parts@[3]@);
    let a = match parse_unsigned_exec(parts[0].as_slice(), 255) {
        Some(v) => v,
        None => return None,
    };
    let b = match parse_unsigned_exec(parts[1].as_slice(), 255) {
        Some(v) => v,
        None => return None,
    };
    let c = match parse_unsigned_exec(parts[2].as_slice(), 255) {
        Some(v) => v,
        None => return None,
    };
    let d = match parse_unsigned_exec(parts[3].as_slice(), 255) {
        Some(v) => v,
        None => return None,
    };
    Some((a + b * 256 + c * 65536 + d * 16777216) as u32)
}

impl IpAddr {
    /// The bytes of the address as it lies in memory (little-endian words).
    pub fn as_bytes(&self) -> (r: Vec<u8>)
        ensures
            r@ == ip_bytes(*self),
    {
        let mut out: Vec<u8> = Vec::new();
        match self {
            IpAddr::Ipv4(Ipv4Addr(x)) => {
                push_le_bytes(*x, &mut out);
            },
            IpAddr::Ipv6(v6) => {
                push_le_bytes(v6.addr[0], &mut out);
                push_le_bytes(v6.addr[1], &mut out);
                push_le_bytes(v6.addr[2], &mut out);
                push_le_bytes(v6.addr[3], &mut out);
            },
        }
        assert(out@ =~= ip_bytes(*self));
        out
    }

    /// Parses dotted IPv4 text, as `FromStr` does: the first four
    /// `.`-separated pieces must be octets; later pieces are ignored.
    pub fn parse(s: &str) -> (r: Result<IpAddr, ()>)
        ensures
            r == (match ipv4_from_str(s.spec_bytes()) {
                Some(v) => Ok::<IpAddr, ()>(IpAddr::Ipv4(Ipv4Addr(v))),
                None => Err(()),
            }),
    {
        let bytes = s.as_bytes();
        match parse_ipv4(bytes) {
            Some(v) => Ok(IpAddr::Ipv4(Ipv4Addr(v))),
            None => Err(()),
        }
    }

    /// The text of the address.
    pub fn to_string(&self) -> (r: String)
        ensures
            r@ == ascii_chars(ip_text(*self)),
    {
        let mut out: Vec<u8> = Vec::new();
        push_ip_text(self, &mut out);
        proof {
            lemma_ip_text_ascii(*self);
            assert(out@ =~= ip_text(*self));
        }
        ascii_string(out)
    }
}

impl Ipv4Addr {
    /// Creates an address from its four octets, first octet first.
    pub fn new(a0: u8, a1: u8, a2: u8, a3: u8) -> (r: Ipv4Addr)
        ensures
            r.0 == a0 + a1 * 256 + a2 * 65536 + a3 * 16777216,
    {
        let bytes = [a0, a1, a2, a3];
        let r = Self::from_bytes(&bytes);
        proof {
            let b = bytes@;
            assert(pow256(0) == 1);
            assert(pow256(1) == 256);
            assert(pow256(2) == 65536);
            assert(pow256(3) == 16777216);
            assert(le_value(b, 0) == 0);
            assert(le_value(b, 1) == a0);
            assert(le_value(b, 2) == a0 + a1 * 256);
            assert(le_value(b, 3) == a0 + a1 * 256 + a2 * 65536);
            assert(le_value(b, 4) == a0 + a1 * 256 + a2 * 65536 + a3 * 16777216);
        }
        r
    }

    /// Creates an address from up to four octets, first octet first;
    /// bytes past the fourth are not used.
    pub fn from_bytes(bytes: &[u8]) -> (r: Ipv4Addr)
        ensures
            r.0 == le_value(bytes@, if bytes@.len() < 4 { bytes@.len() as int } else { 4 }),
    {
        let n: usize = if bytes.len() < 4 {
            bytes.len()
        } else {
            4
        };
        let mut addr: u64 = 0;
        let mut mult: u64 = 1;
        let mut i: usize = 0;
        while i < n
            invariant
                n <= bytes@.len(),
                n <= 4,
                i <= n,
                addr == le_value(bytes@, i as int),
                i <= 3 ==> mult == pow256(i as int),
                mult <= 16777216,
            decreases n - i,
        {
            proof {
                lemma_le_value_bound(bytes@, i as int);
                assert(pow256(0) == 1);
                assert(pow256(1) == 256);
                assert(pow256(2) == 65536);
                assert(pow256(3) == 16777216);
                assert((bytes[i as int] as u64) * mult <= 255 * 16777216) by (nonlinear_arith)
                    requires
                        bytes[i as int] <= 255,
                        mult <= 16777216,
                ;
            }
            addr = addr + (bytes[i] as u64) * mult;
            if i < 3 {
                mult = mult * 256;
            }
            i += 1;
        }
        proof {
            lemma_le_value_bound(bytes@, n as int);
            reveal_with_fuel(pow256, 5);
        }
        Ipv4Addr(addr as u32)
    }

    /// Dotted decimal text, such as `10.0.2.15`.
    pub fn to_string(&self) -> (r: String)
        ensures
            r@ == ascii_chars(ipv4_text(self.0)),
    {
        let mut out: Vec<u8> = Vec::new();
        push_ipv4_text(self.0, &mut out);
        proof {
            lemma_ipv4_text_ascii(self.0);
            assert(out@ =~= ipv4_text(self.0));
        }
        ascii_string(out)
    }
}

impl Ipv6Addr {
    /// Text of the address in groups of hex digits, the first run of zero
    /// groups written as `::`.
    pub fn to_string(&self) -> (r: String)
        ensures
            r@ == ascii_chars(v6_text(v6_words(self.addr@), V6State::Head)),
    {
        let mut out: Vec<u8> = Vec::new();
        push_ipv6_text(&self.addr, &mut out);
        proof {
            lemma_v6_text_ascii(v6_words(self.addr@), V6State::Head);
            assert(out@ =~= v6_text(v6_words(self.addr@), V6State::Head));
        }
        ascii_string(out)
    }
}

impl SocketAddr {
    /// Creates a socket address from an IP address and a port.
    pub fn new(addr: IpAddr, port: u16) -> (r: SocketAddr)
        ensures
            r == (SocketAddr { addr, port }),
    {
        SocketAddr { addr, port }
    }

    /// Parses `a.b.c.d:port`, as `FromStr` does; pieces after a second `:`
    /// are ignored.
    pub fn parse(s: &str) -> (r: Result<SocketAddr, ()>)
        ensures
            r == (match socket_from_str(s.spec_bytes()) {
                Some((a, p)) => Ok::<SocketAddr, ()>(SocketAddr { addr: IpAddr::Ipv4(Ipv4Addr(a)), port: p }),
                None => Err(()),
            }),
    {
        let bytes = s.as_bytes();
        let parts = split_bytes(bytes, 58);
        let ghost ps = parts@.map_values(|v: Vec<u8>| v@);
        if parts.len() < 2 {
            return Err(());
        }
        assert(ps[0] == parts@[0]@ && ps[1] == parts@[1]@);
        let a = match parse_ipv4(parts[0].as_slice()) {
            Some(v) => v,
            None => return Err(()),
        };
        let p = match parse_unsigned_exec(parts[1].as_slice(), 65535) {
            Some(v) => v,
            None => return Err(()),
        };
        Ok(SocketAddr { addr: IpAddr::Ipv4(Ipv4Addr(a)), port: p as u16 })
    }

    /// The text `address:port`.
    pub fn to_string(&self) -> (r: String)
        ensures
            r@ == ascii_chars(ip_text(self.addr) + seq![58u8] + dec_digits(self.port as nat)),
    {
        let mut out: Vec<u8> = Vec::new();
        push_ip_text(&self.addr, &mut out);
        out.push(58);
        push_dec(self.port as u64, &mut out);
        proof {
            lemma_ip_text_ascii(self.addr);
            lemma_dec_digits_ascii(self.port as nat);
            assert(is_ascii_bytes(seq![58u8]));
            lemma_concat_ascii(ip_text(self.addr), seq![58u8]);
            lemma_concat_ascii(ip_text(self.addr) + seq![58u8], dec_digits(self.port as nat));
            assert(out@ =~= ip_text(self.addr) + seq![58u8] + dec_digits(self.port as nat));
        }
        ascii_string(out)
    }
}

impl core::str::FromStr for IpAddr {
    type Err = ();

    fn from_str(s: &str) -> (r: Result<IpAddr, ()>)
        ensures
            r == (match ipv4_from_str(s.spec_bytes()) {
                Some(v) => Ok::<IpAddr, ()>(IpAddr::Ipv4(Ipv4Addr(v))),
                None => Err(()),
            }),
    {
        IpAddr::parse(s)
    }
}

impl core::str::FromStr for SocketAddr {
    type Err = ();

    fn from_str(s: &str) -> (r: Result<SocketAddr, ()>)
        ensures
            r == (match socket_from_str(s.spec_bytes()) {
                Some((a, p)) => Ok::<SocketAddr, ()>(SocketAddr { addr: IpAddr::Ipv4(Ipv4Addr(a)), port: p }),
                None => Err(()),
            }),
    {
        SocketAddr::parse(s)
    }
}

proof fn lemma_mask_start(x: u32)
    ensures
        pmask(0) == 0,
        x == ((x as u64) << 0u64) as u32,
        x & pmask(0) == pmask(0),
{
    assert(pmask(0) == 0) by (bit_vector);
    assert(x == ((x as u64) << 0u64) as u32) by (bit_vector);
    assert(x & 0u32 == 0u32) by (bit_vector);
}

proof fn lemma_mask_step(x: u32, p: u32)
    requires
        p < 32,
        (((x as u64) << (p as u64)) as u32) & 0x8000_0000u32 != 0,
        x & pmask(p) == pmask(p),
    ensures
        x & pmask((p + 1) as u32) == pmask((p + 1) as u32),
        ((((x as u64) << (p as u64)) as u32) << 1u32) == ((x as u64) << ((p + 1) as u64)) as u32,
{
    let q = (p + 1) as u32;
    assert(x & pmask(q) == pmask(q)) by (bit_vector)
        requires
            p < 32,
            q == p + 1,
            (((x as u64) << (p as u64)) as u32) & 0x8000_0000u32 != 0,
            x & (((0xffff_ffff_0000_0000u64 >> (p as u64)) & 0xffff_ffffu64) as u32) == (((0xffff_ffff_0000_0000u64 >> (p as u64)) & 0xffff_ffffu64) as u32),
    ;
    assert(((((x as u64) << (p as u64)) as u32) << 1u32) == ((x as u64) << ((p + 1) as u64)) as u32) by (bit_vector)
        requires
            p < 32,
    ;
}

proof fn lemma_mask_full(x: u32)
    ensures
        ((x as u64) << 32u64) as u32 == 0,
{
    assert(((x as u64) << 32u64) as u32 == 0) by (bit_vector);
}

proof fn lemma_mask_exit_zero(x: u32, p: u32)
    requires
        p <= 32,
        x & pmask(p) == pmask(p),
        ((x as u64) << (p as u64)) as u32 == 0,
    ensures
        x == pmask(p),
{
    assert(x == pmask(p)) by (bit_vector)
        requires
            p <= 32,
            x & (((0xffff_ffff_0000_0000u64 >> (p as u64)) & 0xffff_ffffu64) as u32) == (((0xffff_ffff_0000_0000u64 >> (p as u64)) & 0xffff_ffffu64) as u32),
            ((x as u64) << (p as u64)) as u32 == 0,
    ;
}

proof fn lemma_mask_exit_bad(x: u32, p: u32, q: u32)
    requires
        p <= 32,
        q <= 32,
        x & pmask(p) == pmask(p),
        (((x as u64) << (p as u64)) as u32) & 0x8000_0000u32 == 0,
        ((x as u64) << (p as u64)) as u32 != 0,
    ensures
        x != pmask(q),
{
    assert(x != pmask(q)) by (bit_vector)
        requires
            p <= 32,
            q <= 32,
            x & (((0xffff_ffff_0000_0000u64 >> (p as u64)) & 0xffff_ffffu64) as u32) == (((0xffff_ffff_0000_0000u64 >> (p as u64)) & 0xffff_ffffu64) as u32),
            (((x as u64) << (p as u64)) as u32) & 0x8000_0000u32 == 0,
            ((x as u64) << (p as u64)) as u32 != 0,
    ;
}

proof fn lemma_pmask_inj(p: u32, q: u32)
    requires
        p <= 32,
        q <= 32,
        p != q,
    ensures
        pmask(p) != pmask(q),
{
    assert(pmask(p) != pmask(q)) by (bit_vector)
        requires
            p <= 32,
            q <= 32,
            p != q,
    ;
}

proof fn lemma_prefix32_none(x: u32, k: u32)
    requires
        forall|q: u32| q <= 32 ==> x != #[trigger] pmask(q),
    ensures
        prefix32_from(x, k) is None,
    decreases 33 - k,
{
    if k <= 32 {
        assert(x != pmask(k));
        lemma_prefix32_none(x, (k + 1) as u32);
    }
}

proof fn lemma_prefix32_some(x: u32, p: u32, k: u32)
    requires
        k <= p <= 32,
        x == pmask(p),
    ensures
        prefix32_from(x, k) == Some(p),
    decreases p - k,
{
    if k < p {
        lemma_pmask_inj(k, p);
        lemma_prefix32_some(x, p, (k + 1) as u32);
    }
}

/// The prefix length of the 32-bit mask `x`, if it is a run of ones
/// followed by zeros.
fn prefix_len32(x: u32) -> (r: Option<u32>)
    ensures
        r == prefix32(x),
{
    let mut mask: u32 = x;
    let mut prefix: u32 = 0;
    proof {
        lemma_mask_start(x);
    }
    while mask & 0x8000_0000 != 0
        invariant
            prefix <= 32,
            mask == ((x as u64) << (prefix as u64)) as u32,
            x & pmask(prefix) == pmask(prefix),
        decreases 32 - prefix,
    {
        proof {
            if prefix == 32 {
                lemma_mask_full(x);
                assert(mask == 0);
                assert(mask & 0x8000_0000 == 0) by (bit_vector)
                    requires
                        mask == 0,
                ;
            }
            lemma_mask_step(x, prefix);
        }
        prefix += 1;
        mask = mask << 1;
    }
    if mask != 0 {
        proof {
            assert forall|q: u32| q <= 32 implies x != #[trigger] pmask(q) by {
                lemma_mask_exit_bad(x, prefix, q);
            }
            lemma_prefix32_none(x, 0);
        }
        None
    } else {
        proof {
            lemma_mask_exit_zero(x, prefix);
            lemma_prefix32_some(x, prefix, 0);
        }
        Some(prefix)
    }
}

pub open spec fn rest_zero(ws: Seq<u32>, i: int) -> bool {
    forall|j: int| i <= j < ws.len() ==> #[trigger] ws[j] == 0
}

proof fn lemma_prefix_words_skip(ws: Seq<u32>, i: int)
    requires
        0 <= i < ws.len(),
    ensures
        prefix_words(ws.subrange(i, ws.len() as int)) == (match prefix32(ws[i]) {
            None => None,
            Some(p) => if p == 32 {
                match prefix_words(ws.subrange(i + 1, ws.len() as int)) {
                    Some(n) => Some(n + 32),
                    None => None,
                }
            } else if rest_zero(ws, i + 1) {
                Some(p as nat)
            } else {
                None
            },
        }),
{
    let t = ws.subrange(i, ws.len() as int);
    assert(t[0] == ws[i]);
    assert(t.drop_first() =~= ws.subrange(i + 1, ws.len() as int));
    assert((forall|j: int| 1 <= j < t.len() ==> #[trigger] t[j] == 0) == rest_zero(ws, i + 1)) by {
        if rest_zero(ws, i + 1) {
            assert forall|j: int| 1 <= j < t.len() implies #[trigger] t[j] == 0 by {
                assert(t[j] == ws[i + j]);
            }
        }
        if forall|j: int| 1 <= j < t.len() ==> #[trigger] t[j] == 0 {
            assert forall|j: int| i + 1 <= j < ws.len() implies #[trigger] ws[j] == 0 by {
                assert(t[j - i] == ws[j]);
            }
        }
    }
}

/// Converts a network mask to its prefix length; fails unless the mask is
/// a run of ones followed by zeros.
pub fn mask_to_prefix(mask: IpAddr) -> (r: Result<u8, MaskError>)
    ensures
        r == (match mask_prefix(mask) {
            Some(p) => Ok::<u8, MaskError>(p as u8),
            None => Err(MaskError),
        }),
{
    match mask {
        IpAddr::Ipv4(Ipv4Addr(m)) => {
            let x = ((m & 0xff) << 24) | (((m >> 8) & 0xff) << 16) | (((m >> 16) & 0xff) << 8) | (m >> 24);
            match prefix_len32(x) {
                Some(p) => Ok(p as u8),
                None => Err(MaskError),
            }
        },
        IpAddr::Ipv6(v6) => {
            let ghost ws = v6.addr@.map_values(|w: u32| swap32(w));
            let mut prefix: u32 = 0;
            let mut finish = false;
            let mut i: usize = 0;
            assert(ws.subrange(0, 4) =~= ws);
            assert(mask_prefix(mask) == prefix_words(ws));
            while i < 4
                invariant
                    i <= 4,
                    ws == v6.addr@.map_values(|w: u32| swap32(w)),
                    ws.len() == 4,
                    mask_prefix(mask) == prefix_words(ws),
                    !finish ==> prefix == 32 * i,
                    !finish ==> prefix_words(ws) == (match prefix_words(ws.subrange(i as int, 4)) {
                        Some(n) => Some((n + prefix) as nat),
                        None => None,
                    }),
                    finish ==> prefix < 128,
                    finish ==> prefix_words(ws) == (if rest_zero(ws, i as int) {
                        Some(prefix as nat)
                    } else {
                        None
                    }),
                decreases 4 - i,
            {
                let w = v6.addr[i];
                let x = ((w & 0xff) << 24) | (((w >> 8) & 0xff) << 16) | (((w >> 16) & 0xff) << 8) | (w >> 24);
                assert(x == ws[i as int]);
                if finish {
                    if x != 0 {
                        assert(!rest_zero(ws, i as int));
                        return Err(MaskError);
                    }
                } else {
                    proof {
                        lemma_prefix_words_skip(ws, i as int);
                    }
                    match prefix_len32(x) {
                        None => {
                            return Err(MaskError);
                        },
                        Some(p) => {
                            proof {
                                lemma_prefix32_range(x);
                            }
                            prefix = prefix + p;
                            if p < 32 {
                                finish = true;
                            }
                        },
                    }
                }
                i += 1;
            }
            proof {
                if !finish {
                    assert(ws.subrange(4, 4) =~= Seq::<u32>::empty());
                }
            }
            Ok(prefix as u8)
        },
    }
}

proof fn lemma_prefix32_from_range(x: u32, k: u32)
    ensures
        prefix32_from(x, k) matches Some(p) ==> p <= 32,
    decreases 33 - k,
{
    if k <= 32 && x != pmask(k) {
        lemma_prefix32_from_range(x, (k + 1) as u32);
    }
}

proof fn lemma_prefix32_range(x: u32)
    ensures
        prefix32(x) matches Some(p) ==> p <= 32,
{
    lemma_prefix32_from_range(x, 0);
}

/// A string made of the ASCII characters of `b` is encoded as `b`.
proof fn lemma_ascii_str_bytes(s: &str, b: Seq<u8>)
    requires
        is_ascii_bytes(b),
        s@ == ascii_chars(b),
    ensures
        s.spec_bytes() == b,
{
    assert(vstd::utf8::is_ascii_chars(s@)) by {
        assert forall|i: int| 0 <= i < s@.len() implies '\0' <= #[trigger] s@[i] <= '\u{7f}' by {
            assert(s@[i] == b[i] as char);
        }
    }
    vstd::utf8::is_ascii_chars_encode_utf8(s@);
    assert forall|i: int| 0 <= i < b.len() implies #[trigger] s.spec_bytes()[i] == b[i] by {
        assert(s@[i] == b[i] as char);
        assert(s@[i] as u8 == s.spec_bytes()[i]);
    }
    assert(s.spec_bytes() =~= b);
}

/// No byte of the decimal digits of `v` is `sep`, which is no digit.
proof fn lemma_digits_avoid(v: nat, sep: u8)
    requires
        !is_digit(sep),
    ensures
        forall|i: int| 0 <= i < dec_digits(v).len() ==> #[trigger] dec_digits(v)[i] != sep,
{
    lemma_dec_digits_digits(v);
    assert forall|i: int| 0 <= i < dec_digits(v).len() implies #[trigger] dec_digits(v)[i] != sep by {
        assert(is_digit(dec_digits(v)[i]));
    }
}

/// The dotted text of `x` splits at `.` into the digits of its four octets.
proof fn lemma_ipv4_text_pieces(x: u32)
    ensures
        split(ipv4_text(x), 46) == seq![
            dec_digits((x % 256) as nat),
            dec_digits(((x / 256) % 256) as nat),
            dec_digits(((x / 65536) % 256) as nat),
            dec_digits((x / 16777216) as nat),
        ],
{
    let d0 = dec_digits((x % 256) as nat);
    let d1 = dec_digits(((x / 256) % 256) as nat);
    let d2 = dec_digits(((x / 65536) % 256) as nat);
    let d3 = dec_digits((x / 16777216) as nat);
    lemma_digits_avoid((x % 256) as nat, 46);
    lemma_digits_avoid(((x / 256) % 256) as nat, 46);
    lemma_digits_avoid(((x / 65536) % 256) as nat, 46);
    lemma_digits_avoid((x / 16777216) as nat, 46);
    lemma_split_single(d0, 46);
    lemma_split_single(d1, 46);
    lemma_split_single(d2, 46);
    lemma_split_single(d3, 46);
    lemma_split_join(d0, d1, 46);
    lemma_split_join(d0 + seq![46u8] + d1, d2, 46);
    lemma_split_join(d0 + seq![46u8] + d1 + seq![46u8] + d2, d3, 46);
    assert(seq![d0] + seq![d1] + seq![d2] + seq![d3] =~= seq![d0, d1, d2, d3]);
}

/// The octets of `x`, put together, give `x`.
proof fn lemma_octets(x: u32)
    ensures
        x == x % 256 + ((x / 256) % 256) * 256 + ((x / 65536) % 256) * 65536 + (x / 16777216) * 16777216,
        x / 16777216 <= 255,
{
    assert(x == x % 256 + ((x / 256) % 256) * 256 + ((x / 65536) % 256) * 65536 + (x / 16777216) * 16777216
        && x / 16777216 <= 255) by (bit_vector);
}

/// The dotted text of an IPv4 address parses back to the address: a string
/// that `to_string` gives, given to `parse`, yields the same address.
pub proof fn lemma_ipv4_text_parses_back(x: u32, s: &str)
    requires
        s@ == ascii_chars(ipv4_text(x)),
    ensures
        ipv4_from_str(s.spec_bytes()) == Some(x),
{
    lemma_ipv4_text_ascii(x);
    lemma_ascii_str_bytes(s, ipv4_text(x));
    lemma_ipv4_text_parses_back_bytes(x);
}

/// The text `address:port` of an IPv4 socket address parses back to the
/// same address and port.
pub proof fn lemma_socket_text_parses_back(x: u32, port: u16, s: &str)
    requires
        s@ == ascii_chars(ipv4_text(x) + seq![58u8] + dec_digits(port as nat)),
    ensures
        socket_from_str(s.spec_bytes()) == Some((x, port)),
{
    let t = ipv4_text(x);
    let d = dec_digits(port as nat);
    lemma_ipv4_text_ascii(x);
    lemma_dec_digits_ascii(port as nat);
    assert(is_ascii_bytes(seq![58u8]));
    lemma_concat_ascii(t, seq![58u8]);
    lemma_concat_ascii(t + seq![58u8], d);
    lemma_ascii_str_bytes(s, t + seq![58u8] + d);
    lemma_digits_avoid((x % 256) as nat, 58);
    lemma_digits_avoid(((x / 256) % 256) as nat, 58);
    lemma_digits_avoid(((x / 65536) % 256) as nat, 58);
    lemma_digits_avoid((x / 16777216) as nat, 58);
    assert forall|i: int| 0 <= i < t.len() implies #[trigger] t[i] != 58u8 by {
        let d0 = dec_digits((x % 256) as nat);
        let d1 = dec_digits(((x / 256) % 256) as nat);
        let d2 = dec_digits(((x / 65536) % 256) as nat);
        let d3 = dec_digits((x / 16777216) as nat);
        let l0 = d0.len() as int;
        let l1 = l0 + 1 + d1.len();
        let l2 = l1 + 1 + d2.len();
        if i < l0 {
            assert(t[i] == d0[i]);
        } else if i == l0 {
        } else if i < l1 {
            assert(t[i] == d1[i - l0 - 1]);
        } else if i == l1 {
        } else if i < l2 {
            assert(t[i] == d2[i - l1 - 1]);
        } else if i == l2 {
        } else {
            assert(t[i] == d3[i - l2 - 1]);
        }
    }
    lemma_split_single(t, 58);
    lemma_digits_avoid(port as nat, 58);
    lemma_split_single(d, 58);
    lemma_split_join(t, d, 58);
    assert(seq![t] + seq![d] =~= seq![t, d]);
    lemma_ipv4_text_parses_back_bytes(x);
    lemma_parse_dec_digits(port as nat, 65535);
}

/// `ipv4_from_str` of the dotted text of `x` is `x`.
proof fn lemma_ipv4_text_parses_back_bytes(x: u32)
    ensures
        ipv4_from_str(ipv4_text(x)) == Some(x),
{
    lemma_ipv4_text_pieces(x);
    lemma_parse_dec_digits((x % 256) as nat, 255);
    lemma_parse_dec_digits(((x / 256) % 256) as nat, 255);
    lemma_parse_dec_digits(((x / 65536) % 256) as nat, 255);
    lemma_octets(x);
    lemma_parse_dec_digits((x / 16777216) as nat, 255);
}

} // verus!
