use vstd::prelude::*;

verus! {

/// The decimal digits of `v`, most significant first, as ASCII.
pub open spec fn dec_digits(v: nat) -> Seq<u8>
    decreases v,
{
    if v < 10 {
        seq![(v + 48) as u8]
    } else {
        dec_digits(v / 10).push(((v % 10) + 48) as u8)
    }
}

/// The ASCII character of hexadecimal digit `d` (lower case).
pub open spec fn hex_char(d: nat) -> u8 {
    if d < 10 {
        (d + 48) as u8
    } else {
        (d - 10 + 97) as u8
    }
}

/// The lower-case hexadecimal digits of `v`, most significant first.
pub open spec fn hex_digits(v: nat) -> Seq<u8>
    decreases v,
{
    if v < 16 {
        seq![hex_char(v)]
    } else {
        hex_digits(v / 16).push(hex_char(v % 16))
    }
}

/// `s` padded on the left with `fill` up to `width` characters.
pub open spec fn pad_left(s: Seq<u8>, width: nat, fill: u8) -> Seq<u8> {
    if s.len() >= width {
        s
    } else {
        Seq::new((width - s.len()) as nat, |i: int| fill) + s
    }
}

/// The value of the decimal digits `d` (each `'0'..='9'`).
pub open spec fn dec_value(d: Seq<u8>) -> nat
    decreases d.len(),
{
    if d.len() == 0 {
        0
    } else {
        dec_value(d.drop_last()) * 10 + (d.last() - 48) as nat
    }
}

pub open spec fn is_digit(b: u8) -> bool {
    48 <= b <= 57
}

pub open spec fn all_digits(d: Seq<u8>) -> bool {
    forall|i: int| 0 <= i < d.len() ==> is_digit(#[trigger] d[i])
}

/// What parsing `s` as an unsigned integer no greater than `max` gives:
/// an optional `+`, then one or more decimal digits.
pub open spec fn parse_unsigned(s: Seq<u8>, max: nat) -> Option<nat> {
    let d = if s.len() > 0 && s[0] == 43 {
        s.drop_first()
    } else {
        s
    };
    if d.len() > 0 && all_digits(d) && dec_value(d) <= max {
        Some(dec_value(d))
    } else {
        None
    }
}

/// The pieces of `s` between the bytes equal to `sep`.
pub open spec fn split(s: Seq<u8>, sep: u8) -> Seq<Seq<u8>>
    decreases s.len(),
{
    if s.len() == 0 {
        seq![Seq::empty()]
    } else {
        let r = split(s.drop_last(), sep);
        if s.last() == sep {
            r.push(Seq::empty())
        } else {
            r.update(r.len() - 1, r.last().push(s.last()))
        }
    }
}

proof fn lemma_split_nonempty(s: Seq<u8>, sep: u8)
    ensures
        split(s, sep).len() >= 1,
    decreases s.len(),
{
    if s.len() > 0 {
        lemma_split_nonempty(s.drop_last(), sep);
    }
}

/// Appends the decimal digits of `v`.
pub fn push_dec(v: u64, out: &mut Vec<u8>)
    ensures
        final(out)@ == old(out)@ + dec_digits(v as nat),
    decreases v,
{
    if v >= 10 {
        push_dec(v / 10, out);
    }
    out.push((v % 10) as u8 + 48);
    proof {
        if v >= 10 {
            assert(old(out)@ + dec_digits(v as nat) =~= old(out)@ + dec_digits((v / 10) as nat) + seq![((v % 10) + 48) as u8]);
        }
    }
}

/// Appends the lower-case hexadecimal digits of `v`.
pub fn push_hex(v: u64, out: &mut Vec<u8>)
    ensures
        final(out)@ == old(out)@ + hex_digits(v as nat),
    decreases v,
{
    if v >= 16 {
        push_hex(v / 16, out);
    }
    let d = (v % 16) as u8;
    let c: u8 = if d < 10 {
        d + 48
    } else {
        d - 10 + 97
    };
    out.push(c);
    proof {
        if v >= 16 {
            assert(old(out)@ + hex_digits(v as nat) =~= old(out)@ + hex_digits((v / 16) as nat) + seq![hex_char((v % 16) as nat)]);
        }
    }
}

/// Appends `digits` padded on the left with `fill` up to `width`.
pub fn push_padded(digits: &Vec<u8>, width: usize, fill: u8, out: &mut Vec<u8>)
    ensures
        final(out)@ == old(out)@ + pad_left(digits@, width as nat, fill),
{
    let mut n: usize = digits.len();
    let ghost start = out@;
    while n < width
        invariant
            digits@.len() <= n <= width || (n == digits@.len() && n >= width),
            out@ == start + Seq::new((n - digits@.len()) as nat, |i: int| fill),
        decreases width - n,
    {
        out.push(fill);
        n += 1;
        proof {
            assert(out@ =~= start + Seq::new((n - digits@.len()) as nat, |i: int| fill));
        }
    }
    let mut i: usize = 0;
    let ghost mid = out@;
    while i < digits.len()
        invariant
            i <= digits@.len(),
            out@ == mid + digits@.subrange(0, i as int),
        decreases digits@.len() - i,
    {
        out.push(digits[i]);
        i += 1;
        proof {
            assert(out@ =~= mid + digits@.subrange(0, i as int));
        }
    }
    proof {
        assert(digits@.subrange(0, digits@.len() as int) =~= digits@);
        if digits@.len() >= width {
            assert(mid =~= start);
        }
        assert(out@ =~= old(out)@ + pad_left(digits@, width as nat, fill));
    }
}

/// Appends the bytes of `s`.
pub fn push_bytes(s: &[u8], out: &mut Vec<u8>)
    ensures
        final(out)@ == old(out)@ + s@,
{
    let mut i: usize = 0;
    while i < s.len()
        invariant
            i <= s@.len(),
            out@ == old(out)@ + s@.subrange(0, i as int),
        decreases s@.len() - i,
    {
        out.push(s[i]);
        i += 1;
        proof {
            assert(out@ =~= old(out)@ + s@.subrange(0, i as int));
        }
    }
    proof {
        assert(s@.subrange(0, s@.len() as int) =~= s@);
    }
}

/// Parses `s` as an unsigned integer no greater than `max` (an optional
/// `+`, then decimal digits), as `str::parse` does for unsigned integers.
pub fn parse_unsigned_exec(s: &[u8], max: u64) -> (r: Option<u64>)
    ensures
        r == (match parse_unsigned(s@, max as nat) {
            Some(v) => Some(v as u64),
            None => None,
        }),
{
    let start: usize = if s.len() > 0 && s[0] == 43 {
        1
    } else {
        0
    };
    let ghost d = if s@.len() > 0 && s@[0] == 43 {
        s@.drop_first()
    } else {
        s@
    };
    assert(d =~= s@.subrange(start as int, s@.len() as int));
    if start >= s.len() {
        return None;
    }
    let mut v: u64 = 0;
    let mut i: usize = start;
    while i < s.len()
        invariant
            start <= i <= s@.len(),
            d == s@.subrange(start as int, s@.len() as int),
            d == (if s@.len() > 0 && s@[0] == 43 {
                s@.drop_first()
            } else {
                s@
            }),
            forall|j: int| start <= j < i ==> is_digit(#[trigger] s@[j]),
            v == dec_value(s@.subrange(start as int, i as int)),
            v <= max,
        decreases s@.len() - i,
    {
        let b = s[i];
        if b < 48 || b > 57 {
            proof {
                assert(d[i - start] == b);
                assert(!is_digit(d[i - start]));
                assert(!all_digits(d));
            }
            return None;
        }
        let digit = (b - 48) as u64;
        assert(s@.subrange(start as int, i + 1).drop_last() =~= s@.subrange(start as int, i as int));
        if digit > max || v > (max - digit) / 10 {
            proof {
                assert(dec_value(s@.subrange(start as int, i + 1)) == v * 10 + digit);
                assert(v * 10 + digit > max);
                assert forall|j: int| 0 <= j < d.len() implies is_digit(#[trigger] d[j]) || j >= i + 1 - start by {
                    if j < i + 1 - start {
                        assert(d[j] == s@[start + j]);
                    }
                }
                lemma_dec_value_prefix_grows(d, i + 1 - start);
                assert(d.subrange(0, i + 1 - start) =~= s@.subrange(start as int, i + 1));
            }
            return None;
        }
        v = v * 10 + digit;
        i += 1;
    }
    Some(v)
}

/// A prefix of decimal digits is worth no more than a longer prefix.
proof fn lemma_dec_value_prefix_grows(d: Seq<u8>, k: int)
    requires
        0 <= k <= d.len(),
        forall|j: int| 0 <= j < d.len() ==> is_digit(#[trigger] d[j]) || j >= k,
    ensures
        dec_value(d.subrange(0, k)) <= dec_value(d) || exists|j: int| k <= j < d.len() && !is_digit(
            #[trigger] d[j],
        ),
    decreases d.len() - k,
{
    if k < d.len() {
        if forall|j: int| k <= j < d.len() ==> is_digit(#[trigger] d[j]) {
            lemma_dec_value_prefix_grows(d, k + 1);
            assert(d.subrange(0, k + 1).drop_last() =~= d.subrange(0, k));
            assert(is_digit(d[k]));
        }
    } else {
        assert(d.subrange(0, k) =~= d);
    }
}

/// The characters of the ASCII bytes `b`.
pub open spec fn ascii_chars(b: Seq<u8>) -> Seq<char> {
    b.map_values(|x: u8| x as char)
}

pub open spec fn is_ascii_bytes(b: Seq<u8>) -> bool {
    forall|i: int| 0 <= i < b.len() ==> #[trigger] b[i] < 128
}

/// Turns ASCII bytes into a `String`, by `String::from_utf8`; ASCII is
/// valid UTF-8 and each byte becomes the character of the same code.
#[verifier::external_body]
pub(crate) fn ascii_string(bytes: Vec<u8>) -> (r: String)
    requires
        is_ascii_bytes(bytes@),
    ensures
        r@ == ascii_chars(bytes@),
{
    String::from_utf8(bytes).unwrap()
}

/// Splits `s` at each byte equal to `sep`.
pub fn split_bytes(s: &[u8], sep: u8) -> (r: Vec<Vec<u8>>)
    ensures
        r@.map_values(|v: Vec<u8>| v@) == split(s@, sep),
{
    let mut parts: Vec<Vec<u8>> = Vec::new();
    let mut cur: Vec<u8> = Vec::new();
    let mut i: usize = 0;
    while i < s.len()
        invariant
            i <= s@.len(),
            parts@.map_values(|v: Vec<u8>| v@).push(cur@) == split(s@.subrange(0, i as int), sep),
        decreases s@.len() - i,
    {
        let ghost prev = s@.subrange(0, i as int);
        assert(s@.subrange(0, i + 1).drop_last() =~= prev);
        assert(s@.subrange(0, i + 1).last() == s@[i as int]);
        proof { lemma_split_nonempty(prev, sep); }
        if s[i] == sep {
            let mut done: Vec<u8> = Vec::new();
            std::mem::swap(&mut done, &mut cur);
            parts.push(done);
            proof {
                assert(parts@.map_values(|v: Vec<u8>| v@).push(cur@) =~= split(prev, sep).push(Seq::empty()));
            }
        } else {
            cur.push(s[i]);
            proof {
                let r = split(prev, sep);
                assert(parts@.map_values(|v: Vec<u8>| v@).push(cur@) =~= r.update(r.len() - 1, r.last().push(s@[i as int])));
            }
        }
        i += 1;
    }
    parts.push(cur);
    proof {
        assert(s@.subrange(0, s@.len() as int) =~= s@);
    }
    parts
}

/// A text without the separator is one piece.
pub proof fn lemma_split_single(s: Seq<u8>, sep: u8)
    requires
        forall|i: int| 0 <= i < s.len() ==> #[trigger] s[i] != sep,
    ensures
        split(s, sep) == seq![s],
    decreases s.len(),
{
    if s.len() > 0 {
        lemma_split_single(s.drop_last(), sep);
        assert(s.drop_last().push(s.last()) =~= s);
        assert(seq![s.drop_last()].update(0, s) =~= seq![s]);
    } else {
        assert(s =~= Seq::<u8>::empty());
    }
}

/// Joining two texts with the separator joins their pieces.
pub proof fn lemma_split_join(s: Seq<u8>, t: Seq<u8>, sep: u8)
    ensures
        split(s + seq![sep] + t, sep) == split(s, sep) + split(t, sep),
    decreases t.len(),
{
    let u = s + seq![sep] + t;
    if t.len() == 0 {
        assert(u.drop_last() =~= s);
        assert(split(s, sep).push(Seq::empty()) =~= split(s, sep) + split(t, sep));
    } else {
        assert(u.drop_last() =~= s + seq![sep] + t.drop_last());
        lemma_split_join(s, t.drop_last(), sep);
        lemma_split_nonempty(t.drop_last(), sep);
        let a = split(s, sep);
        let b = split(t.drop_last(), sep);
        if t.last() == sep {
            assert((a + b).push(Seq::empty()) =~= a + b.push(Seq::empty()));
        } else {
            let r = a + b;
            assert(r.update(r.len() - 1, r.last().push(t.last())) =~= a + b.update(
                b.len() - 1,
                b.last().push(t.last()),
            ));
        }
    }
}

/// The decimal digits of a number are digits, and at least one.
pub proof fn lemma_dec_digits_digits(v: nat)
    ensures
        dec_digits(v).len() >= 1,
        all_digits(dec_digits(v)),
    decreases v,
{
    if v >= 10 {
        lemma_dec_digits_digits(v / 10);
        let d = dec_digits(v / 10);
        assert forall|i: int| 0 <= i < dec_digits(v).len() implies is_digit(#[trigger] dec_digits(v)[i]) by {
            if i < d.len() {
                assert(dec_digits(v)[i] == d[i]);
            }
        }
    }
}

/// The decimal digits of a number are worth the number.
pub proof fn lemma_dec_digits_value(v: nat)
    ensures
        dec_value(dec_digits(v)) == v,
    decreases v,
{
    let d = dec_digits(v);
    if v >= 10 {
        lemma_dec_digits_value(v / 10);
        assert(d.drop_last() =~= dec_digits(v / 10));
        assert(d.last() == ((v % 10) + 48) as u8);
        assert((d.last() - 48) as nat == v % 10);
        assert(v == (v / 10) * 10 + v % 10);
        assert(dec_value(d) == dec_value(d.drop_last()) * 10 + (d.last() - 48) as nat);
    } else {
        assert(d.drop_last() =~= Seq::<u8>::empty());
        assert(d.last() == (v + 48) as u8);
        assert(dec_value(d.drop_last()) == 0);
        assert(dec_value(d) == dec_value(d.drop_last()) * 10 + (d.last() - 48) as nat);
    }
}

/// Parsing the decimal digits of a number no greater than `max` gives it.
pub proof fn lemma_parse_dec_digits(v: nat, max: nat)
    requires
        v <= max,
    ensures
        parse_unsigned(dec_digits(v), max) == Some(v),
{
    lemma_dec_digits_digits(v);
    lemma_dec_digits_value(v);
    assert(is_digit(dec_digits(v)[0]));
}

} // verus!
