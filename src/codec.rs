//! Decimal numerals, escape removal and hexadecimal text.
use vstd::prelude::*;

verus! {

pub open spec fn is_digit(b: u8) -> bool {
    48 <= b <= 57
}

pub open spec fn all_digits(s: Seq<u8>) -> bool {
    forall|i: int| 0 <= i < s.len() ==> is_digit(#[trigger] s[i])
}

/// The number that a string of decimal digits denotes.
pub open spec fn digits_value(s: Seq<u8>) -> nat
    decreases s.len(),
{
    if s.len() == 0 {
        0
    } else {
        digits_value(s.drop_last()) * 10 + (s.last() - 48) as nat
    }
}

/// The digits of a numeral, without its optional leading plus sign.
pub open spec fn numeral_digits(s: Seq<u8>) -> Seq<u8> {
    if s.len() > 0 && s[0] == 43 {
        s.drop_first()
    } else {
        s
    }
}

/// The unsigned 128-bit value of a base-10 numeral: an optional `+`, then
/// one or more digits, with a value that fits.
pub open spec fn decimal_spec(s: Seq<u8>) -> Option<u128> {
    let d = numeral_digits(s);
    if d.len() > 0 && all_digits(d) && digits_value(d) <= u128::MAX {
        Some(digits_value(d) as u128)
    } else {
        None
    }
}

proof fn lemma_digits_prefix(s: Seq<u8>, k: int)
    requires
        all_digits(s),
        0 <= k <= s.len(),
    ensures
        digits_value(s.subrange(0, k)) <= digits_value(s),
    decreases s.len(),
{
    if k < s.len() {
        assert(s.drop_last().subrange(0, k) =~= s.subrange(0, k));
        assert(all_digits(s.drop_last())) by {
            assert forall|i: int| 0 <= i < s.drop_last().len() implies is_digit(#[trigger] s.drop_last()[i]) by {
                assert(s.drop_last()[i] == s[i]);
            }
        }
        lemma_digits_prefix(s.drop_last(), k);
    } else {
        assert(s.subrange(0, k) =~= s);
    }
}

/// Parses a base-10 unsigned 128-bit numeral.
pub fn parse_u128(s: &[u8]) -> (r: Option<u128>)
    ensures
        r == decimal_spec(s@),
{
    let n: usize = s.len();
    let start: usize = if n > 0 && s[0] == 43u8 { 1 } else { 0 };
    let ghost d = numeral_digits(s@);
    proof { assert(d =~= s@.subrange(start as int, n as int)); }
    if start == n {
        return None;
    }
    let mut acc: u128 = 0;
    let mut i: usize = start;
    while i < n
        invariant
            start <= i <= n,
            n == s@.len(),
            d == s@.subrange(start as int, n as int),
            d == numeral_digits(s@),
            all_digits(d.subrange(0, i - start)),
            acc as nat == digits_value(d.subrange(0, i - start)),
        decreases n - i,
    {
        let b = s[i];
        let ghost pre = d.subrange(0, i - start);
        let ghost next = d.subrange(0, i + 1 - start);
        proof {
            assert(next.drop_last() =~= pre);
            assert(next.last() == b);
            assert(digits_value(next) == digits_value(pre) * 10 + (b - 48) as nat);
        }
        if b < 48u8 || b > 57u8 {
            proof { assert(d[i - start] == s@[i as int]); assert(!is_digit(d[i - start])); assert(!all_digits(d)); }
            return None;
        }
        proof {
            assert(all_digits(next)) by {
                assert forall|k: int| 0 <= k < next.len() implies is_digit(#[trigger] next[k]) by {
                    if k < pre.len() {
                        assert(next[k] == pre[k]);
                    }
                }
            }
        }
        let step = acc.checked_mul(10);
        match step {
            None => {
                proof {
                    assert(acc * 10 > u128::MAX);
                    assert(digits_value(next) > u128::MAX);
                    if all_digits(d) {
                        lemma_digits_prefix(d, i + 1 - start);
                    }
                }
                return None;
            },
            Some(m) => {
                let sum = m.checked_add((b - 48u8) as u128);
                match sum {
                    None => {
                        proof {
                            if all_digits(d) {
                                lemma_digits_prefix(d, i + 1 - start);
                            }
                        }
                        return None;
                    },
                    Some(v) => {
                        acc = v;
                    },
                }
            },
        }
        i = i + 1;
    }
    proof { assert(d.subrange(0, n - start) =~= d); }
    Some(acc)
}

/// Index `i` of `s` holds a backslash that escapes a double quote.
pub open spec fn escapes_quote(s: Seq<u8>, i: int) -> bool {
    s[i] == 92 && i + 1 < s.len() && s[i + 1] == 34
}

/// The first `k` bytes of `s`, without each backslash that escapes a quote.
pub open spec fn unescape_prefix(s: Seq<u8>, k: int) -> Seq<u8>
    decreases k,
{
    if k <= 0 {
        Seq::empty()
    } else if escapes_quote(s, k - 1) {
        unescape_prefix(s, k - 1)
    } else {
        unescape_prefix(s, k - 1).push(s[k - 1])
    }
}

/// `s` with every `\"` turned into `"`.
pub open spec fn unescape_quotes_spec(s: Seq<u8>) -> Seq<u8> {
    unescape_prefix(s, s.len() as int)
}

/// Turns every escaped quote `\"` of `s` into a plain `"`.
pub fn unescape_quotes(s: &[u8]) -> (r: Vec<u8>)
    ensures
        r@ == unescape_quotes_spec(s@),
{
    let n: usize = s.len();
    let mut r: Vec<u8> = Vec::new();
    let mut i: usize = 0;
    while i < n
        invariant
            i <= n,
            n == s@.len(),
            r@ == unescape_prefix(s@, i as int),
        decreases n - i,
    {
        let esc = s[i] == 92u8 && i + 1 < n && s[i + 1] == 34u8;
        if !esc {
            r.push(s[i]);
        }
        i = i + 1;
    }
    r
}

/// The first `k` bytes of `s`, without backslashes.
pub open spec fn without_backslashes_prefix(s: Seq<u8>, k: int) -> Seq<u8>
    decreases k,
{
    if k <= 0 {
        Seq::empty()
    } else if s[k - 1] == 92 {
        without_backslashes_prefix(s, k - 1)
    } else {
        without_backslashes_prefix(s, k - 1).push(s[k - 1])
    }
}

pub open spec fn without_backslashes_spec(s: Seq<u8>) -> Seq<u8> {
    without_backslashes_prefix(s, s.len() as int)
}

/// Removes every backslash of `s`.
pub fn strip_backslashes(s: &[u8]) -> (r: Vec<u8>)
    ensures
        r@ == without_backslashes_spec(s@),
{
    let n: usize = s.len();
    let mut r: Vec<u8> = Vec::new();
    let mut i: usize = 0;
    while i < n
        invariant
            i <= n,
            n == s@.len(),
            r@ == without_backslashes_prefix(s@, i as int),
        decreases n - i,
    {
        if s[i] != 92u8 {
            r.push(s[i]);
        }
        i = i + 1;
    }
    r
}

/// The value of a hexadecimal digit, either case.
pub open spec fn hex_value(b: u8) -> Option<u8> {
    if 48 <= b <= 57 {
        Some((b - 48) as u8)
    } else if 97 <= b <= 102 {
        Some((b - 87) as u8)
    } else if 65 <= b <= 70 {
        Some((b - 55) as u8)
    } else {
        None
    }
}

/// The lower-case hexadecimal digit of a value below 16.
pub open spec fn hex_char(v: u8) -> u8 {
    if v < 10 {
        (v + 48) as u8
    } else {
        (v + 87) as u8
    }
}

/// `s` is hexadecimal text: an even number of hex digits.
pub open spec fn is_hex_text(s: Seq<u8>) -> bool {
    s.len() % 2 == 0 && forall|i: int| 0 <= i < s.len() ==> (#[trigger] hex_value(s[i])) is Some
}

/// The byte that the two digits at `2 * i` and `2 * i + 1` of `s` denote.
pub open spec fn hex_pair(s: Seq<u8>, i: int) -> u8 {
    (hex_value(s[2 * i]).unwrap() * 16 + hex_value(s[2 * i + 1]).unwrap()) as u8
}

/// The bytes of hexadecimal text `s`, or `None` where it is not.
pub open spec fn hex_decode_spec(s: Seq<u8>) -> Option<Seq<u8>> {
    if is_hex_text(s) {
        Some(Seq::new((s.len() / 2) as nat, |i: int| hex_pair(s, i)))
    } else {
        None
    }
}

fn hex_digit_value(b: u8) -> (r: Option<u8>)
    ensures
        r == hex_value(b),
{
    if 48u8 <= b && b <= 57u8 {
        Some(b - 48u8)
    } else if 97u8 <= b && b <= 102u8 {
        Some(b - 87u8)
    } else if 65u8 <= b && b <= 70u8 {
        Some(b - 55u8)
    } else {
        None
    }
}

/// Decodes hexadecimal text into bytes.
pub fn hex_to_bytes(s: &[u8]) -> (r: Option<Vec<u8>>)
    ensures
        r.is_some() == hex_decode_spec(s@).is_some(),
        r.is_some() ==> r.unwrap()@ == hex_decode_spec(s@).unwrap(),
{
    let n: usize = s.len();
    if n % 2 != 0 {
        return None;
    }
    let mut out: Vec<u8> = Vec::new();
    let mut i: usize = 0;
    while i < n / 2
        invariant
            n == s@.len(),
            n % 2 == 0,
            i <= n / 2,
            out@.len() == i,
            forall|k: int| 0 <= k < 2 * i ==> (#[trigger] hex_value(s@[k])) is Some,
            forall|k: int| 0 <= k < i ==> out@[k] == hex_pair(s@, k),
        decreases n / 2 - i,
    {
        let hi = hex_digit_value(s[2 * i]);
        let lo = hex_digit_value(s[2 * i + 1]);
        match (hi, lo) {
            (Some(h), Some(l)) => {
                out.push(h * 16 + l);
            },
            _ => {
                proof {
                    assert(!is_hex_text(s@)) by {
                        if hi is None {
                            assert(hex_value(s@[2 * i as int]) is None);
                        } else {
                            assert(hex_value(s@[2 * i + 1]) is None);
                        }
                    }
                }
                return None;
            },
        }
        i = i + 1;
    }
    proof {
        assert(out@ =~= Seq::new((s@.len() / 2) as nat, |k: int| hex_pair(s@, k)));
    }
    Some(out)
}

/// The lower-case hexadecimal text of `b`, two digits per byte, high digit first.
pub open spec fn hex_encode_spec(b: Seq<u8>) -> Seq<u8>
    decreases b.len(),
{
    if b.len() == 0 {
        Seq::empty()
    } else {
        hex_encode_spec(b.drop_last()).push(hex_char(b.last() / 16)).push(hex_char(b.last() % 16))
    }
}

/// Encodes bytes as lower-case hexadecimal text.
pub fn bytes_to_hex(b: &[u8]) -> (r: Vec<u8>)
    ensures
        r@ == hex_encode_spec(b@),
{
    let n: usize = b.len();
    let mut out: Vec<u8> = Vec::new();
    let mut i: usize = 0;
    while i < n
        invariant
            i <= n,
            n == b@.len(),
            out@ == hex_encode_spec(b@.subrange(0, i as int)),
        decreases n - i,
    {
        let v = b[i];
        let hi: u8 = v / 16;
        let lo: u8 = v % 16;
        let ch: u8 = if hi < 10 { hi + 48 } else { hi + 87 };
        let cl: u8 = if lo < 10 { lo + 48 } else { lo + 87 };
        out.push(ch);
        out.push(cl);
        proof {
            assert(b@.subrange(0, i + 1).drop_last() =~= b@.subrange(0, i as int));
        }
        i = i + 1;
    }
    proof { assert(b@.subrange(0, n as int) =~= b@); }
    out
}

} // verus!
