//! Byte-level decimal text: rendering and parsing of the numbers that appear
//! in shard records, bucket keys, file names and payment memos.

use vstd::prelude::*;

verus! {

/// The ASCII code of the digit `0`.
pub const DIGIT_ZERO: u8 = 0x30;

/// `b` is an ASCII decimal digit.
pub open spec fn is_digit(b: u8) -> bool {
    0x30 <= b <= 0x39
}

/// The digit byte for a value below ten.
pub open spec fn digit_of(n: nat) -> u8 {
    (0x30 + n) as u8
}

/// The numeric value of a digit byte (zero on non-digits).
pub open spec fn digit_val(b: u8) -> nat {
    if is_digit(b) {
        (b - 0x30) as nat
    } else {
        0
    }
}

/// Every byte of `s` is a decimal digit.
pub open spec fn all_digits(s: Seq<u8>) -> bool {
    forall|i: int| 0 <= i < s.len() ==> is_digit(#[trigger] s[i])
}

/// The decimal rendering of `n`, without leading zeros (`"0"` for zero).
pub open spec fn spec_dec(n: nat) -> Seq<u8>
    decreases n,
{
    if n < 10 {
        seq![digit_of(n)]
    } else {
        spec_dec(n / 10).push(digit_of(n % 10))
    }
}

/// The numeric value of a digit string, most significant digit first.
pub open spec fn dec_value(s: Seq<u8>) -> nat
    decreases s.len(),
{
    if s.len() == 0 {
        0
    } else {
        dec_value(s.drop_last()) * 10 + digit_val(s.last())
    }
}

/// Rendering a number and reading the digits back yields the number, and the
/// rendering consists of digits only.
pub proof fn lemma_dec_round_trip(n: nat)
    ensures
        spec_dec(n).len() >= 1,
        all_digits(spec_dec(n)),
        dec_value(spec_dec(n)) == n,
    decreases n,
{
    if n < 10 {
        let s = spec_dec(n);
        assert(s =~= seq![digit_of(n)]);
        assert(s.drop_last() =~= Seq::<u8>::empty());
        assert(dec_value(Seq::<u8>::empty()) == 0);
        assert(dec_value(s) == dec_value(s.drop_last()) * 10 + digit_val(s.last()));
        assert(digit_val(digit_of(n)) == n);
    } else {
        lemma_dec_round_trip(n / 10);
        let s = spec_dec(n);
        assert(s.drop_last() =~= spec_dec(n / 10));
        assert(s.last() == digit_of(n % 10));
        assert(digit_val(digit_of(n % 10)) == n % 10);
        assert(dec_value(s) == (n / 10) * 10 + n % 10);
        assert((n / 10) * 10 + n % 10 == n) by {
            vstd::arithmetic::div_mod::lemma_fundamental_div_mod(n as int, 10);
        }
    }
}

/// How many digits the rendering of `n` has, by magnitude.
pub proof fn lemma_dec_len(n: nat)
    ensures
        n < 10 ==> spec_dec(n).len() == 1,
        10 <= n < 100 ==> spec_dec(n).len() == 2,
        100 <= n < 1000 ==> spec_dec(n).len() == 3,
        1000 <= n ==> spec_dec(n).len() >= 4,
    decreases n,
{
    if n >= 10 {
        lemma_dec_len(n / 10);
    }
}

/// Leading zero digits do not change the value of a digit string.
pub proof fn lemma_dec_value_leading_zeros(k: nat, s: Seq<u8>)
    ensures
        dec_value(Seq::new(k, |i: int| DIGIT_ZERO) + s) == dec_value(s),
    decreases s.len(), k,
{
    let zeros = Seq::new(k, |i: int| DIGIT_ZERO);
    if s.len() > 0 {
        assert((zeros + s).drop_last() =~= zeros + s.drop_last());
        assert((zeros + s).last() == s.last());
        lemma_dec_value_leading_zeros(k, s.drop_last());
    } else {
        assert(zeros + s =~= zeros);
        if k > 0 {
            assert(zeros.drop_last() =~= Seq::new((k - 1) as nat, |i: int| DIGIT_ZERO));
            assert(zeros.last() == DIGIT_ZERO);
            lemma_dec_value_leading_zeros((k - 1) as nat, s);
            assert(Seq::new((k - 1) as nat, |i: int| DIGIT_ZERO) + s =~= Seq::new(
                (k - 1) as nat,
                |i: int| DIGIT_ZERO,
            ));
        } else {
            assert(zeros =~= Seq::<u8>::empty());
        }
    }
}

/// The value of a digit string grows (weakly) with its prefixes.
pub proof fn lemma_dec_value_prefix(s: Seq<u8>, i: int)
    requires
        0 <= i <= s.len(),
    ensures
        dec_value(s.subrange(0, i)) <= dec_value(s),
    decreases s.len() - i,
{
    if i < s.len() {
        lemma_dec_value_prefix(s, i + 1);
        let p = s.subrange(0, i + 1);
        assert(p.drop_last() =~= s.subrange(0, i));
        assert(dec_value(p) == dec_value(s.subrange(0, i)) * 10 + digit_val(p.last()));
    } else {
        assert(s.subrange(0, i) =~= s);
    }
}

/// The decimal rendering of `n`, left-padded with zero digits to `width`.
pub open spec fn spec_dec_pad(n: nat, width: nat) -> Seq<u8> {
    if spec_dec(n).len() >= width {
        spec_dec(n)
    } else {
        Seq::new((width - spec_dec(n).len()) as nat, |i: int| DIGIT_ZERO) + spec_dec(n)
    }
}

/// Padding never drops digits: the padded rendering keeps the value.
pub proof fn lemma_dec_pad_value(n: nat, width: nat)
    ensures
        spec_dec_pad(n, width).len() >= width,
        spec_dec_pad(n, width).len() >= 1,
        all_digits(spec_dec_pad(n, width)),
        dec_value(spec_dec_pad(n, width)) == n,
{
    lemma_dec_round_trip(n);
    if spec_dec(n).len() < width {
        let k = (width - spec_dec(n).len()) as nat;
        lemma_dec_value_leading_zeros(k, spec_dec(n));
    }
}

/// Appends the decimal rendering of `n` to `out`.
pub fn push_dec_u64(out: &mut Vec<u8>, n: u64)
    ensures
        final(out)@ == old(out)@ + spec_dec(n as nat),
    decreases n,
{
    if n >= 10 {
        push_dec_u64(out, n / 10);
        out.push(DIGIT_ZERO + (n % 10) as u8);
        proof {
            assert(out@ =~= old(out)@ + spec_dec(n as nat));
        }
    } else {
        out.push(DIGIT_ZERO + n as u8);
        proof {
            assert(out@ =~= old(out)@ + spec_dec(n as nat));
        }
    }
}

/// Appends the decimal rendering of `n`, zero-padded to two digits.
pub fn push_dec_pad2(out: &mut Vec<u8>, n: u64)
    ensures
        final(out)@ == old(out)@ + spec_dec_pad(n as nat, 2),
{
    proof {
        lemma_dec_len(n as nat);
    }
    if n < 10 {
        out.push(DIGIT_ZERO);
        proof {
            assert(Seq::new(1, |i: int| DIGIT_ZERO) =~= seq![DIGIT_ZERO]);
        }
    }
    push_dec_u64(out, n);
    proof {
        assert(out@ =~= old(out)@ + spec_dec_pad(n as nat, 2));
    }
}

/// Appends the decimal rendering of `n`, zero-padded to four digits.
pub fn push_dec_pad4(out: &mut Vec<u8>, n: u64)
    ensures
        final(out)@ == old(out)@ + spec_dec_pad(n as nat, 4),
{
    proof {
        lemma_dec_len(n as nat);
    }
    if n < 10 {
        out.push(DIGIT_ZERO);
        out.push(DIGIT_ZERO);
        out.push(DIGIT_ZERO);
        proof {
            assert(Seq::new(3, |i: int| DIGIT_ZERO) =~= seq![DIGIT_ZERO, DIGIT_ZERO, DIGIT_ZERO]);
        }
    } else if n < 100 {
        out.push(DIGIT_ZERO);
        out.push(DIGIT_ZERO);
        proof {
            assert(Seq::new(2, |i: int| DIGIT_ZERO) =~= seq![DIGIT_ZERO, DIGIT_ZERO]);
        }
    } else if n < 1000 {
        out.push(DIGIT_ZERO);
        proof {
            assert(Seq::new(1, |i: int| DIGIT_ZERO) =~= seq![DIGIT_ZERO]);
        }
    }
    push_dec_u64(out, n);
    proof {
        assert(out@ =~= old(out)@ + spec_dec_pad(n as nat, 4));
    }
}

/// Reads an unsigned decimal number: `Some` exactly on all-digit, non-empty
/// input whose value fits in a `u64`.
pub fn parse_u64(s: &[u8]) -> (r: Option<u64>)
    ensures
        match r {
            Some(v) => s@.len() >= 1 && all_digits(s@) && dec_value(s@) == v as nat,
            None => !(s@.len() >= 1 && all_digits(s@)) || dec_value(s@) > u64::MAX,
        },
{
    if s.len() == 0 {
        return None;
    }
    let mut acc: u64 = 0;
    let mut i: usize = 0;
    while i < s.len()
        invariant
            0 <= i <= s@.len(),
            all_digits(s@.subrange(0, i as int)),
            acc as nat == dec_value(s@.subrange(0, i as int)),
        decreases s@.len() - i,
    {
        let b = s[i];
        if b < 0x30 || b > 0x39 {
            return None;
        }
        let d = (b - 0x30) as u64;
        let acc10 = match acc.checked_mul(10) {
            Some(x) => x,
            None => {
                proof {
                    lemma_parse_overflow(s@, i as int, acc as nat, d as nat);
                }
                return None;
            },
        };
        let next = match acc10.checked_add(d) {
            Some(x) => x,
            None => {
                proof {
                    lemma_parse_overflow(s@, i as int, acc as nat, d as nat);
                }
                return None;
            },
        };
        proof {
            assert(s@.subrange(0, i + 1).drop_last() =~= s@.subrange(0, i as int));
        }
        acc = next;
        i = i + 1;
    }
    proof {
        assert(s@.subrange(0, s@.len() as int) =~= s@);
    }
    Some(acc)
}

/// If one more digit overflows the accumulator, the whole string's value is
/// out of range.
proof fn lemma_parse_overflow(s: Seq<u8>, i: int, acc: nat, d: nat)
    requires
        0 <= i < s.len(),
        acc == dec_value(s.subrange(0, i)),
        is_digit(s[i]),
        d == digit_val(s[i]),
        acc * 10 + d > u64::MAX,
    ensures
        dec_value(s) > u64::MAX,
{
    let p = s.subrange(0, i + 1);
    assert(p.drop_last() =~= s.subrange(0, i));
    assert(p.last() == s[i]);
    assert(dec_value(p) == acc * 10 + d);
    lemma_dec_value_prefix(s, i + 1);
}

/// Reads an unsigned decimal number: `Some` exactly on all-digit, non-empty
/// input whose value fits in a `u128`.
pub fn parse_u128(s: &[u8]) -> (r: Option<u128>)
    ensures
        match r {
            Some(v) => s@.len() >= 1 && all_digits(s@) && dec_value(s@) == v as nat,
            None => !(s@.len() >= 1 && all_digits(s@)) || dec_value(s@) > u128::MAX,
        },
{
    if s.len() == 0 {
        return None;
    }
    let mut acc: u128 = 0;
    let mut i: usize = 0;
    while i < s.len()
        invariant
            0 <= i <= s@.len(),
            all_digits(s@.subrange(0, i as int)),
            acc as nat == dec_value(s@.subrange(0, i as int)),
        decreases s@.len() - i,
    {
        let b = s[i];
        if b < 0x30 || b > 0x39 {
            return None;
        }
        let d = (b - 0x30) as u128;
        let acc10 = match acc.checked_mul(10) {
            Some(x) => x,
            None => {
                proof {
                    lemma_parse_overflow_u128(s@, i as int, acc as nat, d as nat);
                }
                return None;
            },
        };
        let next = match acc10.checked_add(d) {
            Some(x) => x,
            None => {
                proof {
                    lemma_parse_overflow_u128(s@, i as int, acc as nat, d as nat);
                }
                return None;
            },
        };
        proof {
            assert(s@.subrange(0, i + 1).drop_last() =~= s@.subrange(0, i as int));
        }
        acc = next;
        i = i + 1;
    }
    proof {
        assert(s@.subrange(0, s@.len() as int) =~= s@);
    }
    Some(acc)
}

/// If one more digit overflows the accumulator, the whole string's value is
/// out of range for a `u128`.
proof fn lemma_parse_overflow_u128(s: Seq<u8>, i: int, acc: nat, d: nat)
    requires
        0 <= i < s.len(),
        acc == dec_value(s.subrange(0, i)),
        is_digit(s[i]),
        d == digit_val(s[i]),
        acc * 10 + d > u128::MAX,
    ensures
        dec_value(s) > u128::MAX,
{
    let p = s.subrange(0, i + 1);
    assert(p.drop_last() =~= s.subrange(0, i));
    assert(p.last() == s[i]);
    assert(dec_value(p) == acc * 10 + d);
    lemma_dec_value_prefix(s, i + 1);
}


/// The ASCII code of the decimal point.
pub const DOT: u8 = 0x2e;

/// The fixed-point rendering of a ratio stored in thousandths: the integer
/// part, a decimal point, and exactly three fraction digits.
pub open spec fn spec_ratio(t: nat) -> Seq<u8> {
    spec_dec(t / 1000) + seq![DOT] + spec_dec_pad(t % 1000, 3)
}

/// Ten to the `k`-th power.
pub open spec fn spec_pow10(k: nat) -> nat
    decreases k,
{
    if k == 0 {
        1
    } else {
        10 * spec_pow10((k - 1) as nat)
    }
}

/// The index of the first occurrence of `b` in `s`, or `-1` if absent.
pub open spec fn spec_find(s: Seq<u8>, b: u8) -> int
    decreases s.len(),
{
    if s.len() == 0 {
        -1
    } else if s[0] == b {
        0
    } else {
        let r = spec_find(s.drop_first(), b);
        if r < 0 {
            -1
        } else {
            r + 1
        }
    }
}

/// `spec_find` returns exactly the first occurrence, or `-1` when there is none.
pub proof fn lemma_find_characterization(s: Seq<u8>, b: u8)
    ensures
        spec_find(s, b) == -1 ==> forall|i: int| 0 <= i < s.len() ==> s[i] != b,
        spec_find(s, b) >= 0 ==> {
            let f = spec_find(s, b);
            &&& 0 <= f < s.len()
            &&& s[f] == b
            &&& forall|i: int| 0 <= i < f ==> s[i] != b
        },
    decreases s.len(),
{
    if s.len() > 0 && s[0] != b {
        let t = s.drop_first();
        lemma_find_characterization(t, b);
        let r = spec_find(t, b);
        if r < 0 {
            assert forall|i: int| 0 <= i < s.len() implies s[i] != b by {
                if i > 0 {
                    assert(t[i - 1] == s[i]);
                }
            }
        } else {
            assert(s[r + 1] == t[r]);
            assert forall|i: int| 0 <= i < r + 1 implies s[i] != b by {
                if i > 0 {
                    assert(t[i - 1] == s[i]);
                }
            }
        }
    }
}

/// The first occurrence of `b` is just past a `b`-free prefix.
pub proof fn lemma_find_after_clean_prefix(a: Seq<u8>, rest: Seq<u8>, b: u8)
    requires
        forall|i: int| 0 <= i < a.len() ==> a[i] != b,
        rest.len() > 0,
        rest[0] == b,
    ensures
        spec_find(a + rest, b) == a.len(),
    decreases a.len(),
{
    let s = a + rest;
    if a.len() == 0 {
        assert(s =~= rest);
    } else {
        assert(s[0] == a[0]);
        assert(s.drop_first() =~= a.drop_first() + rest);
        lemma_find_after_clean_prefix(a.drop_first(), rest, b);
    }
}

/// Finds the first occurrence of `b` in `s`, if any.
pub fn find_byte(s: &[u8], b: u8) -> (r: Option<usize>)
    ensures
        match r {
            Some(i) => i == spec_find(s@, b),
            None => spec_find(s@, b) == -1,
        },
{
    proof {
        lemma_find_characterization(s@, b);
    }
    let mut i: usize = 0;
    while i < s.len()
        invariant
            0 <= i <= s@.len(),
            forall|j: int| 0 <= j < i ==> s@[j] != b,
            spec_find(s@, b) == -1 ==> forall|j: int| 0 <= j < s@.len() ==> s@[j] != b,
            spec_find(s@, b) >= 0 ==> {
                let f = spec_find(s@, b);
                &&& 0 <= f < s@.len()
                &&& s@[f] == b
                &&& forall|j: int| 0 <= j < f ==> s@[j] != b
            },
        decreases s@.len() - i,
    {
        if s[i] == b {
            return Some(i);
        }
        i = i + 1;
    }
    None
}

/// Reads a fixed-point ratio in thousandths: either a plain digit string
/// (a whole number of units) or digits, a decimal point, and one to three
/// fraction digits. `None` on any other shape, or when the value does not
/// fit in a `u64`.
pub open spec fn spec_parse_ratio(s: Seq<u8>) -> Option<nat> {
    let d = spec_find(s, DOT);
    if d < 0 {
        if s.len() >= 1 && all_digits(s) {
            Some((dec_value(s) * 1000) as nat)
        } else {
            None
        }
    } else {
        let ip = s.subrange(0, d);
        let fp = s.subrange(d + 1, s.len() as int);
        if ip.len() >= 1 && all_digits(ip) && 1 <= fp.len() <= 3 && all_digits(fp) {
            Some(dec_value(ip) * 1000 + dec_value(fp) * spec_pow10((3 - fp.len()) as nat))
        } else {
            None
        }
    }
}

/// Appends the fixed-point rendering of the ratio `t` (in thousandths).
pub fn push_ratio(out: &mut Vec<u8>, t: u64)
    ensures
        final(out)@ == old(out)@ + spec_ratio(t as nat),
{
    push_dec_u64(out, t / 1000);
    out.push(DOT);
    let frac = t % 1000;
    proof {
        lemma_dec_len(frac as nat);
    }
    if frac < 10 {
        out.push(DIGIT_ZERO);
        out.push(DIGIT_ZERO);
        proof {
            assert(Seq::new(2, |i: int| DIGIT_ZERO) =~= seq![DIGIT_ZERO, DIGIT_ZERO]);
        }
    } else if frac < 100 {
        out.push(DIGIT_ZERO);
        proof {
            assert(Seq::new(1, |i: int| DIGIT_ZERO) =~= seq![DIGIT_ZERO]);
        }
    }
    push_dec_u64(out, frac);
    proof {
        assert(out@ =~= old(out)@ + spec_ratio(t as nat));
    }
}

/// Reads a fixed-point ratio rendered by `push_ratio`, or written as a plain
/// decimal fraction with one to three fraction digits.
pub fn parse_ratio(s: &[u8]) -> (r: Option<u64>)
    ensures
        match r {
            Some(v) => spec_parse_ratio(s@) == Some(v as nat),
            None => !(spec_parse_ratio(s@) matches Some(n) && n <= u64::MAX),
        },
{
    match find_byte(s, DOT) {
        None => {
            match parse_u64(s) {
                Some(v) => {
                    match v.checked_mul(1000) {
                        Some(t) => Some(t),
                        None => None,
                    }
                },
                None => {
                    proof {
                        if s@.len() >= 1 && all_digits(s@) {
                            assert(dec_value(s@) > u64::MAX);
                            assert(dec_value(s@) * 1000 >= dec_value(s@)) by (nonlinear_arith);
                        }
                    }
                    None
                },
            }
        },
        Some(d) => {
            proof {
                lemma_find_characterization(s@, DOT);
                assert(0 <= spec_find(s@, DOT) < s@.len());
            }
            let n = s.len();
            let ip = vstd::slice::slice_subrange(s, 0, d);
            let fp = vstd::slice::slice_subrange(s, d + 1, n);
            if fp.len() < 1 || fp.len() > 3 {
                return None;
            }
            let scale: u64 = if fp.len() == 1 {
                100
            } else if fp.len() == 2 {
                10
            } else {
                1
            };
            proof {
                assert(spec_pow10(0) == 1);
                assert(spec_pow10(1) == 10);
                assert(spec_pow10(2) == 100);
            }
            let iv = match parse_u64(ip) {
                Some(v) => v,
                None => {
                    proof {
                        if ip@.len() >= 1 && all_digits(ip@) {
                            assert(dec_value(ip@) > u64::MAX);
                            assert(dec_value(ip@) * 1000 >= dec_value(ip@)) by (nonlinear_arith);
                        }
                    }
                    return None;
                },
            };
            let fv = match parse_u64(fp) {
                Some(v) => v,
                None => {
                    proof {
                        if fp@.len() >= 1 && all_digits(fp@) {
                            lemma_dec_value_small(fp@);
                        }
                    }
                    return None;
                },
            };
            proof {
                lemma_dec_value_small(fp@);
            }
            proof {
                assert(fv as int * scale as int <= 999 * 100) by (nonlinear_arith)
                    requires
                        fv < 1000,
                        scale <= 100,
                ;
            }
            let scaled = fv * scale;
            match iv.checked_mul(1000) {
                Some(whole) => {
                    match whole.checked_add(scaled) {
                        Some(t) => Some(t),
                        None => None,
                    }
                },
                None => None,
            }
        },
    }
}

/// A digit string of at most three digits has value below a thousand.
pub proof fn lemma_dec_value_small(s: Seq<u8>)
    requires
        all_digits(s),
        s.len() <= 3,
    ensures
        dec_value(s) < spec_pow10(s.len()),
        dec_value(s) < 1000,
    decreases s.len(),
{
    if s.len() > 0 {
        lemma_dec_value_small(s.drop_last());
        assert(spec_pow10(s.len()) == 10 * spec_pow10((s.len() - 1) as nat));
    }
    assert(spec_pow10(0) == 1);
    assert(spec_pow10(1) == 10);
    assert(spec_pow10(2) == 100);
    assert(spec_pow10(3) == 1000);
}

/// Rendering a ratio and reading it back yields the ratio; the rendering
/// holds only digits and one decimal point.
pub proof fn lemma_ratio_round_trip(t: nat)
    ensures
        spec_parse_ratio(spec_ratio(t)) == Some(t),
        forall|i: int|
            0 <= i < spec_ratio(t).len() ==> (is_digit(#[trigger] spec_ratio(t)[i]) || spec_ratio(
                t,
            )[i] == DOT),
        spec_ratio(t).len() >= 1,
{
    let s = spec_ratio(t);
    let ipart = spec_dec(t / 1000);
    let fpart = spec_dec_pad(t % 1000, 3);
    lemma_dec_round_trip(t / 1000);
    lemma_dec_pad_value(t % 1000, 3);
    lemma_dec_len((t % 1000) as nat);
    assert(fpart.len() == 3);
    assert(forall|i: int| 0 <= i < ipart.len() ==> #[trigger] ipart[i] != DOT);
    lemma_find_after_clean_prefix(ipart, seq![DOT] + fpart, DOT);
    assert(ipart + seq![DOT] + fpart =~= ipart + (seq![DOT] + fpart));
    assert(spec_find(s, DOT) == ipart.len());
    assert(s.subrange(0, ipart.len() as int) =~= ipart);
    let iplen = ipart.len() as int;
    assert(s.subrange(iplen + 1, s.len() as int) =~= fpart);
    assert(spec_pow10(0) == 1);
    assert(dec_value(ipart) * 1000 + dec_value(fpart) * 1 == (t / 1000) * 1000 + t % 1000);
    assert((t / 1000) * 1000 + t % 1000 == t) by {
        vstd::arithmetic::div_mod::lemma_fundamental_div_mod(t as int, 1000);
    }
}

/// Whether two byte slices hold the same bytes.
pub fn bytes_eq(a: &[u8], b: &[u8]) -> (r: bool)
    ensures
        r == (a@ == b@),
{
    if a.len() != b.len() {
        return false;
    }
    let mut i: usize = 0;
    while i < a.len()
        invariant
            a@.len() == b@.len(),
            0 <= i <= a@.len(),
            forall|j: int| 0 <= j < i ==> a@[j] == b@[j],
        decreases a@.len() - i,
    {
        if a[i] != b[i] {
            return false;
        }
        i = i + 1;
    }
    proof {
        assert(a@ =~= b@);
    }
    true
}

/// The characters standing for a sequence of ASCII bytes.
pub open spec fn chars_of(s: Seq<u8>) -> Seq<char> {
    s.map_values(|b: u8| b as char)
}

/// Relies on `String::from_utf8`: ASCII bytes are valid UTF-8 and decode to
/// exactly one character per byte.
#[verifier::external_body]
pub fn ascii_to_string(bytes: &Vec<u8>) -> (r: String)
    requires
        forall|i: int| 0 <= i < bytes@.len() ==> bytes@[i] < 128,
    ensures
        r@ == chars_of(bytes@),
        r.is_ascii(),
{
    String::from_utf8(bytes.clone()).expect("ASCII bytes are valid UTF-8")
}


/// Splitting `s` at every occurrence of `sep`: the fields between the
/// separators, in order. Input without separators is one field; every
/// separator adds one field.
pub open spec fn spec_split(s: Seq<u8>, sep: u8) -> Seq<Seq<u8>>
    decreases s.len(),
{
    if s.len() == 0 {
        seq![Seq::<u8>::empty()]
    } else {
        let rest = spec_split(s.drop_first(), sep);
        if s[0] == sep {
            seq![Seq::<u8>::empty()] + rest
        } else {
            seq![seq![s[0]] + rest[0]] + rest.drop_first()
        }
    }
}

/// A split has at least one field.
pub proof fn lemma_split_len(s: Seq<u8>, sep: u8)
    ensures
        spec_split(s, sep).len() >= 1,
    decreases s.len(),
{
    if s.len() > 0 {
        lemma_split_len(s.drop_first(), sep);
    }
}

/// Separator-free input is one single field.
pub proof fn lemma_split_no_sep(s: Seq<u8>, sep: u8)
    requires
        forall|i: int| 0 <= i < s.len() ==> s[i] != sep,
    ensures
        spec_split(s, sep) == seq![s],
    decreases s.len(),
{
    if s.len() > 0 {
        let t = s.drop_first();
        assert(forall|i: int| 0 <= i < t.len() ==> t[i] == s[i + 1]);
        lemma_split_no_sep(t, sep);
        let rest = spec_split(t, sep);
        assert(rest[0] == t);
        assert(seq![s[0]] + t =~= s);
        assert(rest.drop_first() =~= Seq::<Seq<u8>>::empty());
        assert(spec_split(s, sep) =~= seq![s]);
    } else {
        assert(s =~= Seq::<u8>::empty());
        assert(spec_split(s, sep) =~= seq![s]);
    }
}

/// Splitting off a separator-free prefix yields that prefix as the first
/// field, followed by the split of the remainder.
pub proof fn lemma_split_concat(a: Seq<u8>, b: Seq<u8>, sep: u8)
    requires
        forall|i: int| 0 <= i < a.len() ==> a[i] != sep,
    ensures
        spec_split(a + seq![sep] + b, sep) == seq![a] + spec_split(b, sep),
    decreases a.len(),
{
    let s = a + seq![sep] + b;
    if a.len() == 0 {
        assert(s[0] == sep);
        assert(s.drop_first() =~= b);
        assert(a =~= Seq::<u8>::empty());
        assert(spec_split(s, sep) =~= seq![a] + spec_split(b, sep));
    } else {
        let at = a.drop_first();
        assert(forall|i: int| 0 <= i < at.len() ==> at[i] == a[i + 1]);
        assert(s[0] == a[0]);
        assert(s.drop_first() =~= at + seq![sep] + b);
        lemma_split_concat(at, b, sep);
        let rest = spec_split(s.drop_first(), sep);
        lemma_split_len(b, sep);
        assert(rest[0] == at);
        assert(seq![s[0]] + at =~= a);
        assert(rest.drop_first() =~= spec_split(b, sep));
        assert(spec_split(s, sep) =~= seq![a] + spec_split(b, sep));
    }
}

/// The byte sequences a vector of byte vectors stands for.
pub open spec fn views_of(v: Seq<Vec<u8>>) -> Seq<Seq<u8>> {
    v.map_values(|x: Vec<u8>| x@)
}

/// A partial field prepended to the fields still to come.
pub open spec fn prepend_field(x: Seq<u8>, ss: Seq<Seq<u8>>) -> Seq<Seq<u8>> {
    seq![x + ss[0]] + ss.drop_first()
}

/// Splits `s` at every occurrence of `sep`.
pub fn split_bytes(s: &[u8], sep: u8) -> (r: Vec<Vec<u8>>)
    ensures
        views_of(r@) == spec_split(s@, sep),
        r@.len() >= 1,
{
    let mut acc: Vec<Vec<u8>> = Vec::new();
    let mut cur: Vec<u8> = Vec::new();
    let mut i: usize = 0;
    proof {
        assert(s@.subrange(0, s@.len() as int) =~= s@);
        lemma_split_len(s@, sep);
        assert(prepend_field(cur@, spec_split(s@, sep)) =~= spec_split(s@, sep)) by {
            assert(cur@ + spec_split(s@, sep)[0] =~= spec_split(s@, sep)[0]);
        }
    }
    while i < s.len()
        invariant
            0 <= i <= s@.len(),
            spec_split(s@, sep) =~= views_of(acc@) + prepend_field(
                cur@,
                spec_split(s@.subrange(i as int, s@.len() as int), sep),
            ),
        decreases s@.len() - i,
    {
        let ghost suffix = s@.subrange(i as int, s@.len() as int);
        let ghost suffix2 = s@.subrange(i + 1, s@.len() as int);
        proof {
            assert(suffix.len() > 0);
            assert(suffix[0] == s@[i as int]);
            assert(suffix.drop_first() =~= suffix2);
            lemma_split_len(suffix2, sep);
        }
        if s[i] == sep {
            let done = cur;
            cur = Vec::new();
            proof {
                assert(done@ + Seq::<u8>::empty() =~= done@);
                assert(spec_split(suffix, sep) =~= seq![Seq::<u8>::empty()] + spec_split(
                    suffix2,
                    sep,
                ));
                assert(prepend_field(done@, spec_split(suffix, sep)) =~= seq![done@]
                    + spec_split(suffix2, sep));
            }
            let ghost accview = views_of(acc@);
            acc.push(done);
            proof {
                assert(views_of(acc@) =~= accview.push(done@));
                assert(prepend_field(cur@, spec_split(suffix2, sep)) =~= spec_split(
                    suffix2,
                    sep,
                )) by {
                    assert(cur@ + spec_split(suffix2, sep)[0] =~= spec_split(suffix2, sep)[0]);
                }
                assert(spec_split(s@, sep) =~= views_of(acc@) + prepend_field(
                    cur@,
                    spec_split(suffix2, sep),
                ));
            }
        } else {
            let ghost curview = cur@;
            cur.push(s[i]);
            proof {
                let rest = spec_split(suffix2, sep);
                assert(spec_split(suffix, sep) =~= seq![seq![s@[i as int]] + rest[0]]
                    + rest.drop_first());
                assert(cur@ + rest[0] =~= curview + (seq![s@[i as int]] + rest[0]));
                assert(prepend_field(cur@, rest) =~= prepend_field(
                    curview,
                    spec_split(suffix, sep),
                ));
                assert(spec_split(s@, sep) =~= views_of(acc@) + prepend_field(cur@, rest));
            }
        }
        i = i + 1;
    }
    proof {
        let suffix = s@.subrange(i as int, s@.len() as int);
        assert(suffix =~= Seq::<u8>::empty());
        assert(spec_split(suffix, sep) =~= seq![Seq::<u8>::empty()]);
        assert(cur@ + Seq::<u8>::empty() =~= cur@);
        assert(prepend_field(cur@, spec_split(suffix, sep)) =~= seq![cur@]);
    }
    let ghost curview = cur@;
    let ghost accview = views_of(acc@);
    acc.push(cur);
    proof {
        assert(views_of(acc@) =~= accview.push(curview));
        assert(views_of(acc@) =~= spec_split(s@, sep));
    }
    acc
}


/// Whether two strings hold the same characters.
pub fn str_eq(a: &str, b: &str) -> (r: bool)
    ensures
        r == (a@ == b@),
{
    let alen = a.unicode_len();
    let blen = b.unicode_len();
    if alen != blen {
        proof {
            assert(a@ != b@);
        }
        return false;
    }
    let mut i: usize = 0;
    while i < alen
        invariant
            a@.len() == alen,
            b@.len() == alen,
            0 <= i <= alen,
            forall|j: int| 0 <= j < i ==> a@[j] == b@[j],
        decreases alen - i,
    {
        if a.get_char(i) != b.get_char(i) {
            return false;
        }
        i = i + 1;
    }
    proof {
        assert(a@ =~= b@);
    }
    true
}


/// The decimal rendering of `n` as a string.
pub fn dec_string(n: u64) -> (r: String)
    ensures
        r@ == chars_of(spec_dec(n as nat)),
{
    let mut bytes: Vec<u8> = Vec::new();
    push_dec_u64(&mut bytes, n);
    proof {
        lemma_dec_round_trip(n as nat);
    }
    ascii_to_string(&bytes)
}

/// The fixed-point rendering of the ratio `t` (in thousandths) as a string.
pub fn ratio_string(t: u64) -> (r: String)
    ensures
        r@ == chars_of(spec_ratio(t as nat)),
{
    let mut bytes: Vec<u8> = Vec::new();
    push_ratio(&mut bytes, t);
    proof {
        lemma_ratio_round_trip(t as nat);
    }
    ascii_to_string(&bytes)
}

} // verus!
