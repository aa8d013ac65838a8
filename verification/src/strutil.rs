//! Verified string helpers: decimal parsing and rendering.
//!
//! Timetable departure times arrive as decimal strings and the GTFS tables
//! are rendered as text, so the library needs an exact account of what a
//! decimal string denotes (`dec_val`) and how a number is rendered
//! (`dec_str`), including the zero-padded two-digit form used in
//! `HH:MM:SS` times and the fixed-point coordinate rendering used in
//! `stops.txt` and `shapes.txt`.

use vstd::prelude::*;
use vstd::string::StrSliceExecFns;
use vstd::string::StringExecFns;

verus! {

/// Whether `c` is an ASCII decimal digit.
pub open spec fn is_digit(c: char) -> bool {
    48 <= c as int && c as int <= 57
}

/// The numeric value of an ASCII decimal digit.
pub open spec fn digit_val(c: char) -> int {
    c as int - 48
}

/// Whether every character of `s` is an ASCII decimal digit.
pub open spec fn all_digits(s: Seq<char>) -> bool {
    forall|i: int| 0 <= i < s.len() ==> is_digit(#[trigger] s[i])
}

/// The number denoted by a string of decimal digits (most significant
/// first); the empty string denotes zero.
pub open spec fn dec_val(s: Seq<char>) -> int
    decreases s.len(),
{
    if s.len() == 0 {
        0
    } else {
        dec_val(s.drop_last()) * 10 + digit_val(s.last())
    }
}

/// The digit character for a value in 0..=9.
pub open spec fn digit_char(d: int) -> char
    recommends
        0 <= d <= 9,
{
    if d == 0 {
        '0'
    } else if d == 1 {
        '1'
    } else if d == 2 {
        '2'
    } else if d == 3 {
        '3'
    } else if d == 4 {
        '4'
    } else if d == 5 {
        '5'
    } else if d == 6 {
        '6'
    } else if d == 7 {
        '7'
    } else if d == 8 {
        '8'
    } else {
        '9'
    }
}

/// The decimal rendering of a non-negative number, without leading zeros
/// (except for zero itself).
pub open spec fn dec_str(n: int) -> Seq<char>
    recommends
        n >= 0,
    decreases n,
{
    if n < 10 {
        seq![digit_char(n)]
    } else {
        dec_str(n / 10).push(digit_char(n % 10))
    }
}

/// The decimal rendering of a non-negative number, zero-padded to at
/// least two digits.
pub open spec fn pad2_str(n: int) -> Seq<char>
    recommends
        n >= 0,
{
    if n < 10 {
        seq!['0'] + dec_str(n)
    } else {
        dec_str(n)
    }
}

/// A digit string denotes a non-negative number.
pub proof fn lemma_dec_val_nonneg(s: Seq<char>)
    requires
        all_digits(s),
    ensures
        dec_val(s) >= 0,
    decreases s.len(),
{
    if s.len() > 0 {
        assert(all_digits(s.drop_last())) by {
            assert(forall|i: int|
                0 <= i < s.len() - 1 ==> s.drop_last()[i] == #[trigger] s[i]);
        }
        lemma_dec_val_nonneg(s.drop_last());
        assert(is_digit(s.last()));
    }
}

/// Extending a digit string never decreases its value.
proof fn lemma_dec_val_prefix(s: Seq<char>, j: int)
    requires
        all_digits(s),
        0 <= j <= s.len(),
    ensures
        dec_val(s.take(j)) <= dec_val(s),
    decreases s.len() - j,
{
    if j < s.len() {
        lemma_dec_val_prefix(s, j + 1);
        assert(s.take(j + 1).drop_last() =~= s.take(j));
        assert(s.take(j + 1).last() == s[j]);
        assert(all_digits(s.take(j))) by {
            assert(forall|i: int| 0 <= i < j ==> s.take(j)[i] == #[trigger] s[i]);
        }
        lemma_dec_val_nonneg(s.take(j));
        assert(is_digit(s[j]));
        assert(dec_val(s.take(j)) <= dec_val(s.take(j)) * 10 + digit_val(s[j]));
    } else {
        assert(s.take(j) =~= s);
    }
}

/// Structural string equality, by character-wise comparison.
pub fn str_eq(a: &str, b: &str) -> (r: bool)
    ensures
        r == (a@ == b@),
{
    let la = a.unicode_len();
    let lb = b.unicode_len();
    if la != lb {
        return false;
    }
    let mut i: usize = 0;
    while i < la
        invariant
            la == a@.len() && la == b@.len(),
            i <= la,
            forall|k: int| 0 <= k < i ==> a@[k] == #[trigger] b@[k],
        decreases la - i,
    {
        if a.get_char(i) != b.get_char(i) {
            return false;
        }
        i = i + 1;
    }
    proof {
        assert(a@ =~= b@);
    }
    true
}

/// Parses a string of decimal digits into a number.  Succeeds exactly on
/// non-empty all-digit strings whose value fits in a `u64`.
pub fn parse_u64(s: &str) -> (r: Option<u64>)
    ensures
        (r is Some) <==> (s@.len() > 0 && all_digits(s@) && dec_val(s@) <= u64::MAX),
        r matches Some(n) ==> n == dec_val(s@),
{
    let len = s.unicode_len();
    if len == 0 {
        return None;
    }
    let mut n: u64 = 0;
    let mut i: usize = 0;
    while i < len
        invariant
            len == s@.len(),
            0 <= i <= len,
            all_digits(s@.take(i as int)),
            n == dec_val(s@.take(i as int)),
        decreases len - i,
    {
        let c = s.get_char(i);
        let u = c as u32;
        if u < 48 || u > 57 {
            proof {
                assert(!is_digit(s@[i as int]));
            }
            return None;
        }
        let d = (u - 48) as u64;
        if n > (u64::MAX - d) / 10 {
            proof {
                assert(s@.take(i as int + 1).drop_last() =~= s@.take(i as int));
                assert(s@.take(i as int + 1).last() == s@[i as int]);
                assert(all_digits(s@.take(i as int + 1))) by {
                    assert(forall|k: int|
                        0 <= k < i + 1 ==> s@.take(i as int + 1)[k] == #[trigger] s@[k]);
                }
                assert(dec_val(s@.take(i as int + 1)) > u64::MAX);
                if all_digits(s@) {
                    lemma_dec_val_prefix(s@, i as int + 1);
                }
            }
            return None;
        }
        n = n * 10 + d;
        proof {
            assert(s@.take(i as int + 1).drop_last() =~= s@.take(i as int));
            assert(s@.take(i as int + 1).last() == s@[i as int]);
            assert(all_digits(s@.take(i as int + 1))) by {
                assert(forall|k: int|
                    0 <= k < i + 1 ==> s@.take(i as int + 1)[k] == #[trigger] s@[k]);
            }
        }
        i = i + 1;
    }
    proof {
        assert(s@.take(len as int) =~= s@);
    }
    Some(n)
}

/// The one-character string for a decimal digit.
fn digit_str(d: u64) -> (r: &'static str)
    requires
        d < 10,
    ensures
        r@ == seq![digit_char(d as int)],
{
    let r: &'static str = if d == 0 {
        "0"
    } else if d == 1 {
        "1"
    } else if d == 2 {
        "2"
    } else if d == 3 {
        "3"
    } else if d == 4 {
        "4"
    } else if d == 5 {
        "5"
    } else if d == 6 {
        "6"
    } else if d == 7 {
        "7"
    } else if d == 8 {
        "8"
    } else {
        "9"
    };
    proof {
        reveal_strlit("0");
        reveal_strlit("1");
        reveal_strlit("2");
        reveal_strlit("3");
        reveal_strlit("4");
        reveal_strlit("5");
        reveal_strlit("6");
        reveal_strlit("7");
        reveal_strlit("8");
        reveal_strlit("9");
        assert(r@ =~= seq![digit_char(d as int)]);
    }
    r
}

/// Renders a number in decimal.
pub fn u64_to_dec(n: u64) -> (r: String)
    ensures
        r@ == dec_str(n as int),
    decreases n,
{
    if n < 10 {
        digit_str(n).to_owned()
    } else {
        let mut r = u64_to_dec(n / 10);
        r.append(digit_str(n % 10));
        proof {
            assert(r@ =~= dec_str(n as int));
        }
        r
    }
}

/// Renders a number in decimal, zero-padded to at least two digits.
pub fn u64_to_pad2(n: u64) -> (r: String)
    ensures
        r@ == pad2_str(n as int),
{
    if n < 10 {
        let mut r = String::new();
        r.append("0");
        r.append(digit_str(n));
        proof {
            reveal_strlit("0");
            assert(r@ =~= pad2_str(n as int));
        }
        r
    } else {
        u64_to_dec(n)
    }
}

/// The `k`-digit zero-padded rendering of `fp` (least significant digit
/// last).
pub open spec fn padded_digits(fp: int, k: nat) -> Seq<char>
    decreases k,
{
    if k == 0 {
        Seq::empty()
    } else {
        padded_digits(fp / 10, (k - 1) as nat).push(digit_char(fp % 10))
    }
}

/// The fractional digits of `fp` out of `k` places, with trailing zeros
/// removed.
pub open spec fn trimmed_frac(fp: int, k: nat) -> Seq<char>
    decreases k,
{
    if k == 0 {
        Seq::empty()
    } else if fp % 10 == 0 {
        trimmed_frac(fp / 10, (k - 1) as nat)
    } else {
        padded_digits(fp, k)
    }
}

/// The decimal rendering of a fixed-point value scaled by 10,000:
/// an optional sign, the integer part, and, when non-zero, a point
/// followed by up to four fractional digits with trailing zeros removed.
pub open spec fn fixed4_str(v: int) -> Seq<char> {
    let a = if v < 0 {
        -v
    } else {
        v
    };
    let sign: Seq<char> = if v < 0 {
        seq!['-']
    } else {
        Seq::empty()
    };
    let ip = a / 10_000;
    let fp = a % 10_000;
    if fp == 0 {
        sign + dec_str(ip)
    } else {
        sign + dec_str(ip) + seq!['.'] + trimmed_frac(fp, 4)
    }
}

/// Renders `fp` (with `k` digit places) zero-padded.
fn padded_dec(fp: u64, k: u64) -> (r: String)
    requires
        k <= 4,
    ensures
        r@ == padded_digits(fp as int, k as nat),
    decreases k,
{
    if k == 0 {
        String::new()
    } else {
        let mut r = padded_dec(fp / 10, k - 1);
        r.append(digit_str(fp % 10));
        proof {
            assert(r@ =~= padded_digits(fp as int, k as nat));
        }
        r
    }
}

/// Renders a fixed-point value scaled by 10,000 in decimal.
pub fn fixed4_to_string(v: i64) -> (r: String)
    ensures
        r@ == fixed4_str(v as int),
{
    let a: u64 = if v < 0 {
        (-(v as i128)) as u64
    } else {
        v as u64
    };
    let mut r = String::new();
    if v < 0 {
        r.append("-");
        proof {
            reveal_strlit("-");
        }
    }
    let ip = a / 10_000;
    let fp = a % 10_000;
    let ips = u64_to_dec(ip);
    r.append(ips.as_str());
    if fp > 0 {
        r.append(".");
        proof {
            reveal_strlit(".");
            assert(pow10(0) == 1);
            assert(pow10(1) == 10);
            assert(pow10(2) == 100);
            assert(pow10(3) == 1000);
            assert(pow10(4) == 10_000);
        }
        let mut f: u64 = fp;
        let mut k: u64 = 4;
        while f % 10 == 0
            invariant
                0 < f,
                1 <= k <= 4,
                (f as int) < pow10(k as nat),
                trimmed_frac(fp as int, 4) == trimmed_frac(f as int, k as nat),
            decreases k,
        {
            proof {
                assert(pow10(0) == 1);
                assert(pow10(1) == 10);
                if k == 1 {
                    assert(false);
                }
                assert(pow10(k as nat) == 10 * pow10((k - 1) as nat));
                assert(10 * ((f as int) / 10) == f as int);
                assert((f as int) / 10 < pow10((k - 1) as nat));
            }
            f = f / 10;
            k = k - 1;
        }
        let fs = padded_dec(f, k);
        r.append(fs.as_str());
    }
    proof {
        assert(r@ =~= fixed4_str(v as int));
    }
    r
}

/// Ten to the power `k`.
pub open spec fn pow10(k: nat) -> int
    decreases k,
{
    if k == 0 {
        1
    } else {
        10 * pow10((k - 1) as nat)
    }
}

/// Renders a number in decimal (wide form, for sequence counters).
pub fn u128_to_dec(n: u128) -> (r: String)
    ensures
        r@ == dec_str(n as int),
    decreases n,
{
    if n < 10 {
        digit_str((n % 10) as u64).to_owned()
    } else {
        let mut r = u128_to_dec(n / 10);
        r.append(digit_str((n % 10) as u64));
        proof {
            assert(r@ =~= dec_str(n as int));
        }
        r
    }
}

/// Ten to the `k` is positive.
pub proof fn lemma_pow10_pos(k: nat)
    ensures
        pow10(k) >= 1,
    decreases k,
{
    if k > 0 {
        lemma_pow10_pos((k - 1) as nat);
    }
}

/// Ten to the `k` is monotone in `k`.
pub proof fn lemma_pow10_mono(a: nat, b: nat)
    requires
        a <= b,
    ensures
        pow10(a) <= pow10(b),
    decreases b,
{
    if a < b {
        lemma_pow10_mono(a, (b - 1) as nat);
        lemma_pow10_pos((b - 1) as nat);
    }
}

/// The value of ten to the fourteenth.
pub proof fn lemma_pow10_14()
    ensures
        pow10(14) == 100_000_000_000_000,
{
    assert(pow10(0) == 1);
    assert(pow10(1) == 10);
    assert(pow10(2) == 100);
    assert(pow10(3) == 1000);
    assert(pow10(4) == 10_000);
    assert(pow10(5) == 100_000);
    assert(pow10(6) == 1_000_000);
    assert(pow10(7) == 10_000_000);
    assert(pow10(8) == 100_000_000);
    assert(pow10(9) == 1_000_000_000);
    assert(pow10(10) == 10_000_000_000);
    assert(pow10(11) == 100_000_000_000);
    assert(pow10(12) == 1_000_000_000_000);
    assert(pow10(13) == 10_000_000_000_000);
    assert(pow10(14) == 100_000_000_000_000);
}

/// Parses the integer digits of a fixed-point decimal from index `i`,
/// with `acc` the value and `ndig` the count of the digits read so far.
/// At a point the fractional digits take over; a number needs one to
/// fourteen integer digits and nothing but digits and at most one point.
pub open spec fn mag_from(s: Seq<char>, i: int, acc: int, ndig: int) -> Option<(int, bool)>
    decreases s.len() - i,
{
    if i < 0 || i >= s.len() {
        if 1 <= ndig <= 14 {
            Some((acc * 10_000, false))
        } else {
            None
        }
    } else if s[i] == '.' {
        if 1 <= ndig <= 14 {
            frac_from(s, i + 1, acc * 10_000, 0, 0, false)
        } else {
            None
        }
    } else if is_digit(s[i]) {
        if ndig >= 14 {
            None
        } else {
            mag_from(s, i + 1, acc * 10 + digit_val(s[i]), ndig + 1)
        }
    } else {
        None
    }
}

/// Parses fractional digits from index `i`: the first four contribute to
/// the scaled value `f4`; any further non-zero digit sets the remainder
/// flag.  A point with no digits after it is rejected.
pub open spec fn frac_from(
    s: Seq<char>,
    i: int,
    base: int,
    f4: int,
    seen: int,
    rem: bool,
) -> Option<(int, bool)>
    decreases s.len() - i,
{
    if i < 0 || i >= s.len() {
        if seen >= 1 {
            let padded = if seen >= 4 {
                f4
            } else {
                f4 * pow10((4 - seen) as nat)
            };
            Some((base + padded, rem))
        } else {
            None
        }
    } else if is_digit(s[i]) {
        if seen < 4 {
            frac_from(s, i + 1, base, f4 * 10 + digit_val(s[i]), seen + 1, rem)
        } else {
            frac_from(s, i + 1, base, f4, seen + 1, rem || digit_val(s[i]) != 0)
        }
    } else {
        None
    }
}

/// The value of a decimal coordinate string scaled by 10,000 and rounded
/// toward negative infinity, or nothing if the string is not a plain
/// signed decimal: an optional minus sign, one to fourteen integer
/// digits, and an optional point followed by at least one digit.
/// Exponent notation is deliberately not accepted: coordinates arrive as
/// plain decimals, and a number in any other form is treated as
/// undecodable by the callers.
pub open spec fn scaled_val(s: Seq<char>) -> Option<int> {
    if s.len() > 0 && s[0] == '-' {
        match mag_from(s, 1, 0, 0) {
            Some(mr) => Some(-mr.0 - (if mr.1 {
                1int
            } else {
                0int
            })),
            None => None,
        }
    } else {
        match mag_from(s, 0, 0, 0) {
            Some(mr) => Some(mr.0),
            None => None,
        }
    }
}

/// Parses a decimal coordinate string into its value scaled by 10,000,
/// rounded toward negative infinity.
#[verifier::loop_isolation(false)]
pub fn parse_scaled(s: &str) -> (r: Option<i64>)
    ensures
        (r is Some) == (scaled_val(s@) is Some),
        r matches Some(v) ==> Some(v as int) == scaled_val(s@),
{
    let len = s.unicode_len();
    let neg = len > 0 && s.get_char(0) == '-';
    let start: usize = if neg {
        1
    } else {
        0
    };
    let mut i = start;
    let mut acc: u64 = 0;
    let mut ndig: u64 = 0;
    proof {
        assert(pow10(0) == 1);
    }
    while i < len && s.get_char(i) != '.'
        invariant
            len == s@.len(),
            start <= i <= len,
            ndig == i - start,
            ndig <= 14,
            (acc as int) < pow10(ndig as nat),
            mag_from(s@, start as int, 0, 0) == mag_from(s@, i as int, acc as int, ndig as int),
        decreases len - i,
    {
        let c = s.get_char(i);
        let u = c as u32;
        if u < 48 || u > 57 {
            proof {
                assert(!is_digit(s@[i as int]));
                assert(s@[i as int] != '.');
            }
            return None;
        }
        if ndig >= 14 {
            return None;
        }
        proof {
            lemma_pow10_mono(ndig as nat, 13);
            lemma_pow10_14();
            assert(pow10(14) == 10 * pow10(13));
            assert(pow10((ndig + 1) as nat) == 10 * pow10(ndig as nat));
        }
        let d = (u - 48) as u64;
        acc = acc * 10 + d;
        ndig = ndig + 1;
        i = i + 1;
    }
    if ndig == 0 || ndig > 14 {
        return None;
    }
    proof {
        lemma_pow10_mono(ndig as nat, 14);
        lemma_pow10_14();
    }
    let base: u64 = acc * 10_000;
    let magrem: (u64, bool) = if i == len {
        (base, false)
    } else {
        // fractional part after the point
        let mut k: usize = i + 1;
        let mut f4: u64 = 0;
        let mut seen: u64 = 0;
        let mut rem = false;
        while k < len
            invariant
                len == s@.len(),
                i + 1 <= k <= len,
                seen == k - i - 1,
                seen < 4 ==> f4 < pow10(seen as nat),
                seen >= 4 ==> f4 < 10_000,
                frac_from(s@, i as int + 1, base as int, 0, 0, false) == frac_from(
                    s@,
                    k as int,
                    base as int,
                    f4 as int,
                    seen as int,
                    rem,
                ),
            decreases len - k,
        {
            let c = s.get_char(k);
            let u = c as u32;
            if u < 48 || u > 57 {
                proof {
                    assert(!is_digit(s@[k as int]));
                }
                return None;
            }
            let d = (u - 48) as u64;
            if seen < 4 {
                proof {
                    assert(pow10(0) == 1);
                    assert(pow10(1) == 10);
                    assert(pow10(2) == 100);
                    assert(pow10(3) == 1000);
                    assert(pow10(4) == 10_000);
                    lemma_pow10_mono(seen as nat, 3);
                    assert(pow10((seen + 1) as nat) == 10 * pow10(seen as nat));
                }
                f4 = f4 * 10 + d;
            } else {
                if d != 0 {
                    rem = true;
                }
            }
            seen = seen + 1;
            k = k + 1;
        }
        if seen == 0 {
            return None;
        }
        proof {
            assert(pow10(0) == 1);
            assert(pow10(1) == 10);
            assert(pow10(2) == 100);
            assert(pow10(3) == 1000);
        }
        let padded: u64 = if seen >= 4 {
            f4
        } else if seen == 3 {
            f4 * 10
        } else if seen == 2 {
            f4 * 100
        } else {
            f4 * 1000
        };
        (base + padded, rem)
    };
    proof {
        assert(Some((magrem.0 as int, magrem.1)) == mag_from(
            s@,
            start as int,
            0,
            0,
        ));
    }
    if neg {
        let v: i64 = -(magrem.0 as i64) - (if magrem.1 {
            1
        } else {
            0
        });
        Some(v)
    } else {
        Some(magrem.0 as i64)
    }
}

/// Distinct digits render as distinct characters.
pub proof fn lemma_digit_char_injective(x: int, y: int)
    requires
        0 <= x <= 9,
        0 <= y <= 9,
        x != y,
    ensures
        digit_char(x) != digit_char(y),
{
}

/// A decimal rendering has one character per digit, at least one.
proof fn lemma_dec_str_len(n: int)
    requires
        n >= 0,
    ensures
        dec_str(n).len() >= 1,
        n >= 10 ==> dec_str(n).len() >= 2,
    decreases n,
{
    if n >= 10 {
        lemma_dec_str_len(n / 10);
    }
}

/// Distinct numbers render as distinct decimal strings.
pub proof fn lemma_dec_str_injective(a: int, b: int)
    requires
        0 <= a,
        0 <= b,
        a != b,
    ensures
        dec_str(a) != dec_str(b),
    decreases a + b,
{
    if a < 10 && b < 10 {
        lemma_digit_char_injective(a, b);
        assert(dec_str(a)[0] == digit_char(a));
        assert(dec_str(b)[0] == digit_char(b));
    } else if a < 10 {
        lemma_dec_str_len(b);
        assert(dec_str(a).len() == 1);
    } else if b < 10 {
        lemma_dec_str_len(a);
        assert(dec_str(b).len() == 1);
    } else {
        if a % 10 != b % 10 {
            lemma_digit_char_injective(a % 10, b % 10);
            if dec_str(a) == dec_str(b) {
                assert(dec_str(a).last() == digit_char(a % 10));
                assert(dec_str(b).last() == digit_char(b % 10));
                assert(false);
            }
        } else {
            assert(a / 10 != b / 10);
            lemma_dec_str_injective(a / 10, b / 10);
            if dec_str(a) == dec_str(b) {
                assert(dec_str(a).drop_last() == dec_str(a / 10));
                assert(dec_str(b).drop_last() == dec_str(b / 10));
                assert(false);
            }
        }
    }
}

/// Distinct numbers render as distinct zero-padded strings.
pub proof fn lemma_pad2_injective(a: int, b: int)
    requires
        0 <= a,
        0 <= b,
        a != b,
    ensures
        pad2_str(a) != pad2_str(b),
{
    if a < 10 && b < 10 {
        lemma_digit_char_injective(a, b);
        assert(pad2_str(a)[1] == digit_char(a));
        assert(pad2_str(b)[1] == digit_char(b));
    } else if a >= 10 && b >= 10 {
        lemma_dec_str_injective(a, b);
    } else {
        let small = if a < 10 {
            a
        } else {
            b
        };
        let big = if a < 10 {
            b
        } else {
            a
        };
        assert(pad2_str(small).len() == 2);
        lemma_dec_str_len(big / 10);
        assert(dec_str(big) == dec_str(big / 10).push(digit_char(big % 10)));
        if dec_str(big).len() == 2 {
            assert(dec_str(big / 10).len() == 1);
            assert(big / 10 < 10) by {
                if big / 10 >= 10 {
                    lemma_dec_str_len(big / 10);
                }
            }
            assert(dec_str(big / 10) == seq![digit_char(big / 10)]);
            assert(dec_str(big)[0] == digit_char(big / 10));
            assert(pad2_str(small)[0] == '0');
            lemma_digit_char_injective(0, big / 10);
            assert(digit_char(0) == '0');
            assert(pad2_str(small) != pad2_str(big));
        } else {
            assert(pad2_str(small).len() != pad2_str(big).len());
        }
    }
}

} // verus!
