use vstd::prelude::*;
use vstd::string::StrSliceExecFns;

use crate::record::MAX_AMOUNT;

verus! {

/// Number of fraction digits a unit resolves: amounts are kept in units of 10^-8.
pub const FRACTION_DIGITS: usize = 8;

/// An ASCII decimal digit.
pub open spec fn is_digit(c: char) -> bool {
    '0' <= c && c <= '9'
}

/// Every character is a decimal digit.
pub open spec fn all_digits(s: Seq<char>) -> bool {
    forall|i: int| 0 <= i < s.len() ==> is_digit(#[trigger] s[i])
}

/// Value of a decimal digit.
pub open spec fn digit_value(c: char) -> int {
    (c as u32) as int - ('0' as u32) as int
}

/// Value of a string of decimal digits, most significant first.
pub open spec fn digits_value(s: Seq<char>) -> int
    decreases s.len(),
{
    if s.len() == 0 {
        0
    } else {
        10 * digits_value(s.drop_last()) + digit_value(s.last())
    }
}

/// 10 to the power `n`.
pub open spec fn pow10(n: nat) -> int
    decreases n,
{
    if n == 0 {
        1
    } else {
        10 * pow10((n - 1) as nat)
    }
}

/// `s` is the decimal numeral with whole digits `w` and fraction digits `f`:
/// one or more digits, then, when `f` is not empty, a point and one to eight digits.
pub open spec fn reads_as(s: Seq<char>, w: Seq<char>, f: Seq<char>) -> bool {
    &&& w.len() >= 1
    &&& all_digits(w)
    &&& all_digits(f)
    &&& f.len() <= FRACTION_DIGITS
    &&& if f.len() == 0 {
        s == w
    } else {
        s == w + seq!['.'] + f
    }
}

/// The amount, in units of 10^-8, written with whole digits `w` and fraction digits `f`.
pub open spec fn units_of(w: Seq<char>, f: Seq<char>) -> int {
    digits_value(w + f) * pow10((FRACTION_DIGITS - f.len()) as nat)
}

proof fn lemma_pow10_positive(n: nat)
    ensures
        pow10(n) >= 1,
    decreases n,
{
    if n > 0 {
        lemma_pow10_positive((n - 1) as nat);
    }
}

proof fn lemma_digits_value_nonneg(s: Seq<char>)
    requires
        all_digits(s),
    ensures
        digits_value(s) >= 0,
    decreases s.len(),
{
    if s.len() > 0 {
        lemma_digits_value_nonneg(s.drop_last());
        assert(is_digit(s[s.len() - 1]));
    }
}

/// Appending digits never lowers the value of a digit string.
proof fn lemma_digits_value_prefix(a: Seq<char>, b: Seq<char>)
    requires
        all_digits(a + b),
    ensures
        digits_value(a) <= digits_value(a + b),
    decreases b.len(),
{
    if b.len() > 0 {
        let ab = a + b;
        assert(ab.drop_last() =~= a + b.drop_last());
        assert(all_digits(a + b.drop_last()));
        lemma_digits_value_prefix(a, b.drop_last());
        lemma_digits_value_nonneg(a + b.drop_last());
        assert(is_digit(ab[ab.len() - 1]));
    }
}

/// Any reading of `s` puts its point exactly where its leading digits stop.
proof fn lemma_reading_unique(s: Seq<char>, point: int)
    requires
        0 <= point <= s.len(),
        all_digits(s.subrange(0, point)),
        point < s.len() ==> !is_digit(s[point]),
    ensures
        forall|w: Seq<char>, f: Seq<char>| #[trigger] reads_as(s, w, f) ==> {
            &&& w == s.subrange(0, point)
            &&& (f.len() == 0 <==> point == s.len())
            &&& f.len() > 0 ==> f == s.subrange(point + 1, s.len() as int)
        },
{
    assert forall|w: Seq<char>, f: Seq<char>| #[trigger] reads_as(s, w, f) implies {
        &&& w == s.subrange(0, point)
        &&& (f.len() == 0 <==> point == s.len())
        &&& f.len() > 0 ==> f == s.subrange(point + 1, s.len() as int)
    } by {
        if f.len() == 0 {
            if point < s.len() {
                assert(is_digit(w[point]));
            }
            assert(w =~= s.subrange(0, point));
        } else {
            assert(s[w.len() as int] == '.');
            if point < w.len() {
                assert(is_digit(w[point]));
                assert(s[point] == w[point]);
            }
            if point > w.len() {
                assert(s.subrange(0, point)[w.len() as int] == '.');
            }
            assert(w =~= s.subrange(0, point));
            assert(f =~= s.subrange(point + 1, s.len() as int));
        }
    }
}

/// The amount a numeral denotes, in units of 10^-8, when it reads as a
/// decimal numeral (`reads_as`) of at most `MAX_AMOUNT` units.
pub open spec fn amount_value(s: Seq<char>) -> Option<u64> {
    if exists|w: Seq<char>, f: Seq<char>| reads_as(s, w, f) && units_of(w, f) <= MAX_AMOUNT {
        let (w, f) = choose|w: Seq<char>, f: Seq<char>|
            reads_as(s, w, f) && units_of(w, f) <= MAX_AMOUNT;
        Some(units_of(w, f) as u64)
    } else {
        None
    }
}

/// Parses a decimal numeral such as `"27123.45000000"` into units of 10^-8.
/// `None` when `s` is no numeral of that form or its amount exceeds `MAX_AMOUNT`.
pub fn parse_amount(s: &str) -> (r: Option<u64>)
    ensures
        r == amount_value(s@),
        r matches Some(u) ==> u <= MAX_AMOUNT,
{
    let r = scan_amount(s);
    proof {
        match r {
            Some(u) => {
                let (w, f) = choose|w: Seq<char>, f: Seq<char>|
                    reads_as(s@, w, f) && units_of(w, f) == u as int && forall|
                        w2: Seq<char>,
                        f2: Seq<char>,
                    | #[trigger] reads_as(s@, w2, f2) ==> w2 == w && f2 == f;
                assert(reads_as(s@, w, f) && units_of(w, f) <= MAX_AMOUNT);
            },
            None => {},
        }
    }
    r
}

/// The scanner behind `parse_amount`.
fn scan_amount(s: &str) -> (r: Option<u64>)
    ensures
        r matches Some(u) ==> exists|w: Seq<char>, f: Seq<char>|
            reads_as(s@, w, f) && units_of(w, f) == u as int && u <= MAX_AMOUNT && forall|
                w2: Seq<char>,
                f2: Seq<char>,
            | #[trigger] reads_as(s@, w2, f2) ==> w2 == w && f2 == f,
        r is None ==> forall|w: Seq<char>, f: Seq<char>|
            reads_as(s@, w, f) ==> units_of(w, f) > MAX_AMOUNT,
{
    let ghost sv = s@;
    let n = s.unicode_len();
    let mut point: usize = 0;
    while point < n && '0' <= s.get_char(point) && s.get_char(point) <= '9'
        invariant
            n == s@.len(),
            point <= n,
            all_digits(s@.subrange(0, point as int)),
        decreases n - point,
    {
        point += 1;
        proof {
            assert(all_digits(s@.subrange(0, point as int)));
        }
    }
    proof {
        lemma_reading_unique(sv, point as int);
    }
    if point == 0 {
        return None;
    }
    let frac_len: usize = if point == n {
        0
    } else {
        n - point - 1
    };
    if point < n {
        if s.get_char(point) != '.' || frac_len == 0 || frac_len > FRACTION_DIGITS {
            return None;
        }
        let mut k: usize = point + 1;
        while k < n
            invariant
                n == s@.len(),
                sv == s@,
                point < k <= n,
                all_digits(s@.subrange(point + 1, k as int)),
                forall|w: Seq<char>, f: Seq<char>| #[trigger] reads_as(sv, w, f) ==> {
                    &&& w == sv.subrange(0, point as int)
                    &&& (f.len() == 0 <==> point == sv.len())
                    &&& f.len() > 0 ==> f == sv.subrange(point + 1, sv.len() as int)
                },
            decreases n - k,
        {
            let c = s.get_char(k);
            if !('0' <= c && c <= '9') {
                proof {
                    assert forall|w: Seq<char>, f: Seq<char>| reads_as(sv, w, f) implies units_of(
                        w,
                        f,
                    ) > MAX_AMOUNT by {
                        assert(f[k - point - 1] == c);
                    }
                }
                return None;
            }
            k += 1;
            proof {
                assert(all_digits(s@.subrange(point + 1, k as int)));
            }
        }
    }
    let ghost w = sv.subrange(0, point as int);
    let ghost f = if point == n {
        Seq::<char>::empty()
    } else {
        sv.subrange(point + 1, n as int)
    };
    proof {
        if point < n {
            assert(sv =~= w + seq!['.'] + f);
        } else {
            assert(sv =~= w);
        }
        assert(reads_as(sv, w, f));
    }
    // Accumulate the digits of `w` then `f`, giving up once past the bound.
    let ghost digits = w + f;
    let ghost rest = (FRACTION_DIGITS - f.len()) as nat;
    let mut acc: u64 = 0;
    let mut i: usize = 0;
    let total: usize = point + frac_len;
    while i < total
        invariant
            n == s@.len(),
            sv == s@,
            point <= n,
            point < n ==> frac_len == n - point - 1,
            point == n ==> frac_len == 0,
            w == sv.subrange(0, point as int),
            point < n ==> f == sv.subrange(point + 1, n as int),
            point == n ==> f.len() == 0,
            reads_as(sv, w, f),
            digits == w + f,
            rest == (FRACTION_DIGITS - f.len()) as nat,
            total == point + frac_len,
            i <= total,
            acc == digits_value(digits.subrange(0, i as int)),
            acc <= MAX_AMOUNT,
            forall|w2: Seq<char>, f2: Seq<char>| #[trigger] reads_as(sv, w2, f2) ==> w2 == w && f2
                == f,
        decreases total - i,
    {
        let c = if i < point {
            s.get_char(i)
        } else {
            s.get_char(i + 1)
        };
        proof {
            assert(c == digits[i as int]);
            assert(digits.subrange(0, i as int + 1).drop_last() =~= digits.subrange(0, i as int));
            assert(is_digit(c));
        }
        let d = (c as u32 - '0' as u32) as u64;
        if acc > (MAX_AMOUNT - d) / 10 {
            proof {
                let p = digits.subrange(0, i as int + 1);
                assert(digits_value(p) > MAX_AMOUNT);
                assert(digits =~= p + digits.subrange(i as int + 1, digits.len() as int));
                lemma_digits_value_prefix(p, digits.subrange(i as int + 1, digits.len() as int));
                lemma_pow10_positive(rest);
                assert(digits_value(digits) * pow10(rest) >= digits_value(digits))
                    by (nonlinear_arith)
                    requires
                        digits_value(digits) >= 0,
                        pow10(rest) >= 1,
                ;
            }
            return None;
        }
        acc = acc * 10 + d;
        i += 1;
    }
    proof {
        assert(digits.subrange(0, total as int) =~= digits);
        lemma_digits_value_nonneg(digits);
    }
    let mut scaled: u64 = acc;
    let mut j: usize = frac_len;
    while j < FRACTION_DIGITS
        invariant
            sv == s@,
            frac_len <= j <= FRACTION_DIGITS,
            f.len() == frac_len,
            rest == (FRACTION_DIGITS - f.len()) as nat,
            digits_value(digits) >= 0,
            scaled == digits_value(digits) * pow10((j - frac_len) as nat),
            scaled <= MAX_AMOUNT,
            digits == w + f,
            reads_as(sv, w, f),
            forall|w2: Seq<char>, f2: Seq<char>| #[trigger] reads_as(sv, w2, f2) ==> w2 == w && f2
                == f,
        decreases FRACTION_DIGITS - j,
    {
        let ghost e = (j - frac_len) as nat;
        let ghost tail = (FRACTION_DIGITS - j - 1) as nat;
        proof {
            assert(pow10(e + 1) == 10 * pow10(e));
            lemma_pow10_tail(e + 1, tail);
            assert(e + 1 + tail == rest);
        }
        if scaled > MAX_AMOUNT / 10 {
            proof {
                lemma_pow10_positive(tail);
                let dv = digits_value(digits);
                assert(units_of(w, f) == dv * pow10(rest));
                assert(dv * pow10(rest) == dv * ((10 * pow10(e)) * pow10(tail)));
                assert(dv * ((10 * pow10(e)) * pow10(tail)) == (scaled * 10) * pow10(tail))
                    by (nonlinear_arith)
                    requires
                        scaled == dv * pow10(e),
                ;
                assert((scaled * 10) * pow10(tail) > MAX_AMOUNT) by (nonlinear_arith)
                    requires
                        pow10(tail) >= 1,
                        scaled * 10 > MAX_AMOUNT,
                ;
                assert forall|w2: Seq<char>, f2: Seq<char>| reads_as(sv, w2, f2) implies units_of(
                    w2,
                    f2,
                ) > MAX_AMOUNT by {}
            }
            return None;
        }
        proof {
            assert(digits_value(digits) * (10 * pow10(e)) == scaled * 10) by (nonlinear_arith)
                requires
                    scaled == digits_value(digits) * pow10(e),
            ;
        }
        scaled = scaled * 10;
        j += 1;
    }
    proof {
        assert(units_of(w, f) == scaled);
    }
    Some(scaled)
}

/// Splitting a power of ten.
proof fn lemma_pow10_tail(a: nat, b: nat)
    ensures
        pow10(a + b) == pow10(a) * pow10(b),
    decreases b,
{
    if b > 0 {
        lemma_pow10_tail(a, (b - 1) as nat);
        assert(pow10(a + b) == 10 * pow10((a + b - 1) as nat));
        assert(pow10(a) * (10 * pow10((b - 1) as nat)) == 10 * (pow10(a) * pow10((b - 1) as nat)))
            by (nonlinear_arith);
    }
}

} // verus!
