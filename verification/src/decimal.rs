//! Parsing of the exchanges' textual decimal numbers into fixed-point
//! integers scaled by 1e8.
//!
//! The accepted grammar is `digits` or `digits '.' digits`, with one to
//! ten integer digits and one to eight fractional digits. Everything a
//! depth feed quotes fits comfortably; anything longer is rejected
//! rather than rounded.

use vstd::prelude::*;

use crate::common::PRICE_MAX;
use crate::common::PRICE_SCALE;

verus! {

/// ASCII `'.'`.
pub const DOT: u8 = 46;

/// ASCII `'0'`.
pub const DIGIT_ZERO: u8 = 48;

/// ASCII `'9'`.
pub const DIGIT_NINE: u8 = 57;

pub open spec fn is_digit(b: u8) -> bool {
    DIGIT_ZERO <= b <= DIGIT_NINE
}

pub open spec fn all_digits(s: Seq<u8>) -> bool {
    forall|i: int| 0 <= i < s.len() ==> is_digit(#[trigger] s[i])
}

/// The unsigned value of a digit string, most significant digit first.
pub open spec fn digits_val(s: Seq<u8>) -> int
    decreases s.len(),
{
    if s.len() == 0 {
        0
    } else {
        digits_val(s.drop_last()) * 10 + (s.last() - DIGIT_ZERO)
    }
}

pub open spec fn pow10(k: int) -> int
    decreases k,
{
    if k <= 0 {
        1
    } else {
        10 * pow10(k - 1)
    }
}

/// `p` is the decimal point of a well-formed fractional number: one to
/// ten integer digits before it, one to eight fractional digits after
/// it, nothing else.
pub open spec fn frac_split_at(s: Seq<u8>, p: int) -> bool {
    &&& 0 <= p < s.len()
    &&& s[p] == DOT
    &&& forall|i: int| 0 <= i < s.len() && i != p ==> is_digit(#[trigger] s[i])
    &&& 1 <= p <= 10
    &&& 1 <= s.len() - p - 1 <= 8
}

/// The decimal grammar the feeds use: `digits` or `digits '.' digits`.
pub open spec fn dec_wf(s: Seq<u8>) -> bool {
    ||| (all_digits(s) && 1 <= s.len() <= 10)
    ||| (exists|p: int| frac_split_at(s, p))
}

/// The value of a well-formed decimal string in 1e-8 units.
pub open spec fn dec_val(s: Seq<u8>) -> int {
    if all_digits(s) {
        digits_val(s) * (PRICE_SCALE as int)
    } else {
        let p = choose|p: int| frac_split_at(s, p);
        digits_val(s.take(p)) * (PRICE_SCALE as int) + digits_val(s.skip(p + 1)) * pow10(
            8 - (s.len() - p - 1),
        )
    }
}

pub proof fn lemma_pow10_vals()
    ensures
        pow10(0) == 1,
        pow10(1) == 10,
        pow10(2) == 100,
        pow10(3) == 1000,
        pow10(4) == 10000,
        pow10(5) == 100000,
        pow10(6) == 1000000,
        pow10(7) == 10000000,
        pow10(8) == 100000000,
        pow10(9) == 1000000000,
        pow10(10) == 10000000000,
        pow10(17) == 100000000000000000,
        pow10(18) == 1000000000000000000,
{
    reveal_with_fuel(pow10, 20);
}

pub proof fn lemma_pow10_add(a: int, b: int)
    requires
        a >= 0,
        b >= 0,
    ensures
        pow10(a) * pow10(b) == pow10(a + b),
    decreases a,
{
    if a == 0 {
    } else {
        lemma_pow10_add(a - 1, b);
        assert(pow10(a) * pow10(b) == 10 * (pow10(a - 1) * pow10(b))) by (nonlinear_arith)
            requires
                pow10(a) == 10 * pow10(a - 1),
        ;
    }
}

pub proof fn lemma_pow10_mono(a: int, b: int)
    requires
        a <= b,
    ensures
        pow10(a) <= pow10(b),
        pow10(a) >= 1,
    decreases b - a,
{
    if a < b {
        lemma_pow10_mono(a, b - 1);
    } else if a == b {
        lemma_pow10_mono_base(a);
    }
}

proof fn lemma_pow10_mono_base(a: int)
    ensures
        pow10(a) >= 1,
    decreases (if a <= 0 { 0int } else { a }),
{
    if a > 0 {
        lemma_pow10_mono_base(a - 1);
    }
}

/// A digit string of `n` digits is below `pow10(n)`.
pub proof fn lemma_digits_val_bound(s: Seq<u8>)
    requires
        all_digits(s),
    ensures
        0 <= digits_val(s) < pow10(s.len() as int),
    decreases s.len(),
{
    if s.len() > 0 {
        assert(all_digits(s.drop_last()));
        lemma_digits_val_bound(s.drop_last());
    }
}

/// Digit-by-digit accumulation of [`digits_val`].
proof fn lemma_digits_val_step(s: Seq<u8>, from: int, k: int)
    requires
        0 <= from <= k < s.len(),
    ensures
        digits_val(s.subrange(from, k + 1)) == digits_val(s.subrange(from, k)) * 10 + (s[k]
            - DIGIT_ZERO),
{
    assert(s.subrange(from, k + 1).drop_last() =~= s.subrange(from, k));
    assert(s.subrange(from, k + 1).last() == s[k]);
}

/// Parse the digit run `s[from..to]` as a `u64`.
fn parse_digits_u64(s: &[u8], from: usize, to: usize) -> (r: u64)
    requires
        from <= to <= s@.len(),
        to - from <= 18,
        forall|i: int| from <= i < to ==> is_digit(#[trigger] s@[i]),
    ensures
        r == digits_val(s@.subrange(from as int, to as int)),
        r < pow10((to - from) as int),
{
    let mut acc: u64 = 0;
    let mut k = from;
    proof {
        assert(s@.subrange(from as int, from as int) =~= Seq::<u8>::empty());
        lemma_pow10_vals();
    }
    while k < to
        invariant
            from <= k <= to <= s@.len(),
            to - from <= 18,
            forall|i: int| from <= i < to ==> is_digit(#[trigger] s@[i]),
            acc == digits_val(s@.subrange(from as int, k as int)),
            acc < pow10((k - from) as int),
        decreases to - k,
    {
        let d = s[k];
        proof {
            lemma_digits_val_step(s@, from as int, k as int);
            lemma_pow10_mono((k - from) as int, 17);
            lemma_pow10_vals();
        }
        acc = acc * 10 + ((d - DIGIT_ZERO) as u64);
        k = k + 1;
    }
    acc
}

/// Parse a whole byte string as the decimal grammar of the feeds and
/// return its value in 1e-8 units.
///
/// Returns `Some` exactly on well-formed input; the value is below
/// [`PRICE_MAX`].
pub fn parse_decimal(s: &[u8]) -> (r: Option<u64>)
    ensures
        (r is Some) <==> dec_wf(s@),
        match r {
            Some(v) => v == dec_val(s@) && v < PRICE_MAX,
            None => true,
        },
{
    let n = s.len();
    let mut dot: Option<usize> = None;
    let mut k: usize = 0;
    while k < n
        invariant
            k <= n == s@.len(),
            match dot {
                None => forall|i: int| 0 <= i < k ==> is_digit(#[trigger] s@[i]),
                Some(p) => p < k && s@[p as int] == DOT && forall|i: int|
                    0 <= i < k && i != p ==> is_digit(#[trigger] s@[i]),
            },
        decreases n - k,
    {
        let c = s[k];
        if c == DOT {
            if dot.is_some() {
                proof {
                    let p = dot->Some_0;
                    assert(s@[p as int] == DOT);
                    assert(!is_digit(s@[p as int]));
                    assert(!all_digits(s@));
                    assert forall|q: int| !frac_split_at(s@, q) by {
                        if frac_split_at(s@, q) {
                            if q != p as int {
                                assert(is_digit(s@[p as int]));
                            } else {
                                assert(is_digit(s@[k as int]));
                            }
                        }
                    }
                }
                return None;
            }
            dot = Some(k);
        } else if c < DIGIT_ZERO || c > DIGIT_NINE {
            proof {
                assert(!is_digit(s@[k as int]));
                assert forall|q: int| !frac_split_at(s@, q) by {
                    if frac_split_at(s@, q) {
                        if q != k as int {
                            assert(is_digit(s@[k as int]));
                        } else {
                            assert(s@[q] == DOT);
                        }
                    }
                }
                assert(!all_digits(s@));
            }
            return None;
        }
        k = k + 1;
    }
    match dot {
        None => {
            if n < 1 || n > 10 {
                proof {
                    assert forall|q: int| !frac_split_at(s@, q) by {
                        if frac_split_at(s@, q) {
                            assert(is_digit(s@[q]));
                        }
                    }
                }
                return None;
            }
            let v = parse_digits_u64(s, 0, n);
            proof {
                assert(s@.subrange(0, n as int) =~= s@);
                lemma_pow10_mono(n as int, 10);
                lemma_pow10_vals();
            }
            Some(v * PRICE_SCALE)
        },
        Some(p) => {
            let frac_len = n - p - 1;
            if p < 1 || p > 10 || frac_len < 1 || frac_len > 8 {
                proof {
                    assert(!all_digits(s@));
                    assert forall|q: int| !frac_split_at(s@, q) by {
                        if frac_split_at(s@, q) && q != p as int {
                            assert(is_digit(s@[p as int]));
                        }
                    }
                }
                return None;
            }
            let iv = parse_digits_u64(s, 0, p);
            let fv = parse_digits_u64(s, p + 1, n);
            let mult: u64 = match frac_len {
                1 => 10000000,
                2 => 1000000,
                3 => 100000,
                4 => 10000,
                5 => 1000,
                6 => 100,
                7 => 10,
                _ => 1,
            };
            proof {
                lemma_pow10_vals();
                lemma_pow10_mono(p as int, 10);
                lemma_pow10_mono(frac_len as int, 8);
                assert(mult == pow10(8 - frac_len as int));
                assert(frac_split_at(s@, p as int));
                assert(!all_digits(s@));
                let q = choose|q: int| frac_split_at(s@, q);
                assert forall|q2: int| frac_split_at(s@, q2) implies q2 == p as int by {
                    if q2 != p as int {
                        assert(is_digit(s@[p as int]));
                    }
                }
                assert(q == p as int);
                assert(s@.take(p as int) =~= s@.subrange(0, p as int));
                assert(s@.skip(p as int + 1) =~= s@.subrange(p as int + 1, n as int));
                lemma_digits_val_bound(s@.subrange(0, p as int));
                lemma_digits_val_bound(s@.subrange(p as int + 1, n as int));
                lemma_pow10_add(frac_len as int, 8 - frac_len as int);
                assert(fv * mult < 100000000) by (nonlinear_arith)
                    requires
                        fv < pow10(frac_len as int),
                        mult == pow10(8 - frac_len as int),
                        mult >= 1,
                        pow10(frac_len as int) * pow10(8 - frac_len as int) == 100000000,
                ;
            }
            Some(iv * PRICE_SCALE + fv * mult)
        },
    }
}

/// Parse a whole byte string of one to eighteen digits as a plain
/// unsigned integer (used for timestamps and update identifiers).
pub fn parse_unsigned(s: &[u8]) -> (r: Option<u64>)
    ensures
        (r is Some) <==> (all_digits(s@) && 1 <= s@.len() <= 18),
        match r {
            Some(v) => v == digits_val(s@) && v < PRICE_MAX,
            None => true,
        },
{
    let n = s.len();
    let mut k: usize = 0;
    while k < n
        invariant
            k <= n == s@.len(),
            forall|i: int| 0 <= i < k ==> is_digit(#[trigger] s@[i]),
        decreases n - k,
    {
        let c = s[k];
        if c < DIGIT_ZERO || c > DIGIT_NINE {
            return None;
        }
        k = k + 1;
    }
    if n < 1 || n > 18 {
        return None;
    }
    let v = parse_digits_u64(s, 0, n);
    proof {
        assert(s@.subrange(0, n as int) =~= s@);
        lemma_pow10_mono(n as int, 18);
        lemma_pow10_vals();
    }
    Some(v)
}

} // verus!
