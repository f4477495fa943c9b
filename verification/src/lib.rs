//! Ingestion-and-detection pipeline for tracked market symbols: a provider
//! gateway, a de-duplicated time-series store, a suite of detectors over
//! price sequences, and the scheduling state machine that drives them.
//!
//! Prices are fixed-point integers: a caller picks one scale (for example
//! hundredths of a unit) and uses it consistently; every contract is exact
//! in that scale. Percentages are exact rationals (`Ratio`), so detector
//! thresholds and results carry no rounding.

use vstd::prelude::*;

pub mod detectors;
pub mod directory;
pub mod events;
pub mod gateway;
pub mod scheduler;
pub mod store;

verus! {

/// Percentage thresholds are given in basis points: one basis point is one
/// hundredth of a percent, so 50 basis points stand for 0.5 percent.
pub type BasisPoints = i64;

/// An exact rational number `num / den` with a positive denominator.
#[derive(Clone, Copy, Debug, PartialEq, Eq, Structural)]
pub struct Ratio {
    pub num: i128,
    pub den: i128,
}

impl Ratio {
    /// A ratio is well formed when its denominator is positive.
    pub open spec fn wf(self) -> bool {
        self.den > 0
    }

    /// The rational number zero, in canonical form.
    pub open spec fn spec_zero() -> Ratio {
        Ratio { num: 0, den: 1 }
    }

    /// The rational zero `0 / 1`.
    pub fn zero() -> (r: Ratio)
        ensures
            r == Ratio::spec_zero(),
    {
        Ratio { num: 0, den: 1 }
    }

    /// True when the ratio equals zero.
    pub open spec fn is_zero(self) -> bool {
        self.num == 0
    }
}

/// The absolute value of a mathematical integer.
pub open spec fn abs_i(x: int) -> int {
    if x < 0 {
        -x
    } else {
        x
    }
}

/// `a < b` for two well-formed ratios, stated by cross multiplication.
pub open spec fn ratio_lt(a: Ratio, b: Ratio) -> bool {
    a.num * b.den < b.num * a.den
}

/// The well-formed percent-valued ratio `r` is strictly above `bp` basis
/// points: a basis point is a hundredth of a percent, so the test is
/// `r > bp / 100`, cross multiplied.
pub open spec fn ratio_above_bp(r: Ratio, bp: int) -> bool {
    100 * r.num > bp * r.den
}

/// The absolute value of the well-formed percent-valued ratio `r` is
/// strictly above `abs(bp)` basis points.
pub open spec fn ratio_abs_above_bp(r: Ratio, bp: int) -> bool {
    100 * abs_i(r.num as int) > abs_i(bp) * r.den
}

/// Character-wise equality of two string slices.
pub fn str_eq(a: &str, b: &str) -> (r: bool)
    ensures
        r == (a@ == b@),
{
    let alen = a.unicode_len();
    let blen = b.unicode_len();
    if alen != blen {
        return false;
    }
    let mut i: usize = 0;
    while i < alen
        invariant
            i <= alen,
            alen == a@.len(),
            alen == b@.len(),
            forall|j: int| 0 <= j < i ==> a@[j] == b@[j],
        decreases alen - i,
    {
        if a.get_char(i) != b.get_char(i) {
            return false;
        }
        i = i + 1;
    }
    proof {
        assert(a@ =~= b@);
    }
    true
}

/// `needle` occurs in `hay` as a contiguous run of characters.
pub open spec fn is_substring(hay: Seq<char>, needle: Seq<char>) -> bool {
    exists|k: int|
        0 <= k <= hay.len() - needle.len() && #[trigger] hay.subrange(k, k + needle.len() as int)
            == needle
}

/// Substring search: true when `needle` occurs contiguously in `hay`.
pub fn str_contains(hay: &str, needle: &str) -> (r: bool)
    ensures
        r == is_substring(hay@, needle@),
{
    let hlen = hay.unicode_len();
    let nlen = needle.unicode_len();
    if nlen > hlen {
        proof {
            assert(!is_substring(hay@, needle@));
        }
        return false;
    }
    if nlen == 0 {
        proof {
            assert(hay@.subrange(0, 0 + needle@.len() as int) =~= needle@);
        }
        return true;
    }
    let mut k: usize = 0;
    while k <= hlen - nlen
        invariant
            1 <= nlen <= hlen,
            hlen == hay@.len(),
            nlen == needle@.len(),
            k <= hlen - nlen + 1,
            forall|q: int|
                0 <= q < k ==> #[trigger] hay@.subrange(q, q + nlen as int) != needle@,
        decreases hlen - k,
    {
        let mut m: usize = 0;
        let mut matched = true;
        while m < nlen
            invariant
                m <= nlen,
                k + nlen <= hlen,
                hlen == hay@.len(),
                nlen == needle@.len(),
                matched ==> forall|j: int| 0 <= j < m ==> hay@[k + j] == needle@[j],
                !matched ==> hay@.subrange(k as int, k + nlen as int) != needle@,
            decreases nlen - m,
        {
            if hay.get_char(k + m) != needle.get_char(m) {
                proof {
                    assert(hay@.subrange(k as int, k + nlen as int)[m as int] == hay@[k + m]);
                }
                matched = false;
                m = nlen;
            } else {
                m = m + 1;
            }
        }
        if matched {
            proof {
                assert(hay@.subrange(k as int, k + nlen as int) =~= needle@);
            }
            return true;
        }
        k = k + 1;
    }
    proof {
        assert(!is_substring(hay@, needle@));
    }
    false
}

/// Lexicographic strict order on character sequences, by code point: the
/// empty sequence comes first, and a proper prefix comes before what
/// extends it.
pub open spec fn chars_lt(a: Seq<char>, b: Seq<char>) -> bool
    decreases a.len(),
{
    if b.len() == 0 {
        false
    } else if a.len() == 0 {
        true
    } else if (a[0] as u32) < (b[0] as u32) {
        true
    } else if (a[0] as u32) > (b[0] as u32) {
        false
    } else {
        chars_lt(a.drop_first(), b.drop_first())
    }
}

/// The lexicographic order is irreflexive.
pub proof fn lemma_chars_lt_irrefl(a: Seq<char>)
    ensures
        !chars_lt(a, a),
    decreases a.len(),
{
    if a.len() > 0 {
        lemma_chars_lt_irrefl(a.drop_first());
    }
}

/// The lexicographic order is transitive.
pub proof fn lemma_chars_lt_trans(a: Seq<char>, b: Seq<char>, c: Seq<char>)
    requires
        chars_lt(a, b),
        chars_lt(b, c),
    ensures
        chars_lt(a, c),
    decreases a.len(),
{
    if a.len() > 0 && b.len() > 0 && c.len() > 0 {
        if (a[0] as u32) == (b[0] as u32) && (b[0] as u32) == (c[0] as u32) {
            lemma_chars_lt_trans(a.drop_first(), b.drop_first(), c.drop_first());
        }
    }
}

/// Lexicographic comparison of two string slices, by code point.
pub fn str_lt(a: &str, b: &str) -> (r: bool)
    ensures
        r == chars_lt(a@, b@),
{
    let alen = a.unicode_len();
    let blen = b.unicode_len();
    let mut i: usize = 0;
    proof {
        assert(a@.skip(0) =~= a@);
        assert(b@.skip(0) =~= b@);
    }
    while i < alen && i < blen
        invariant
            i <= alen,
            i <= blen,
            alen == a@.len(),
            blen == b@.len(),
            chars_lt(a@, b@) == chars_lt(a@.skip(i as int), b@.skip(i as int)),
        decreases alen - i,
    {
        let ca = a.get_char(i);
        let cb = b.get_char(i);
        proof {
            assert(a@.skip(i as int)[0] == a@[i as int]);
            assert(b@.skip(i as int)[0] == b@[i as int]);
        }
        if (ca as u32) < (cb as u32) {
            return true;
        }
        if (ca as u32) > (cb as u32) {
            return false;
        }
        proof {
            assert(a@.skip(i as int).drop_first() =~= a@.skip(i + 1));
            assert(b@.skip(i as int).drop_first() =~= b@.skip(i + 1));
        }
        i = i + 1;
    }
    proof {
        if i == alen {
            assert(a@.skip(i as int).len() == 0);
        } else {
            assert(b@.skip(i as int).len() == 0);
        }
    }
    alen < blen
}

} // verus!
