//! Force-line visualization support.
//!
//! The orbital toy draws a line per body pair, with an opacity derived from
//! the pair's squared force magnitude: magnitudes are normalized between the
//! observed minimum and maximum, then floor-clamped to a configurable
//! minimum opacity ratio.  Ratios are carried in fixed point, parts per
//! `RATIO_SCALE`.  This channel only feeds rendering; the physics never
//! reads it.

use vstd::prelude::*;

use crate::nbody::Force2;

verus! {

/// Fixed-point scale of opacity ratios: a ratio of `RATIO_SCALE` means 1.0.
pub const RATIO_SCALE: u32 = 1000000;

/// Squared magnitudes handed to the normalizer stay below this bound so the
/// fixed-point scaling cannot overflow.
pub const MAG2_LIMIT: u128 = 1267650600228229401496703205376;

/// The configurable minimum opacity ratio, in parts per `RATIO_SCALE`.
#[derive(Clone, Copy, Debug, PartialEq, Eq, Structural)]
pub struct RatioFloor {
    pub ratio: u32,
}

impl RatioFloor {
    /// The floor is a ratio in `[0, 1]`.
    pub open spec fn wf(self) -> bool {
        self.ratio <= RATIO_SCALE
    }

    /// What normalization scales an incoming ratio by.
    pub open spec fn spec_offset(self) -> int {
        RATIO_SCALE - self.ratio
    }

    /// An incoming ratio clamped above the floor: the floor plus the ratio
    /// scaled into the remaining headroom.
    pub open spec fn spec_normalize(self, v: int) -> int {
        self.ratio + v * self.spec_offset() / (RATIO_SCALE as int)
    }

    /// The headroom above the floor.
    pub fn offset(&self) -> (r: u32)
        requires
            self.wf(),
        ensures
            r == self.spec_offset(),
    {
        RATIO_SCALE - self.ratio
    }

    /// Clamp a ratio above the floor, scaling it into the remaining
    /// headroom.  A full ratio stays full; a zero ratio becomes the floor.
    pub fn normalize(&self, v: u32) -> (r: u32)
        requires
            self.wf(),
            v <= RATIO_SCALE,
        ensures
            r == self.spec_normalize(v as int),
            r <= RATIO_SCALE,
    {
        let off = self.offset();
        proof {
            let p = (v as int) * (off as int);
            assert(0 <= p <= (RATIO_SCALE as int) * (off as int) && p <= 1000000000000) by (
            nonlinear_arith)
                requires
                    0 <= v <= RATIO_SCALE,
                    0 <= off <= RATIO_SCALE,
                    RATIO_SCALE == 1000000,
                    p == (v as int) * (off as int),
            ;
            vstd::arithmetic::div_mod::lemma_div_is_ordered(
                p,
                (RATIO_SCALE as int) * (off as int),
                RATIO_SCALE as int,
            );
            vstd::arithmetic::div_mod::lemma_div_by_multiple(off as int, RATIO_SCALE as int);
            assert(((off as int) * (RATIO_SCALE as int)) / (RATIO_SCALE as int) == off);
            vstd::arithmetic::div_mod::lemma_div_pos_is_pos(p, RATIO_SCALE as int);
        }
        let scaled = ((v as u64) * (off as u64) / (RATIO_SCALE as u64)) as u32;
        self.ratio + scaled
    }
}

impl Default for RatioFloor {
    /// The default minimum opacity is one tenth.
    fn default() -> (r: Self)
        ensures
            r.ratio == 100000,
            r.wf(),
    {
        RatioFloor { ratio: 100000 }
    }
}

/// The squared magnitude of a force vector.
pub fn force_mag2(f: &Force2) -> (m: u128)
    requires
        -9223372036854775808 <= f.x <= 9223372036854775808,
        -9223372036854775808 <= f.y <= 9223372036854775808,
    ensures
        m == f.x * f.x + f.y * f.y,
{
    let ax: u128 = if f.x < 0 {
        (-f.x) as u128
    } else {
        f.x as u128
    };
    let ay: u128 = if f.y < 0 {
        (-f.y) as u128
    } else {
        f.y as u128
    };
    proof {
        assert(ax * ax == f.x * f.x && ay * ay == f.y * f.y && ax * ax
            <= 0x100000000000000000000000000000000 - 1 - (ay * ay)) by (nonlinear_arith)
            requires
                ax == -(f.x as int) || ax == f.x as int,
                ay == -(f.y as int) || ay == f.y as int,
                0 <= ax <= 9223372036854775808,
                0 <= ay <= 9223372036854775808,
        ;
    }
    ax * ax + ay * ay
}

/// The smallest value among the first `n`.
pub open spec fn spec_min_prefix(s: Seq<u128>, n: int) -> int
    decreases n,
{
    if n <= 1 {
        s[0] as int
    } else {
        let p = spec_min_prefix(s, n - 1);
        if (s[n - 1] as int) < p {
            s[n - 1] as int
        } else {
            p
        }
    }
}

/// The largest value among the first `n`.
pub open spec fn spec_max_prefix(s: Seq<u128>, n: int) -> int
    decreases n,
{
    if n <= 1 {
        s[0] as int
    } else {
        let p = spec_max_prefix(s, n - 1);
        if (s[n - 1] as int) > p {
            s[n - 1] as int
        } else {
            p
        }
    }
}

/// A magnitude's position between the observed extremes, in parts per
/// `RATIO_SCALE`; degenerate ranges normalize to zero.
pub open spec fn spec_span_ratio(m: int, lo: int, hi: int) -> int {
    if lo < hi {
        (m - lo) * (RATIO_SCALE as int) / (hi - lo)
    } else {
        0
    }
}

/// The opacity ratio of every force line: each squared magnitude normalized
/// between the observed minimum and maximum and clamped above the floor.
pub fn line_opacities(mags: &Vec<u128>, floor: &RatioFloor) -> (out: Vec<u32>)
    requires
        floor.wf(),
        forall|j: int| 0 <= j < mags@.len() ==> #[trigger] mags@[j] <= MAG2_LIMIT,
    ensures
        out@.len() == mags@.len(),
        forall|j: int|
            0 <= j < out@.len() ==> #[trigger] out@[j] == floor.spec_normalize(
                spec_span_ratio(
                    mags@[j] as int,
                    spec_min_prefix(mags@, mags@.len() as int),
                    spec_max_prefix(mags@, mags@.len() as int),
                ),
            ),
{
    let n = mags.len();
    let mut out: Vec<u32> = Vec::new();
    if n == 0 {
        return out;
    }
    let mut lo: u128 = mags[0];
    let mut hi: u128 = mags[0];
    let mut k: usize = 1;
    while k < n
        invariant
            n == mags@.len(),
            1 <= k <= n,
            lo == spec_min_prefix(mags@, k as int),
            hi == spec_max_prefix(mags@, k as int),
            lo <= hi,
        decreases n - k,
    {
        let m = mags[k];
        if m < lo {
            lo = m;
        }
        if m > hi {
            hi = m;
        }
        k = k + 1;
    }
    proof {
        lemma_minmax_bounds(mags@, n as int);
    }
    let mut j: usize = 0;
    while j < n
        invariant
            floor.wf(),
            forall|m: int| 0 <= m < mags@.len() ==> #[trigger] mags@[m] <= MAG2_LIMIT,
            n == mags@.len(),
            1 <= n,
            j <= n,
            out@.len() == j,
            lo == spec_min_prefix(mags@, n as int),
            hi == spec_max_prefix(mags@, n as int),
            lo <= hi,
            forall|m: int| 0 <= m < n ==> lo <= #[trigger] mags@[m] <= hi,
            forall|m: int|
                0 <= m < j ==> #[trigger] out@[m] == floor.spec_normalize(
                    spec_span_ratio(mags@[m] as int, lo as int, hi as int),
                ),
        decreases n - j,
    {
        let m = mags[j];
        let ratio: u32 = if lo < hi {
            let span = hi - lo;
            proof {
                assert((m as int - lo) * (RATIO_SCALE as int)
                    <= 1267650600228229401496703205376 * 1000000) by (nonlinear_arith)
                    requires
                        0 <= m as int - lo <= 1267650600228229401496703205376,
                ;
            }
            let num = (m - lo) * (RATIO_SCALE as u128);
            proof {
                assert((m as int - lo) * (RATIO_SCALE as int) <= (hi as int - lo) * (
                RATIO_SCALE as int)) by (nonlinear_arith)
                    requires
                        lo <= m <= hi,
                ;
                vstd::arithmetic::div_mod::lemma_div_is_ordered(
                    (m as int - lo) * (RATIO_SCALE as int),
                    (hi as int - lo) * (RATIO_SCALE as int),
                    hi as int - lo,
                );
                vstd::arithmetic::div_mod::lemma_div_by_multiple(
                    RATIO_SCALE as int,
                    hi as int - lo,
                );
                assert(((RATIO_SCALE as int) * (hi as int - lo)) / (hi as int - lo)
                    == RATIO_SCALE);
                vstd::arithmetic::div_mod::lemma_div_pos_is_pos(
                    (m as int - lo) * (RATIO_SCALE as int),
                    hi as int - lo,
                );
            }
            (num / span) as u32
        } else {
            0
        };
        out.push(floor.normalize(ratio));
        j = j + 1;
    }
    out
}

/// Every prefix extreme bounds every element of the prefix.
proof fn lemma_minmax_bounds(s: Seq<u128>, n: int)
    requires
        1 <= n <= s.len(),
    ensures
        forall|m: int|
            0 <= m < n ==> spec_min_prefix(s, n) <= (#[trigger] s[m]) as int <= spec_max_prefix(
                s,
                n,
            ),
        spec_min_prefix(s, n) <= spec_max_prefix(s, n),
    decreases n,
{
    if n > 1 {
        lemma_minmax_bounds(s, n - 1);
    }
}

} // verus!
