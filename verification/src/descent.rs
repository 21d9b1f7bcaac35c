//! Gravity descent: each tick, every falling segment moves one onion layer
//! inward at the same slice, or the whole step is aborted.
//!
//! The step is all-or-nothing: if any falling segment sits on the innermost
//! layer, or the segment below it is already occupied, nothing moves at all.
//! Partial drops never happen, so a piece keeps its shape as it descends.

use vstd::prelude::*;

use crate::board::PlatterBoard;
use crate::board::SegmentState;
use crate::pieces::InnerValue;

verus! {

/// Every falling segment can move one layer inward: it is not on the
/// innermost layer, and the segment below it at the same slice is vacant.
pub open spec fn spec_can_descend(b: PlatterBoard) -> bool {
    forall|l: int, s: int|
        b.in_bounds(l, s) && #[trigger] b.seg_at(l, s).falling ==> 0 < l && b.seg_at(
            l - 1,
            s,
        ).value is None
}

/// The segment at dense index `k` after one descent step: a segment refilled
/// from the falling segment directly above it, a vacated falling segment, or
/// an untouched one.  Centers belong to positions and never move with the
/// contents.
pub open spec fn spec_descend_seg(b: PlatterBoard, k: int) -> SegmentState {
    let onion = b.onion_layers as int;
    let l = k % onion;
    let seg = b.segments@[k];
    if l + 1 < onion && b.segments@[k + 1].falling {
        SegmentState { value: b.segments@[k + 1].value, falling: true, center: seg.center }
    } else if seg.falling {
        SegmentState { value: Option::<InnerValue>::None, falling: false, center: seg.center }
    } else {
        seg
    }
}

/// The segment contents of the whole board after one successful descent step.
pub open spec fn spec_descended_cells(b: PlatterBoard) -> Seq<SegmentState> {
    Seq::new(b.segments@.len(), |k: int| spec_descend_seg(b, k))
}

/// A dense index `k` decomposes into the pair `(k % onion_layers,
/// k / onion_layers)`, which is in bounds and maps back to `k`.
pub proof fn lemma_index_decompose(b: PlatterBoard, k: int)
    requires
        b.wf(),
        0 <= k < b.segments@.len(),
    ensures
        b.in_bounds(k % (b.onion_layers as int), k / (b.onion_layers as int)),
        b.spec_index(k % (b.onion_layers as int), k / (b.onion_layers as int)) == k,
{
    let onion = b.onion_layers as int;
    vstd::arithmetic::div_mod::lemma_fundamental_div_mod(k, onion);
    assert(0 <= k % onion < onion && 0 <= k / onion < b.pie_cuts) by (nonlinear_arith)
        requires
            1 <= onion,
            0 <= k < b.pie_cuts * onion,
            k == onion * (k / onion) + k % onion,
            0 <= k % onion < onion,
    ;
    assert((k / onion) * onion + k % onion == k) by (nonlinear_arith)
        requires
            1 <= onion,
            k == onion * (k / onion) + k % onion,
    ;
}

/// The dense index of an in-bounds pair decomposes back into that pair.
pub proof fn lemma_pair_index(b: PlatterBoard, l: int, s: int)
    requires
        b.wf(),
        b.in_bounds(l, s),
    ensures
        0 <= b.spec_index(l, s) < b.segments@.len(),
        b.spec_index(l, s) % (b.onion_layers as int) == l,
        b.spec_index(l, s) / (b.onion_layers as int) == s,
{
    b.lemma_index_bounds(l, s);
    let onion = b.onion_layers as int;
    assert((s * onion + l) % onion == l && (s * onion + l) / onion == s) by (nonlinear_arith)
        requires
            0 <= l < onion,
            0 <= s,
    ;
}

/// One descent tick.  Either every falling segment moves one layer inward at
/// its slice (and `true` comes back), or some falling segment is blocked --
/// it sits on the innermost layer or the segment below it is occupied -- and
/// the whole board is left exactly as it was.
pub fn descend(board: &mut PlatterBoard) -> (moved: bool)
    requires
        old(board).wf(),
    ensures
        final(board).wf(),
        moved == spec_can_descend(*old(board)),
        !moved ==> *final(board) == *old(board),
        moved ==> final(board).pie_cuts == old(board).pie_cuts && final(board).onion_layers
            == old(board).onion_layers && final(board).segments@ == spec_descended_cells(
            *old(board),
        ),
{
    let n = board.segments.len();
    let onion = board.onion_layers;
    let mut k: usize = 0;
    while k < n
        invariant
            board == old(board),
            board.wf(),
            n == board.segments@.len(),
            onion == board.onion_layers,
            k <= n,
            forall|m: int|
                0 <= m < k ==> (#[trigger] board.segments@[m].falling ==> m % (onion as int) > 0
                    && board.segments@[m - 1].value is None),
        decreases n - k,
    {
        let seg = board.segments[k];
        if seg.falling {
            let l = k % onion;
            if l == 0 {
                proof {
                    lemma_index_decompose(*board, k as int);
                    let li = k as int % (onion as int);
                    let si = k as int / (onion as int);
                    assert(board.seg_at(li, si).falling);
                    assert(!spec_can_descend(*board));
                }
                return false;
            }
            proof {
                lemma_index_decompose(*board, k as int);
                if k == 0 {
                    assert(0int % (onion as int) == 0);
                }
            }
            if board.segments[k - 1].value.is_some() {
                proof {
                    let li = k as int % (onion as int);
                    let si = k as int / (onion as int);
                    assert(board.spec_index(li - 1, si) == k - 1);
                    assert(board.seg_at(li, si).falling);
                    assert(board.seg_at(li - 1, si).value is Some);
                    assert(!spec_can_descend(*board));
                }
                return false;
            }
        }
        k = k + 1;
    }
    proof {
        assert forall|l: int, s: int|
            board.in_bounds(l, s) && #[trigger] board.seg_at(l, s).falling implies 0 < l
            && board.seg_at(l - 1, s).value is None by {
            lemma_pair_index(*board, l, s);
            let m = board.spec_index(l, s);
            assert(board.segments@[m].falling);
            assert(m % (onion as int) == l);
            assert(board.spec_index(l - 1, s) == m - 1);
        }
    }
    let mut out: Vec<SegmentState> = Vec::new();
    let mut k: usize = 0;
    while k < n
        invariant
            board == old(board),
            board.wf(),
            n == board.segments@.len(),
            onion == board.onion_layers,
            k <= n,
            out@.len() == k,
            forall|m: int| 0 <= m < k ==> out@[m] == spec_descend_seg(*board, m),
        decreases n - k,
    {
        let seg = board.segments[k];
        let l = k % onion;
        proof {
            lemma_index_decompose(*board, k as int);
            if l + 1 < onion {
                let si = k as int / (onion as int);
                board.lemma_index_bounds(l as int + 1, si);
                assert(board.spec_index(l as int + 1, si) == k + 1);
            }
        }
        let item = if l + 1 < onion && board.segments[k + 1].falling {
            let above = board.segments[k + 1];
            SegmentState { value: above.value, falling: true, center: seg.center }
        } else if seg.falling {
            SegmentState { value: Option::<InnerValue>::None, falling: false, center: seg.center }
        } else {
            seg
        };
        out.push(item);
        k = k + 1;
    }
    proof {
        assert(out@ =~= spec_descended_cells(*board));
        assert forall|m: int| 0 <= m < out@.len() && #[trigger] out@[m].falling implies out@[m].value is Some by {
            {
                assert(out@[m] == spec_descend_seg(*board, m));
                let oi = board.onion_layers as int;
                let l = m % oi;
                lemma_index_decompose(*board, m);
                if l + 1 < oi && board.segments@[m + 1].falling {
                    let si = m / oi;
                    board.lemma_index_bounds(l + 1, si);
                    assert(board.spec_index(l + 1, si) == m + 1);
                    assert(board.segments@[m + 1].value is Some);
                }
            }
        }
        assert(out@.len() == board.pie_cuts * board.onion_layers);
    }
    board.segments = out;
    true
}

/// A successful descent step moves each falling segment's value one layer
/// inward at the same slice and marks the receiving segment falling; the
/// vacated segment is cleared unless the falling segment directly above it
/// refills it in the same step.
pub proof fn lemma_descent_moves_value(b: PlatterBoard, l: int, s: int)
    requires
        b.wf(),
        spec_can_descend(b),
        b.in_bounds(l, s),
        b.seg_at(l, s).falling,
    ensures
        0 < l,
        spec_descended_cells(b)[b.spec_index(l - 1, s)].value == b.seg_at(l, s).value,
        spec_descended_cells(b)[b.spec_index(l - 1, s)].falling,
        !(l + 1 < b.onion_layers && b.seg_at(l + 1, s).falling) ==> spec_descended_cells(b)[
            b.spec_index(l, s)
        ].value is None && !spec_descended_cells(b)[b.spec_index(l, s)].falling,
{
    lemma_pair_index(b, l, s);
    let k = b.spec_index(l, s);
    assert(0 < l);
    lemma_pair_index(b, l - 1, s);
    let kd = b.spec_index(l - 1, s);
    assert(kd == k - 1);
    assert(spec_descended_cells(b)[kd] == spec_descend_seg(b, kd));
    assert(kd % (b.onion_layers as int) == l - 1);
    assert(kd + 1 == k);
    assert(b.segments@[k].falling);
    if !(l + 1 < b.onion_layers && b.seg_at(l + 1, s).falling) {
        assert(spec_descended_cells(b)[k] == spec_descend_seg(b, k));
        assert(k % (b.onion_layers as int) == l);
        if l + 1 < b.onion_layers {
            lemma_pair_index(b, l + 1, s);
            assert(b.spec_index(l + 1, s) == k + 1);
            assert(!b.segments@[k + 1].falling);
        }
    }
}

/// A falling segment on the innermost layer blocks the whole descent tick.
pub proof fn lemma_descent_blocked_at_center(b: PlatterBoard, s: int)
    requires
        b.wf(),
        b.in_bounds(0, s),
        b.seg_at(0, s).falling,
    ensures
        !spec_can_descend(b),
{
}

} // verus!
