//! The polar segment grid of a platter.
//!
//! A platter of `pie_cuts` slices times `onion_layers` concentric rings owns
//! one segment per `(layer, slice)` pair, stored densely.  Each segment holds
//! an optional piece value, a falling flag, and a cached world-space center
//! point.  Centers are produced by the (unverified, floating-point) mesh
//! geometry outside this crate and handed in as fixed-point integer pairs; the
//! board only caches them.

use vstd::prelude::*;

use crate::pieces::InnerValue;
use crate::pieces::Rgba;

verus! {

/// A world-space point in fixed-point integer coordinates.
#[derive(Clone, Copy, Debug, PartialEq, Eq, Structural)]
pub struct WorldPoint {
    pub x: i64,
    pub y: i64,
}

/// The mutable state of one platter segment.
#[derive(Clone, Copy, Debug, PartialEq, Eq, Structural)]
pub struct SegmentState {
    /// The piece value occupying this segment, if any.
    pub value: Option<InnerValue>,
    /// Whether the occupying piece is still falling (not yet locked).
    pub falling: bool,
    /// Cached world-space center of the segment's polygon.
    pub center: WorldPoint,
}

/// The dense grid of segments of one platter.
pub struct PlatterBoard {
    pub pie_cuts: usize,
    pub onion_layers: usize,
    /// One segment per `(layer, slice)` pair, slice-major: the segment for
    /// `(layer, slice)` sits at `slice * onion_layers + layer`.
    pub segments: Vec<SegmentState>,
}

impl PlatterBoard {
    /// The board is a full polar lattice: one segment per pair, and a falling
    /// segment always carries a value.
    pub open spec fn wf(self) -> bool {
        &&& 1 <= self.pie_cuts
        &&& 1 <= self.onion_layers
        &&& self.segments@.len() == self.pie_cuts * self.onion_layers
        &&& forall|k: int|
            0 <= k < self.segments@.len() ==> (#[trigger] self.segments@[k].falling
                ==> self.segments@[k].value is Some)
    }

    /// Position of `(layer, slice)` in the dense segment vector.
    pub open spec fn spec_index(self, layer: int, slice: int) -> int {
        slice * self.onion_layers + layer
    }

    pub open spec fn in_bounds(self, layer: int, slice: int) -> bool {
        0 <= layer < self.onion_layers && 0 <= slice < self.pie_cuts
    }

    /// The segment at `(layer, slice)`.
    pub open spec fn seg_at(self, layer: int, slice: int) -> SegmentState {
        self.segments@[self.spec_index(layer, slice)]
    }

    /// The outermost ring, where pieces spawn.
    pub open spec fn spec_top_row(self) -> int {
        self.onion_layers - 1
    }

    /// An empty board: every segment vacant, centers zeroed.
    pub fn new(pie_cuts: usize, onion_layers: usize) -> (r: PlatterBoard)
        requires
            1 <= pie_cuts,
            1 <= onion_layers,
            pie_cuts * onion_layers <= usize::MAX,
        ensures
            r.wf(),
            r.pie_cuts == pie_cuts,
            r.onion_layers == onion_layers,
            forall|k: int|
                0 <= k < r.segments@.len() ==> #[trigger] r.segments@[k] == (SegmentState {
                    value: Option::<InnerValue>::None,
                    falling: false,
                    center: WorldPoint { x: 0, y: 0 },
                }),
    {
        let n = pie_cuts * onion_layers;
        let blank = SegmentState {
            value: Option::<InnerValue>::None,
            falling: false,
            center: WorldPoint { x: 0, y: 0 },
        };
        let mut segments: Vec<SegmentState> = Vec::new();
        let mut k: usize = 0;
        while k < n
            invariant
                k <= n,
                segments@.len() == k,
                forall|m: int| 0 <= m < k ==> #[trigger] segments@[m] == blank,
            decreases n - k,
        {
            segments.push(blank);
            k = k + 1;
        }
        PlatterBoard { pie_cuts, onion_layers, segments }
    }

    /// Bounds proof for the dense index of an in-bounds pair.
    pub proof fn lemma_index_bounds(self, layer: int, slice: int)
        requires
            self.wf(),
            self.in_bounds(layer, slice),
        ensures
            0 <= self.spec_index(layer, slice) < self.segments@.len(),
    {
        assert(slice * self.onion_layers + layer < self.pie_cuts * self.onion_layers)
            by (nonlinear_arith)
            requires
                0 <= layer < self.onion_layers,
                0 <= slice < self.pie_cuts,
        ;
        assert(0 <= slice * self.onion_layers + layer) by (nonlinear_arith)
            requires
                0 <= layer,
                0 <= slice,
                0 <= self.onion_layers,
        ;
    }

    /// Distinct in-bounds pairs have distinct dense indices.
    pub proof fn lemma_index_injective(self, l1: int, s1: int, l2: int, s2: int)
        requires
            self.wf(),
            self.in_bounds(l1, s1),
            self.in_bounds(l2, s2),
            self.spec_index(l1, s1) == self.spec_index(l2, s2),
        ensures
            l1 == l2 && s1 == s2,
    {
        assert(l1 == l2 && s1 == s2) by (nonlinear_arith)
            requires
                0 <= l1 < self.onion_layers,
                0 <= l2 < self.onion_layers,
                0 <= s1,
                0 <= s2,
                s1 * self.onion_layers + l1 == s2 * self.onion_layers + l2,
        ;
    }

    pub fn top_row(&self) -> (r: usize)
        requires
            self.wf(),
        ensures
            r == self.spec_top_row(),
    {
        self.onion_layers - 1
    }

    /// The segment at `(layer, slice)`.  Requesting a pair outside the grid is
    /// a programmer error and is excluded by precondition: platter grids are
    /// fixed-size from construction.
    pub fn segment_at(&self, layer: usize, slice: usize) -> (r: SegmentState)
        requires
            self.wf(),
            self.in_bounds(layer as int, slice as int),
        ensures
            r == self.seg_at(layer as int, slice as int),
    {
        let n = self.segments.len();
        proof {
            self.lemma_index_bounds(layer as int, slice as int);
            assert(self.spec_index(layer as int, slice as int) < n);
        }
        self.segments[slice * self.onion_layers + layer]
    }

    /// The cached world-space center of the segment at `(layer, slice)`.
    pub fn center_of(&self, layer: usize, slice: usize) -> (r: WorldPoint)
        requires
            self.wf(),
            self.in_bounds(layer as int, slice as int),
        ensures
            r == self.seg_at(layer as int, slice as int).center,
    {
        self.segment_at(layer, slice).center
    }

    /// Overwrite the value and falling flag of one segment, leaving its center
    /// alone.  A falling segment must carry a value.
    pub fn set_value(
        &mut self,
        layer: usize,
        slice: usize,
        value: Option<InnerValue>,
        falling: bool,
    )
        requires
            old(self).wf(),
            old(self).in_bounds(layer as int, slice as int),
            falling ==> value is Some,
        ensures
            final(self).wf(),
            final(self).pie_cuts == old(self).pie_cuts,
            final(self).onion_layers == old(self).onion_layers,
            final(self).segments@ == old(self).segments@.update(
                old(self).spec_index(layer as int, slice as int),
                (SegmentState {
                    value,
                    falling,
                    center: old(self).seg_at(layer as int, slice as int).center,
                }),
            ),
    {
        let n = self.segments.len();
        proof {
            self.lemma_index_bounds(layer as int, slice as int);
            assert(old(self).spec_index(layer as int, slice as int) < n);
        }
        let ix = slice * self.onion_layers + layer;
        let center = self.segments[ix].center;
        self.segments.set(ix, SegmentState { value, falling, center });
    }

    /// Replace every cached center from a freshly derived table, one entry per
    /// segment in dense order.  Values and falling flags are untouched.  The
    /// caller recomputes the table only when the platter's transform changed,
    /// so an unchanged transform leaves every center exactly as it was.
    pub fn update_centers(&mut self, centers: &Vec<WorldPoint>)
        requires
            old(self).wf(),
            centers@.len() == old(self).segments@.len(),
        ensures
            final(self).wf(),
            final(self).pie_cuts == old(self).pie_cuts,
            final(self).onion_layers == old(self).onion_layers,
            final(self).segments@.len() == old(self).segments@.len(),
            forall|k: int|
                0 <= k < final(self).segments@.len() ==> #[trigger] final(self).segments@[k]
                    == (SegmentState {
                    value: old(self).segments@[k].value,
                    falling: old(self).segments@[k].falling,
                    center: centers@[k],
                }),
    {
        let n = self.segments.len();
        let mut k: usize = 0;
        while k < n
            invariant
                k <= n,
                n == self.segments@.len(),
                self.segments@.len() == old(self).segments@.len(),
                self.pie_cuts == old(self).pie_cuts,
                self.onion_layers == old(self).onion_layers,
                centers@.len() == old(self).segments@.len(),
                forall|m: int|
                    0 <= m < k ==> #[trigger] self.segments@[m] == (SegmentState {
                        value: old(self).segments@[m].value,
                        falling: old(self).segments@[m].falling,
                        center: centers@[m],
                    }),
                forall|m: int| k <= m < n ==> self.segments@[m] == old(self).segments@[m],
            decreases n - k,
        {
            let s = self.segments[k];
            self.segments.set(
                k,
                SegmentState { value: s.value, falling: s.falling, center: centers[k] },
            );
            k = k + 1;
        }
    }
}

/// The display color a segment takes from its value: the platter's configured
/// initial color while vacant, the occupying piece's catalog color otherwise.
pub fn segment_display_color(value: Option<InnerValue>, initial_color: Rgba) -> (c: Rgba)
    ensures
        value is None ==> c == initial_color,
        value matches Some(v) ==> c == v.spec_color(),
{
    match value {
        Option::None => initial_color,
        Option::Some(v) => v.color(),
    }
}

/// Re-deriving centers from an unchanged table is idempotent, and a lookup
/// after the update returns exactly the derived centroid for that segment:
/// `segment_at` composed with `center_of` is consistent with the table.
pub proof fn lemma_center_cache_consistent(
    before: PlatterBoard,
    mid: PlatterBoard,
    after: PlatterBoard,
    centers: Seq<WorldPoint>,
    layer: int,
    slice: int,
)
    requires
        before.wf(),
        centers.len() == before.segments@.len(),
        before.in_bounds(layer, slice),
        // `mid` is `before` after one `update_centers(centers)` call:
        mid.wf(),
        mid.pie_cuts == before.pie_cuts,
        mid.onion_layers == before.onion_layers,
        mid.segments@.len() == before.segments@.len(),
        forall|k: int|
            0 <= k < mid.segments@.len() ==> #[trigger] mid.segments@[k] == (SegmentState {
                value: before.segments@[k].value,
                falling: before.segments@[k].falling,
                center: centers[k],
            }),
        // `after` is `mid` after a second call with the same table:
        after.wf(),
        after.pie_cuts == mid.pie_cuts,
        after.onion_layers == mid.onion_layers,
        after.segments@.len() == mid.segments@.len(),
        forall|k: int|
            0 <= k < after.segments@.len() ==> #[trigger] after.segments@[k] == (SegmentState {
                value: mid.segments@[k].value,
                falling: mid.segments@[k].falling,
                center: centers[k],
            }),
    ensures
        mid.seg_at(layer, slice).center == centers[before.spec_index(layer, slice)],
        after.segments@ == mid.segments@,
{
    before.lemma_index_bounds(layer, slice);
    assert(after.segments@ =~= mid.segments@);
}

} // verus!
