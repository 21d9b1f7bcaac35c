//! The placement resolver.
//!
//! A placement request carries a piece kind.  From the set of segments
//! currently overlapping the spawn zone (produced by an external physics
//! broad-phase and handed in as plain segment addresses), the resolver keeps
//! the segments within the piece's clearance of the top row, picks the
//! approach side from the two top-row segments nearest to the platter's x
//! coordinate, builds the target window of segments, validates it against
//! occupied cells, and either commits the piece to every shape-marked cell
//! atomically or reports one conflict per occupied cell without touching the
//! board at all.

use vstd::prelude::*;

use crate::board::PlatterBoard;
use crate::board::SegmentState;
use crate::grid::BlockGrid;
use crate::pieces::InnerValue;

verus! {

/// The address of one segment on a platter.
#[derive(Clone, Copy, Debug, PartialEq, Eq, Structural)]
pub struct SegmentId {
    pub layer: usize,
    pub slice: usize,
}

/// A spawn-zone candidate segment, with the x coordinate of its cached
/// world-space center.
#[derive(Clone, Copy, Debug, PartialEq, Eq, Structural)]
pub struct Candidate {
    pub layer: usize,
    pub slice: usize,
    pub center_x: i64,
}

/// Which side the piece approaches the platter from, read off the two
/// top-row segments nearest to the platter's x coordinate.
#[derive(Clone, Copy, Debug, PartialEq, Eq, Structural)]
pub enum Side {
    Left,
    Right,
}

/// A geometry or invariant violation: the platter's spawn region does not
/// contain what the placement needs.  These are fatal conditions for the
/// request, not recoverable game states.
#[derive(Clone, Copy, Debug, PartialEq, Eq, Structural)]
pub enum GeometryError {
    /// Fewer than two candidate segments lie on the top row, so no approach
    /// side can be determined.
    MissingTopRow,
    /// The two nearest top-row candidates share an x coordinate.
    EqualDistanceTie,
    /// A segment the target window needs is missing from the candidate set
    /// at this window row.
    IncompleteWindow { row: usize },
}

/// How a placement request was resolved.
#[derive(Debug)]
pub enum PlacementOutcome {
    /// The piece was committed: exactly these segments received its value and
    /// are now falling.
    Placed { cells: Vec<SegmentId> },
    /// The placement was rejected: one entry per cell the shape needs that is
    /// already occupied.  The board is untouched.
    Rejected { conflicts: Vec<SegmentId> },
}

/// Horizontal distance between the platter center `px` and a segment center
/// `cx`.
pub open spec fn spec_dist(px: int, cx: int) -> int {
    if px >= cx {
        px - cx
    } else {
        cx - px
    }
}

/// The sort key for candidate ordering: distance along x from the platter's
/// center.
pub fn dist_key(px: i64, cx: i64) -> (d: u64)
    ensures
        d == spec_dist(px as int, cx as int),
{
    let a: i128 = px as i128;
    let b: i128 = cx as i128;
    if a >= b {
        (a - b) as u64
    } else {
        (b - a) as u64
    }
}

/// The candidate view of a segment: its address plus the x coordinate of its
/// cached center.
pub open spec fn spec_cand_of(b: PlatterBoard, id: SegmentId) -> Candidate {
    Candidate {
        layer: id.layer,
        slice: id.slice,
        center_x: b.seg_at(id.layer as int, id.slice as int).center.x,
    }
}

/// Whether a segment at `layer` is close enough to the top row for the piece:
/// a piece needing `c` rows of clearance keeps the layers within `c - 1` of
/// the top row.
pub open spec fn spec_keep(kind: InnerValue, top_row: int, layer: int) -> bool {
    layer + kind.spec_clearance() > top_row
}

/// The candidate view of the whole collision set, clearance-filtered.
pub open spec fn spec_gathered(b: PlatterBoard, kind: InnerValue, coll: Seq<SegmentId>) -> Seq<
    Candidate,
> {
    coll.map_values(|id: SegmentId| spec_cand_of(b, id)).filter(
        |c: Candidate| spec_keep(kind, b.spec_top_row(), c.layer as int),
    )
}

/// The top-row members of a candidate sequence, in order.
pub open spec fn spec_tops(cands: Seq<Candidate>, top_row: int) -> Seq<Candidate> {
    cands.filter(|c: Candidate| c.layer == top_row)
}

/// Keep the collision-set segments within the piece's clearance of the top
/// row, as candidates carrying their cached center x coordinates.
pub fn gather_candidates(
    board: &PlatterBoard,
    kind: InnerValue,
    colliding: &Vec<SegmentId>,
) -> (cands: Vec<Candidate>)
    requires
        board.wf(),
        forall|j: int|
            0 <= j < colliding@.len() ==> board.in_bounds(
                #[trigger] colliding@[j].layer as int,
                colliding@[j].slice as int,
            ),
    ensures
        cands@ == spec_gathered(*board, kind, colliding@),
{
    let ghost f = |id: SegmentId| spec_cand_of(*board, id);
    let ghost p = |c: Candidate| spec_keep(kind, board.spec_top_row(), c.layer as int);
    let top_row = board.top_row();
    let clearance = kind.clearance();
    let n = colliding.len();
    let mut cands: Vec<Candidate> = Vec::new();
    let mut i: usize = 0;
    while i < n
        invariant
            board.wf(),
            forall|j: int|
                0 <= j < colliding@.len() ==> board.in_bounds(
                    #[trigger] colliding@[j].layer as int,
                    colliding@[j].slice as int,
                ),
            n == colliding@.len(),
            i <= n,
            top_row == board.spec_top_row(),
            clearance == kind.spec_clearance(),
            f == (|id: SegmentId| spec_cand_of(*board, id)),
            p == (|c: Candidate| spec_keep(kind, board.spec_top_row(), c.layer as int)),
            cands@ == colliding@.take(i as int).map_values(f).filter(p),
        decreases n - i,
    {
        let id = colliding[i];
        let center = board.center_of(id.layer, id.slice);
        let cand = Candidate { layer: id.layer, slice: id.slice, center_x: center.x };
        proof {
            colliding@.lemma_take_succ_push(i as int);
            colliding@.take(i as int).lemma_push_map_commute(f, colliding@[i as int]);
            colliding@.take(i as int).map_values(f).lemma_filter_push(f(colliding@[i as int]), p);
            assert(f(colliding@[i as int]) == cand);
        }
        if top_row < clearance || id.layer > top_row - clearance {
            cands.push(cand);
        }
        i = i + 1;
    }
    proof {
        colliding@.lemma_take_len();
    }
    cands
}

/// The top-row candidates of an already gathered sequence.
pub fn top_candidates(cands: &Vec<Candidate>, top_row: usize) -> (tops: Vec<Candidate>)
    ensures
        tops@ == spec_tops(cands@, top_row as int),
{
    let ghost p = |c: Candidate| c.layer == top_row as int;
    let n = cands.len();
    let mut tops: Vec<Candidate> = Vec::new();
    let mut i: usize = 0;
    while i < n
        invariant
            n == cands@.len(),
            i <= n,
            p == (|c: Candidate| c.layer == top_row as int),
            tops@ == cands@.take(i as int).filter(p),
        decreases n - i,
    {
        let cand = cands[i];
        proof {
            cands@.lemma_take_succ_push(i as int);
            cands@.take(i as int).lemma_filter_push(cands@[i as int], p);
        }
        if cand.layer == top_row {
            tops.push(cand);
        }
        i = i + 1;
    }
    proof {
        cands@.lemma_take_len();
    }
    tops
}

/// A sequence sorted by distance to `px`, candidate for candidate the same
/// multiset as `base`.
pub open spec fn spec_sorted_of(st: Seq<Candidate>, base: Seq<Candidate>, px: int) -> bool {
    &&& st.len() == base.len()
    &&& st.to_multiset() == base.to_multiset()
    &&& forall|i: int, j: int|
        0 <= i < j < st.len() ==> spec_dist(px, #[trigger] st[i].center_x as int) <= spec_dist(
            px,
            #[trigger] st[j].center_x as int,
        )
}

/// Relies on `itertools::Itertools::sorted_by_key`: it sorts all iterator
/// elements into ascending key order (a stable sort on a freshly collected
/// vector), so the result holds exactly the input elements, ordered by
/// distance from the platter's x coordinate.
#[verifier::external_body]
fn sorted_by_distance(v: Vec<Candidate>, px: i64) -> (r: Vec<Candidate>)
    ensures
        spec_sorted_of(r@, v@, px as int),
{
    itertools::Itertools::sorted_by_key(v.into_iter(), |c: &Candidate| dist_key(px, c.center_x))
        .collect()
}

/// Where the `k`-th nearest top-row candidate lands in the window's first
/// row: a fixed permutation keyed by window width and approach side.
pub open spec fn spec_perm(cols: int, side: Side, k: int) -> int {
    if cols == 3 {
        match side {
            Side::Left => if k == 0 { 1 } else if k == 1 { 0 } else { 2 },
            Side::Right => if k == 0 { 1 } else if k == 1 { 2 } else { 0 },
        }
    } else {
        match side {
            Side::Left => if k == 0 { 1 } else if k == 1 { 2 } else if k == 2 { 0 } else { 3 },
            Side::Right => if k == 0 { 2 } else if k == 1 { 1 } else if k == 2 { 3 } else { 0 },
        }
    }
}

/// The inverse permutation: which nearest-rank feeds window column `c`.
pub open spec fn spec_perm_inv(cols: int, side: Side, c: int) -> int {
    if cols == 3 {
        match side {
            Side::Left => if c == 0 { 1 } else if c == 1 { 0 } else { 2 },
            Side::Right => if c == 0 { 2 } else if c == 1 { 0 } else { 1 },
        }
    } else {
        match side {
            Side::Left => if c == 0 { 2 } else if c == 1 { 0 } else if c == 2 { 1 } else { 3 },
            Side::Right => if c == 0 { 3 } else if c == 1 { 1 } else if c == 2 { 0 } else { 2 },
        }
    }
}

/// The first-row permutation is a bijection on the window columns.
pub proof fn lemma_perm_bijective(cols: int, side: Side)
    requires
        cols == 3 || cols == 4,
    ensures
        forall|k: int| 0 <= k < cols ==> 0 <= #[trigger] spec_perm(cols, side, k) < cols,
        forall|c: int| 0 <= c < cols ==> 0 <= #[trigger] spec_perm_inv(cols, side, c) < cols,
        forall|k: int|
            0 <= k < cols ==> spec_perm_inv(cols, side, #[trigger] spec_perm(cols, side, k)) == k,
        forall|c: int|
            0 <= c < cols ==> spec_perm(cols, side, #[trigger] spec_perm_inv(cols, side, c)) == c,
{
}

/// The side the two nearest top-row candidates determine: the nearer one
/// sitting at a larger x coordinate means the piece comes in from the left.
pub open spec fn spec_side(x0: int, x1: int) -> Side {
    if x0 > x1 {
        Side::Left
    } else {
        Side::Right
    }
}

/// The exec mirror of `spec_perm`.
pub fn perm_col(cols: usize, side: Side, k: usize) -> (c: usize)
    requires
        cols == 3 || cols == 4,
        k < cols,
    ensures
        c == spec_perm(cols as int, side, k as int),
        c < cols,
{
    if cols == 3 {
        match side {
            Side::Left => if k == 0 { 1 } else if k == 1 { 0 } else { 2 },
            Side::Right => if k == 0 { 1 } else if k == 1 { 2 } else { 0 },
        }
    } else {
        match side {
            Side::Left => if k == 0 { 1 } else if k == 1 { 2 } else if k == 2 { 0 } else { 3 },
            Side::Right => if k == 0 { 2 } else if k == 1 { 1 } else if k == 2 { 3 } else { 0 },
        }
    }
}

/// Whether the candidate set contains a segment at `(layer, slice)`.  Layers
/// and slices are compared as integers, so a negative layer is never covered.
pub open spec fn spec_covered(cands: Seq<Candidate>, layer: int, slice: int) -> bool {
    exists|j: int|
        0 <= j < cands.len() && (#[trigger] cands[j]).layer == layer && cands[j].slice == slice
}

/// Linear search for a candidate at `(layer, slice)`.
pub fn find_candidate(cands: &Vec<Candidate>, layer: usize, slice: usize) -> (found: bool)
    ensures
        found == spec_covered(cands@, layer as int, slice as int),
{
    let n = cands.len();
    let mut i: usize = 0;
    while i < n
        invariant
            n == cands@.len(),
            i <= n,
            forall|j: int|
                0 <= j < i ==> !((#[trigger] cands@[j]).layer == layer && cands@[j].slice
                    == slice),
        decreases n - i,
    {
        let c = cands[i];
        if c.layer == layer && c.slice == slice {
            return true;
        }
        i = i + 1;
    }
    false
}

/// The approach side the sorted top-row candidates determine.
pub open spec fn spec_win_side(st: Seq<Candidate>) -> Side {
    spec_side(st[0].center_x as int, st[1].center_x as int)
}

/// The slice that feeds window column `c` of the first row: the slice of the
/// `spec_perm_inv(c)`-th nearest top-row candidate.
pub open spec fn spec_row0_slice(kind: InnerValue, st: Seq<Candidate>, c: int) -> int {
    let w = kind.spec_shape().spec_cols() as int;
    st[spec_perm_inv(w, spec_win_side(st), c)].slice as int
}

/// When the target window can be fully built from the candidates: enough
/// top-row candidates for the window width, an unambiguous approach side,
/// and every deeper window cell present in the candidate set.
pub open spec fn spec_window_ok(
    kind: InnerValue,
    st: Seq<Candidate>,
    cands: Seq<Candidate>,
    top_row: int,
) -> bool {
    let w = kind.spec_shape().spec_cols() as int;
    let h = kind.spec_shape().spec_rows() as int;
    &&& w <= st.len()
    &&& st[0].center_x != st[1].center_x
    &&& forall|layer: int, c: int|
        top_row - h < layer < top_row && 0 <= c < w ==> #[trigger] spec_covered(
            cands,
            layer,
            spec_row0_slice(kind, st, c),
        )
}

/// Build the target window of segment addresses for the piece: the first row
/// holds the nearest top-row candidates, permuted by approach side; each
/// deeper row holds the segments one layer further in at the same slices.
pub fn build_window(
    kind: InnerValue,
    sorted_top: &Vec<Candidate>,
    cands: &Vec<Candidate>,
    top_row: usize,
) -> (res: Result<BlockGrid<SegmentId>, GeometryError>)
    requires
        sorted_top@.len() >= 2,
        forall|j: int| 0 <= j < sorted_top@.len() ==> (#[trigger] sorted_top@[j]).layer == top_row,
    ensures
        (res matches Ok(win) ==> {
            &&& win.wf()
            &&& win.spec_shape() == kind.spec_shape()
            &&& forall|c: int|
                0 <= c < kind.spec_shape().spec_cols() ==> #[trigger] win.cell(0, c)
                    == (SegmentId {
                    layer: top_row,
                    slice: sorted_top@[spec_perm_inv(
                        kind.spec_shape().spec_cols() as int,
                        spec_win_side(sorted_top@),
                        c,
                    )].slice,
                })
            &&& forall|r: int, c: int|
                1 <= r < kind.spec_shape().spec_rows() && 0 <= c
                    < kind.spec_shape().spec_cols() ==> (#[trigger] win.cell(r, c)).layer + r
                    == top_row && win.cell(r, c).slice == win.cell(0, c).slice
        }),
        (res is Ok) <==> spec_window_ok(kind, sorted_top@, cands@, top_row as int),
        (res matches Err(e) ==> e != GeometryError::MissingTopRow),
        (res matches Err(GeometryError::EqualDistanceTie) ==> sorted_top@[0].center_x
            == sorted_top@[1].center_x),
        (res matches Err(GeometryError::IncompleteWindow { row }) ==> sorted_top@[0].center_x
            != sorted_top@[1].center_x && ((row == 0 && sorted_top@.len()
            < kind.spec_shape().spec_cols()) || (1 <= row < kind.spec_shape().spec_rows()
            && exists|c: int|
            0 <= c < kind.spec_shape().spec_cols() && !spec_covered(
                cands@,
                top_row - row,
                #[trigger] spec_row0_slice(kind, sorted_top@, c),
            )))),
{
    let sg = kind.shape_coordinates();
    let shape = sg.shape();
    let w = shape.cols();
    let h = shape.rows();
    let x0 = sorted_top[0].center_x;
    let x1 = sorted_top[1].center_x;
    if x0 == x1 {
        return Err(GeometryError::EqualDistanceTie);
    }
    let side = if x0 > x1 {
        Side::Left
    } else {
        Side::Right
    };
    proof {
        assert(side == spec_win_side(sorted_top@));
    }
    if sorted_top.len() < w {
        return Err(GeometryError::IncompleteWindow { row: 0 });
    }
    let mut win = BlockGrid::new_filled(shape, SegmentId { layer: 0, slice: 0 });
    proof {
        lemma_perm_bijective(w as int, side);
    }
    let mut k: usize = 0;
    while k < w
        invariant
            sorted_top@.len() >= w,
            w == kind.spec_shape().spec_cols(),
            w == 3 || w == 4,
            win.wf(),
            win.spec_shape() == kind.spec_shape(),
            side == spec_win_side(sorted_top@),
            sorted_top@[0].center_x != sorted_top@[1].center_x,
            k <= w,
            forall|m: int|
                0 <= m < k ==> #[trigger] win.cell(0, spec_perm(w as int, side, m))
                    == (SegmentId { layer: top_row, slice: sorted_top@[m].slice }),
        decreases w - k,
    {
        let c = perm_col(w, side, k);
        let ghost pre = win;
        win.set_cell(0, c, SegmentId { layer: top_row, slice: sorted_top[k].slice });
        proof {
            lemma_perm_bijective(w as int, side);
            crate::grid::lemma_set_cell_effect(
                pre,
                win,
                0,
                c as int,
                SegmentId { layer: top_row, slice: sorted_top@[k as int].slice },
            );
            assert forall|m: int|
                0 <= m < k + 1 implies #[trigger] win.cell(0, spec_perm(w as int, side, m))
                == (SegmentId { layer: top_row, slice: sorted_top@[m].slice }) by {
                if m < k {
                    assert(spec_perm(w as int, side, m) != c as int);
                    assert(pre.cell(0, spec_perm(w as int, side, m)) == (SegmentId {
                        layer: top_row,
                        slice: sorted_top@[m].slice,
                    }));
                }
            }
        }
        k = k + 1;
    }
    proof {
        lemma_perm_bijective(w as int, side);
        assert forall|c: int| 0 <= c < w implies #[trigger] win.cell(0, c) == (SegmentId {
            layer: top_row,
            slice: sorted_top@[spec_perm_inv(w as int, side, c)].slice,
        }) by {
            let m = spec_perm_inv(w as int, side, c);
            assert(win.cell(0, spec_perm(w as int, side, m)) == (SegmentId {
                layer: top_row,
                slice: sorted_top@[m].slice,
            }));
        }
    }
    let mut r: usize = 1;
    while r < h
        invariant
            sorted_top@.len() >= w,
            sorted_top@.len() >= 2,
            w == kind.spec_shape().spec_cols(),
            h == kind.spec_shape().spec_rows(),
            w == 3 || w == 4,
            win.wf(),
            win.spec_shape() == kind.spec_shape(),
            side == spec_win_side(sorted_top@),
            sorted_top@[0].center_x != sorted_top@[1].center_x,
            1 <= r <= h,
            forall|c: int|
                0 <= c < w ==> #[trigger] win.cell(0, c) == (SegmentId {
                    layer: top_row,
                    slice: sorted_top@[spec_perm_inv(w as int, side, c)].slice,
                }),
            forall|r2: int, c: int|
                1 <= r2 < r && 0 <= c < w ==> (#[trigger] win.cell(r2, c)).layer + r2 == top_row
                    && win.cell(r2, c).slice == win.cell(0, c).slice,
            forall|layer: int, c: int|
                top_row - r < layer < top_row && 0 <= c < w ==> #[trigger] spec_covered(
                    cands@,
                    layer,
                    spec_row0_slice(kind, sorted_top@, c),
                ),
        decreases h - r,
    {
        if top_row < r {
            proof {
                assert(!spec_covered(cands@, top_row - r, spec_row0_slice(kind, sorted_top@, 0)));
            }
            return Err(GeometryError::IncompleteWindow { row: r });
        }
        let layer = top_row - r;
        let mut c: usize = 0;
        while c < w
            invariant
                sorted_top@.len() >= w,
                sorted_top@.len() >= 2,
                w == kind.spec_shape().spec_cols(),
                h == kind.spec_shape().spec_rows(),
                w == 3 || w == 4,
                win.wf(),
                win.spec_shape() == kind.spec_shape(),
                side == spec_win_side(sorted_top@),
                sorted_top@[0].center_x != sorted_top@[1].center_x,
                1 <= r < h,
                layer == top_row - r,
                c <= w,
                forall|c2: int|
                    0 <= c2 < w ==> #[trigger] win.cell(0, c2) == (SegmentId {
                        layer: top_row,
                        slice: sorted_top@[spec_perm_inv(w as int, side, c2)].slice,
                    }),
                forall|r2: int, c2: int|
                    1 <= r2 < r && 0 <= c2 < w ==> (#[trigger] win.cell(r2, c2)).layer + r2
                        == top_row && win.cell(r2, c2).slice == win.cell(0, c2).slice,
                forall|c2: int|
                    0 <= c2 < c ==> (#[trigger] win.cell(r as int, c2)).layer + r == top_row
                        && win.cell(r as int, c2).slice == win.cell(0, c2).slice,
                forall|layer: int, c2: int|
                    top_row - r < layer < top_row && 0 <= c2 < w ==> #[trigger] spec_covered(
                        cands@,
                        layer,
                        spec_row0_slice(kind, sorted_top@, c2),
                    ),
                forall|c2: int|
                    0 <= c2 < c ==> spec_covered(
                        cands@,
                        (top_row - r) as int,
                        #[trigger] spec_row0_slice(kind, sorted_top@, c2),
                    ),
            decreases w - c,
        {
            let slice = win.get(0, c).slice;
            proof {
                assert(slice as int == spec_row0_slice(kind, sorted_top@, c as int));
            }
            if !find_candidate(cands, layer, slice) {
                proof {
                    assert(!spec_covered(
                        cands@,
                        top_row - r,
                        spec_row0_slice(kind, sorted_top@, c as int),
                    ));
                }
                return Err(GeometryError::IncompleteWindow { row: r });
            }
            let ghost pre = win;
            win.set_cell(r, c, SegmentId { layer, slice });
            proof {
                crate::grid::lemma_set_cell_effect(
                    pre,
                    win,
                    r as int,
                    c as int,
                    SegmentId { layer, slice },
                );
            }
            c = c + 1;
        }
        r = r + 1;
    }
    Ok(win)
}

/// Whether the board segment at `id` already holds a value.
pub open spec fn spec_occupied(b: PlatterBoard, id: SegmentId) -> bool {
    b.seg_at(id.layer as int, id.slice as int).value is Some
}

/// The shape-marked window cells among the first `n` cells, row-major: the
/// segments the piece would occupy.
pub open spec fn spec_marked_prefix(
    win_cells: Seq<SegmentId>,
    shape_cells: Seq<bool>,
    n: int,
) -> Seq<SegmentId>
    decreases n,
{
    if n <= 0 {
        Seq::empty()
    } else {
        let prev = spec_marked_prefix(win_cells, shape_cells, n - 1);
        if shape_cells[n - 1] {
            prev.push(win_cells[n - 1])
        } else {
            prev
        }
    }
}

/// The conflicting cells among the first `n`, row-major: shape-marked window
/// cells whose board segment is already occupied.
pub open spec fn spec_conflict_prefix(
    b: PlatterBoard,
    win_cells: Seq<SegmentId>,
    shape_cells: Seq<bool>,
    n: int,
) -> Seq<SegmentId>
    decreases n,
{
    if n <= 0 {
        Seq::empty()
    } else {
        let prev = spec_conflict_prefix(b, win_cells, shape_cells, n - 1);
        if shape_cells[n - 1] && spec_occupied(b, win_cells[n - 1]) {
            prev.push(win_cells[n - 1])
        } else {
            prev
        }
    }
}

/// If no cell conflicts, every shape-marked cell is vacant.
pub proof fn lemma_no_conflicts_vacant(
    b: PlatterBoard,
    win_cells: Seq<SegmentId>,
    shape_cells: Seq<bool>,
    n: int,
)
    requires
        spec_conflict_prefix(b, win_cells, shape_cells, n).len() == 0,
    ensures
        forall|j: int|
            0 <= j < spec_marked_prefix(win_cells, shape_cells, n).len() ==> !spec_occupied(
                b,
                #[trigger] spec_marked_prefix(win_cells, shape_cells, n)[j],
            ),
    decreases n,
{
    if n > 0 {
        lemma_no_conflicts_vacant(b, win_cells, shape_cells, n - 1);
        let prev = spec_marked_prefix(win_cells, shape_cells, n - 1);
        let cur = spec_marked_prefix(win_cells, shape_cells, n);
        assert forall|j: int| 0 <= j < cur.len() implies !spec_occupied(b, #[trigger] cur[j]) by {
            if shape_cells[n - 1] {
                if j < prev.len() {
                    assert(cur[j] == prev[j]);
                } else {
                    assert(cur[j] == win_cells[n - 1]);
                }
            } else {
                assert(cur[j] == prev[j]);
            }
        }
    }
}

/// Collect the segments the piece's shape marks in the window, row-major.
pub fn window_cells(win: &BlockGrid<SegmentId>, shape: &BlockGrid<bool>) -> (out: Vec<SegmentId>)
    requires
        win.wf(),
        shape.wf(),
        win.spec_shape() == shape.spec_shape(),
    ensures
        out@ == spec_marked_prefix(
            win.spec_cells(),
            shape.spec_cells(),
            shape.spec_cells().len() as int,
        ),
{
    let n = shape.cells.len();
    let mut out: Vec<SegmentId> = Vec::new();
    let mut k: usize = 0;
    while k < n
        invariant
            win.wf(),
            shape.wf(),
            win.spec_shape() == shape.spec_shape(),
            n == shape.spec_cells().len(),
            k <= n,
            out@ == spec_marked_prefix(win.spec_cells(), shape.spec_cells(), k as int),
        decreases n - k,
    {
        if shape.cells[k] {
            out.push(win.cells[k]);
        }
        k = k + 1;
    }
    out
}

/// Overlay the piece's shape on the target window and report every cell the
/// shape needs whose segment already holds a value, one entry per conflict,
/// in row-major order.
pub fn validate_window(
    board: &PlatterBoard,
    win: &BlockGrid<SegmentId>,
    shape: &BlockGrid<bool>,
) -> (conflicts: Vec<SegmentId>)
    requires
        board.wf(),
        win.wf(),
        shape.wf(),
        win.spec_shape() == shape.spec_shape(),
        forall|k: int|
            0 <= k < win.spec_cells().len() ==> board.in_bounds(
                (#[trigger] win.spec_cells()[k]).layer as int,
                win.spec_cells()[k].slice as int,
            ),
    ensures
        conflicts@ == spec_conflict_prefix(
            *board,
            win.spec_cells(),
            shape.spec_cells(),
            shape.spec_cells().len() as int,
        ),
{
    let n = shape.cells.len();
    let mut conflicts: Vec<SegmentId> = Vec::new();
    let mut k: usize = 0;
    while k < n
        invariant
            board.wf(),
            win.wf(),
            shape.wf(),
            win.spec_shape() == shape.spec_shape(),
            forall|m: int|
                0 <= m < win.spec_cells().len() ==> board.in_bounds(
                    (#[trigger] win.spec_cells()[m]).layer as int,
                    win.spec_cells()[m].slice as int,
                ),
            n == shape.spec_cells().len(),
            k <= n,
            conflicts@ == spec_conflict_prefix(
                *board,
                win.spec_cells(),
                shape.spec_cells(),
                k as int,
            ),
        decreases n - k,
    {
        if shape.cells[k] {
            let id = win.cells[k];
            let seg = board.segment_at(id.layer, id.slice);
            if seg.value.is_some() {
                conflicts.push(id);
            }
        }
        k = k + 1;
    }
    conflicts
}

/// Write the piece's value into every listed segment and mark it falling.
/// Every listed segment must be vacant; nothing else on the board changes.
pub fn commit_piece(board: &mut PlatterBoard, cells: &Vec<SegmentId>, kind: InnerValue)
    requires
        old(board).wf(),
        forall|j: int|
            0 <= j < cells@.len() ==> old(board).in_bounds(
                (#[trigger] cells@[j]).layer as int,
                cells@[j].slice as int,
            ),
    ensures
        final(board).wf(),
        final(board).pie_cuts == old(board).pie_cuts,
        final(board).onion_layers == old(board).onion_layers,
        forall|j: int|
            0 <= j < cells@.len() ==> final(board).seg_at(
                (#[trigger] cells@[j]).layer as int,
                cells@[j].slice as int,
            ) == (SegmentState {
                value: Some(kind),
                falling: true,
                center: old(board).seg_at(cells@[j].layer as int, cells@[j].slice as int).center,
            }),
        forall|l: int, s: int|
            final(board).in_bounds(l, s) && !cells@.contains(
                (SegmentId { layer: l as usize, slice: s as usize }),
            ) ==> #[trigger] final(board).seg_at(l, s) == old(board).seg_at(l, s),
{
    let n = cells.len();
    let mut i: usize = 0;
    while i < n
        invariant
            board.wf(),
            board.pie_cuts == old(board).pie_cuts,
            board.onion_layers == old(board).onion_layers,
            n == cells@.len(),
            i <= n,
            forall|j: int|
                0 <= j < cells@.len() ==> old(board).in_bounds(
                    (#[trigger] cells@[j]).layer as int,
                    cells@[j].slice as int,
                ),
            forall|j: int|
                0 <= j < i ==> board.seg_at(
                    (#[trigger] cells@[j]).layer as int,
                    cells@[j].slice as int,
                ) == (SegmentState {
                    value: Some(kind),
                    falling: true,
                    center: old(board).seg_at(
                        cells@[j].layer as int,
                        cells@[j].slice as int,
                    ).center,
                }),
            forall|l: int, s: int|
                board.in_bounds(l, s) && !(exists|j: int|
                    0 <= j < i && #[trigger] cells@[j] == (SegmentId {
                        layer: l as usize,
                        slice: s as usize,
                    })) ==> #[trigger] board.seg_at(l, s) == old(board).seg_at(l, s),
        decreases n - i,
    {
        let id = cells[i];
        let ghost pre = *board;
        board.set_value(id.layer, id.slice, Some(kind), true);
        proof {
            pre.lemma_index_bounds(id.layer as int, id.slice as int);
            let ix = pre.spec_index(id.layer as int, id.slice as int);
            assert forall|l: int, s: int| board.in_bounds(l, s) implies #[trigger] board.seg_at(
                l,
                s,
            ) == if l == id.layer as int && s == id.slice as int {
                SegmentState { value: Some(kind), falling: true, center: pre.seg_at(l, s).center }
            } else {
                pre.seg_at(l, s)
            } by {
                pre.lemma_index_bounds(l, s);
                if board.spec_index(l, s) == ix {
                    pre.lemma_index_injective(l, s, id.layer as int, id.slice as int);
                }
            }
            assert(board.seg_at(id.layer as int, id.slice as int).center == old(board).seg_at(
                id.layer as int,
                id.slice as int,
            ).center);
        }
        i = i + 1;
    }
}

/// Every element of a distance-sorted sequence is one of the candidates it
/// was sorted from.
pub proof fn lemma_sorted_members(st: Seq<Candidate>, base: Seq<Candidate>, px: int)
    requires
        spec_sorted_of(st, base, px),
    ensures
        forall|j: int| 0 <= j < st.len() ==> base.contains(#[trigger] st[j]),
{
    st.to_multiset_ensures();
    base.to_multiset_ensures();
    assert forall|j: int| 0 <= j < st.len() implies base.contains(#[trigger] st[j]) by {
        assert(st.contains(st[j]));
        assert(st.to_multiset().count(st[j]) > 0);
        assert(base.to_multiset().count(st[j]) > 0);
    }
}

/// A top-row candidate gathered from an in-bounds collision set names an
/// in-bounds segment on the top row and carries its cached center.
pub proof fn lemma_tops_member_bounds(
    b: PlatterBoard,
    kind: InnerValue,
    coll: Seq<SegmentId>,
    x: Candidate,
)
    requires
        b.wf(),
        forall|j: int|
            0 <= j < coll.len() ==> b.in_bounds(
                (#[trigger] coll[j]).layer as int,
                coll[j].slice as int,
            ),
        spec_tops(spec_gathered(b, kind, coll), b.spec_top_row()).contains(x),
    ensures
        b.in_bounds(x.layer as int, x.slice as int),
        x.layer == b.spec_top_row(),
        x.center_x == b.seg_at(x.layer as int, x.slice as int).center.x,
{
    let f = |id: SegmentId| spec_cand_of(b, id);
    let keep = |c: Candidate| spec_keep(kind, b.spec_top_row(), c.layer as int);
    let ptop = |c: Candidate| c.layer == b.spec_top_row();
    let m = coll.map_values(f);
    let g = m.filter(keep);
    let tops = g.filter(ptop);
    let i = choose|i: int| 0 <= i < tops.len() && tops[i] == x;
    g.lemma_filter_pred(ptop, i);
    assert(ptop(x));
    g.lemma_filter_contains_rev(ptop, x);
    m.lemma_filter_contains_rev(keep, x);
    let j = choose|j: int| 0 <= j < m.len() && m[j] == x;
    assert(m[j] == f(coll[j]));
    assert(x == spec_cand_of(b, coll[j]));
}

/// The window a successful placement built from the sorted top-row
/// candidates `st`: its first row holds the nearest candidates permuted by
/// approach side, and each deeper row the segments one layer further in.
pub open spec fn spec_placement_witness(
    b: PlatterBoard,
    kind: InnerValue,
    coll: Seq<SegmentId>,
    px: int,
    st: Seq<Candidate>,
    win: BlockGrid<SegmentId>,
) -> bool {
    let g = spec_gathered(b, kind, coll);
    let tops = spec_tops(g, b.spec_top_row());
    let w = kind.spec_shape().spec_cols() as int;
    let h = kind.spec_shape().spec_rows() as int;
    &&& spec_sorted_of(st, tops, px)
    &&& 2 <= st.len()
    &&& spec_window_ok(kind, st, g, b.spec_top_row())
    &&& win.wf()
    &&& win.spec_shape() == kind.spec_shape()
    &&& forall|c: int|
        0 <= c < w ==> (#[trigger] win.cell(0, c)).layer == b.spec_top_row() && win.cell(
            0,
            c,
        ).slice == st[spec_perm_inv(w, spec_win_side(st), c)].slice
    &&& forall|r: int, c: int|
        1 <= r < h && 0 <= c < w ==> (#[trigger] win.cell(r, c)).layer + r == b.spec_top_row()
            && win.cell(r, c).slice == win.cell(0, c).slice
}

/// A sorted top-row ordering under which the two nearest candidates tie on x.
pub open spec fn spec_tie_witness(
    b: PlatterBoard,
    kind: InnerValue,
    coll: Seq<SegmentId>,
    px: int,
    st: Seq<Candidate>,
) -> bool {
    &&& spec_sorted_of(st, spec_tops(spec_gathered(b, kind, coll), b.spec_top_row()), px)
    &&& 2 <= st.len()
    &&& st[0].center_x == st[1].center_x
}

/// A sorted top-row ordering under which the target window cannot be built
/// from the candidate set.
pub open spec fn spec_incomplete_witness(
    b: PlatterBoard,
    kind: InnerValue,
    coll: Seq<SegmentId>,
    px: int,
    st: Seq<Candidate>,
) -> bool {
    &&& spec_sorted_of(st, spec_tops(spec_gathered(b, kind, coll), b.spec_top_row()), px)
    &&& 2 <= st.len()
    &&& !spec_window_ok(kind, st, spec_gathered(b, kind, coll), b.spec_top_row())
}

/// Resolve one placement request against the board.
///
/// The collision set names the segments overlapping the spawn zone.  The
/// resolver either commits the piece -- writing its value into exactly the
/// shape-marked cells of the target window, all marked falling, in one
/// all-or-nothing step -- or rejects it with one conflict per occupied cell,
/// or fails on a geometry violation.  On rejection and on every error the
/// board is left exactly as it was: partial writes never happen.
pub fn resolve_placement(
    board: &mut PlatterBoard,
    kind: InnerValue,
    colliding: &Vec<SegmentId>,
    platter_x: i64,
) -> (res: Result<PlacementOutcome, GeometryError>)
    requires
        old(board).wf(),
        forall|j: int|
            0 <= j < colliding@.len() ==> old(board).in_bounds(
                (#[trigger] colliding@[j]).layer as int,
                colliding@[j].slice as int,
            ),
    ensures
        final(board).wf(),
        final(board).pie_cuts == old(board).pie_cuts,
        final(board).onion_layers == old(board).onion_layers,
        (res matches Err(GeometryError::MissingTopRow)) <==> spec_tops(
            spec_gathered(*old(board), kind, colliding@),
            old(board).spec_top_row(),
        ).len() < 2,
        (res matches Err(e) ==> *final(board) == *old(board)),
        (res matches Err(GeometryError::EqualDistanceTie) ==> exists|st: Seq<Candidate>|
            spec_tie_witness(*old(board), kind, colliding@, platter_x as int, st)),
        (res matches Err(GeometryError::IncompleteWindow { row }) ==> exists|st: Seq<Candidate>|
            spec_incomplete_witness(*old(board), kind, colliding@, platter_x as int, st)),
        (res matches Ok(PlacementOutcome::Rejected { conflicts }) ==> *final(board) == *old(board)
            && conflicts@.len() > 0 && (exists|st: Seq<Candidate>, win: BlockGrid<SegmentId>|
            spec_placement_witness(*old(board), kind, colliding@, platter_x as int, st, win)
                && conflicts@ == spec_conflict_prefix(
                *old(board),
                win.spec_cells(),
                kind.spec_shape_cells(),
                kind.spec_shape_cells().len() as int,
            ))),
        (res matches Ok(PlacementOutcome::Placed { cells }) ==> (exists|
            st: Seq<Candidate>,
            win: BlockGrid<SegmentId>,
        |
            spec_placement_witness(*old(board), kind, colliding@, platter_x as int, st, win)
                && cells@ == spec_marked_prefix(
                win.spec_cells(),
                kind.spec_shape_cells(),
                kind.spec_shape_cells().len() as int,
            ) && spec_conflict_prefix(
                *old(board),
                win.spec_cells(),
                kind.spec_shape_cells(),
                kind.spec_shape_cells().len() as int,
            ).len() == 0) && (forall|j: int|
            0 <= j < cells@.len() ==> final(board).seg_at(
                (#[trigger] cells@[j]).layer as int,
                cells@[j].slice as int,
            ) == (SegmentState {
                value: Some(kind),
                falling: true,
                center: old(board).seg_at(
                    cells@[j].layer as int,
                    cells@[j].slice as int,
                ).center,
            })) && (forall|l: int, s: int|
            final(board).in_bounds(l, s) && !cells@.contains(
                (SegmentId { layer: l as usize, slice: s as usize }),
            ) ==> #[trigger] final(board).seg_at(l, s) == old(board).seg_at(l, s))),
{
    let cands = gather_candidates(board, kind, colliding);
    let top_row = board.top_row();
    let tops = top_candidates(&cands, top_row);
    if tops.len() < 2 {
        return Err(GeometryError::MissingTopRow);
    }
    let ghost tops_view = tops@;
    let st = sorted_by_distance(tops, platter_x);
    proof {
        lemma_sorted_members(st@, tops_view, platter_x as int);
        assert forall|j: int| 0 <= j < st@.len() implies board.in_bounds(
            (#[trigger] st@[j]).layer as int,
            st@[j].slice as int,
        ) && st@[j].layer == top_row by {
            lemma_tops_member_bounds(*board, kind, colliding@, st@[j]);
        }
    }
    let win = match build_window(kind, &st, &cands, top_row) {
        Ok(win) => win,
        Err(e) => {
            proof {
                if e == GeometryError::EqualDistanceTie {
                    assert(spec_tie_witness(*board, kind, colliding@, platter_x as int, st@));
                } else {
                    assert(spec_incomplete_witness(
                        *board,
                        kind,
                        colliding@,
                        platter_x as int,
                        st@,
                    ));
                }
            }
            return Err(e);
        },
    };
    proof {
        let w = kind.spec_shape().spec_cols() as int;
        let h = kind.spec_shape().spec_rows() as int;
        assert forall|k: int| 0 <= k < win.spec_cells().len() implies board.in_bounds(
            (#[trigger] win.spec_cells()[k]).layer as int,
            win.spec_cells()[k].slice as int,
        ) by {
            crate::grid::lemma_cell_index_decompose(win.spec_shape(), k);
            let r = k / w;
            let c = k % w;
            assert(win.spec_cells()[k] == win.cell(r, c));
            if r == 0 {
                lemma_perm_bijective(w, spec_win_side(st@));
            }
        }
    }
    let sg = kind.shape_coordinates();
    let conflicts = validate_window(board, &win, &sg);
    if conflicts.len() > 0 {
        proof {
            assert(spec_placement_witness(
                *board,
                kind,
                colliding@,
                platter_x as int,
                st@,
                win,
            ));
        }
        return Ok(PlacementOutcome::Rejected { conflicts });
    }
    let cells = window_cells(&win, &sg);
    proof {
        lemma_no_conflicts_vacant(
            *board,
            win.spec_cells(),
            kind.spec_shape_cells(),
            kind.spec_shape_cells().len() as int,
        );
        lemma_marked_cells_bounded(
            *board,
            win.spec_cells(),
            kind.spec_shape_cells(),
            kind.spec_shape_cells().len() as int,
        );
        assert(spec_placement_witness(*board, kind, colliding@, platter_x as int, st@, win));
    }
    commit_piece(board, &cells, kind);
    Ok(PlacementOutcome::Placed { cells })
}

/// Shape-marked cells of an in-bounds window are in bounds.
pub proof fn lemma_marked_cells_bounded(
    b: PlatterBoard,
    win_cells: Seq<SegmentId>,
    shape_cells: Seq<bool>,
    n: int,
)
    requires
        n <= win_cells.len(),
        forall|k: int|
            0 <= k < win_cells.len() ==> b.in_bounds(
                (#[trigger] win_cells[k]).layer as int,
                win_cells[k].slice as int,
            ),
    ensures
        forall|j: int|
            0 <= j < spec_marked_prefix(win_cells, shape_cells, n).len() ==> b.in_bounds(
                (#[trigger] spec_marked_prefix(win_cells, shape_cells, n)[j]).layer as int,
                spec_marked_prefix(win_cells, shape_cells, n)[j].slice as int,
            ),
    decreases n,
{
    if n > 0 {
        lemma_marked_cells_bounded(b, win_cells, shape_cells, n - 1);
        let prev = spec_marked_prefix(win_cells, shape_cells, n - 1);
        let cur = spec_marked_prefix(win_cells, shape_cells, n);
        assert forall|j: int| 0 <= j < cur.len() implies b.in_bounds(
            (#[trigger] cur[j]).layer as int,
            cur[j].slice as int,
        ) by {
            if j < prev.len() {
                assert(cur[j] == prev[j]);
            } else {
                assert(shape_cells[n - 1] && cur[j] == win_cells[n - 1]);
            }
        }
    }
}

} // verus!
