use platter_game::board::PlatterBoard;
use platter_game::board::WorldPoint;
use platter_game::grid::BlockGrid;
use platter_game::grid::GridShape;
use platter_game::pieces::InnerValue;
use platter_game::placement::GeometryError;
use platter_game::placement::PlacementOutcome;
use platter_game::placement::SegmentId;
use platter_game::placement::commit_piece;
use platter_game::placement::resolve_placement;
use platter_game::placement::validate_window;
use platter_game::placement::window_cells;

/// A board whose top-row segment centers sit at the given x coordinate per
/// slice (the same x is used for every layer of the slice).
fn board_with_slice_x(pie_cuts: usize, onion_layers: usize, xs: &[i64]) -> PlatterBoard {
    let mut b = PlatterBoard::new(pie_cuts, onion_layers);
    let mut centers = Vec::new();
    for slice in 0..pie_cuts {
        for _layer in 0..onion_layers {
            centers.push(WorldPoint { x: xs[slice], y: 0 });
        }
    }
    b.update_centers(&centers);
    b
}

fn window3(top: usize, slices: [usize; 3]) -> BlockGrid<SegmentId> {
    let mut cells = Vec::new();
    for r in 0..3 {
        for c in 0..3 {
            cells.push(SegmentId {
                layer: top - r,
                slice: slices[c],
            });
        }
    }
    BlockGrid {
        shape: GridShape::ThreeByThree,
        cells,
    }
}

#[test]
fn t_piece_commit_fills_exactly_four_of_nine() {
    // a 3x3 window of nine distinct empty segments
    let mut b = board_with_slice_x(5, 5, &[-20, -10, 0, 10, 20]);
    let win = window3(4, [1, 2, 3]);
    let shape = InnerValue::PurpleT.shape_coordinates();
    let conflicts = validate_window(&b, &win, &shape);
    assert_eq!(conflicts.len(), 0);
    let cells = window_cells(&win, &shape);
    assert_eq!(cells.len(), 4);
    commit_piece(&mut b, &cells, InnerValue::PurpleT);
    let mut filled = 0;
    for r in 0..3 {
        for c in 0..3 {
            let seg = b.segment_at(4 - r, [1, 2, 3][c]);
            if seg.value.is_some() {
                filled += 1;
                assert_eq!(seg.value, Some(InnerValue::PurpleT));
                assert!(seg.falling);
            }
        }
    }
    assert_eq!(filled, 4);
    // the T shape occupies (0,1), (1,0), (1,1), (1,2) of the window
    assert_eq!(b.segment_at(4, 2).value, Some(InnerValue::PurpleT));
    assert_eq!(b.segment_at(3, 1).value, Some(InnerValue::PurpleT));
    assert_eq!(b.segment_at(3, 2).value, Some(InnerValue::PurpleT));
    assert_eq!(b.segment_at(3, 3).value, Some(InnerValue::PurpleT));
}

/// Every segment of the nine-slot window region as a collision set, handed
/// over in an adversarial order (farthest first).
fn collision_set(layers: &[usize], slices: &[usize]) -> Vec<SegmentId> {
    let mut v = Vec::new();
    for &slice in slices.iter().rev() {
        for &layer in layers {
            v.push(SegmentId { layer, slice });
        }
    }
    v
}

#[test]
fn rejected_placement_emits_one_conflict_and_writes_nothing() {
    let mut b = board_with_slice_x(5, 5, &[-40, -10, 1, 12, 40]);
    // one cell the T shape needs is already occupied
    b.set_value(3, 2, Some(InnerValue::RedZ), false);
    let before: Vec<_> = (0..5)
        .flat_map(|l| (0..5).map(move |s| (l, s)))
        .map(|(l, s)| b.segment_at(l, s))
        .collect();
    let colliding = collision_set(&[2, 3, 4], &[1, 2, 3]);
    let res = resolve_placement(&mut b, InnerValue::PurpleT, &colliding, 0);
    match res {
        Ok(PlacementOutcome::Rejected { conflicts }) => {
            assert_eq!(conflicts.len(), 1);
            assert_eq!(conflicts[0], SegmentId { layer: 3, slice: 2 });
        }
        other => panic!("expected a rejection, got {:?}", other.is_ok()),
    }
    let after: Vec<_> = (0..5)
        .flat_map(|l| (0..5).map(move |s| (l, s)))
        .map(|(l, s)| b.segment_at(l, s))
        .collect();
    assert_eq!(before, after);
}

#[test]
fn placed_t_piece_lands_on_the_three_nearest_slices() {
    // slice centers: slice 1 at x=-10, slice 2 at x=1, slice 3 at x=12;
    // the platter sits at x=0, so slice 2 is nearest, then slice 1:
    // the nearer segment has the larger x, so the approach is from the left.
    let mut b = board_with_slice_x(5, 5, &[-40, -10, 1, 12, 40]);
    let colliding = collision_set(&[2, 3, 4], &[1, 2, 3]);
    let res = resolve_placement(&mut b, InnerValue::PurpleT, &colliding, 0);
    match res {
        Ok(PlacementOutcome::Placed { cells }) => {
            assert_eq!(cells.len(), 4);
        }
        other => panic!("expected a placement, got {:?}", other.is_ok()),
    }
    // left approach keeps the nearest slice in the middle column:
    // window row 0 = [slice 1, slice 2, slice 3]
    assert_eq!(b.segment_at(4, 2).value, Some(InnerValue::PurpleT));
    assert_eq!(b.segment_at(3, 1).value, Some(InnerValue::PurpleT));
    assert_eq!(b.segment_at(3, 2).value, Some(InnerValue::PurpleT));
    assert_eq!(b.segment_at(3, 3).value, Some(InnerValue::PurpleT));
    assert_eq!(b.segment_at(4, 1).value, None);
    assert_eq!(b.segment_at(4, 3).value, None);
    assert_eq!(b.segment_at(2, 1).value, None);
    assert_eq!(b.segment_at(2, 2).value, None);
    assert_eq!(b.segment_at(2, 3).value, None);
}

#[test]
fn right_approach_mirrors_the_first_row() {
    // nearest slice 2 at x=-1, second nearest slice 3 at x=11: the nearer
    // segment has the smaller x, so the approach is from the right and the
    // permutation sends nearness ranks [0, 1, 2] to columns [1, 2, 0].
    let mut b = board_with_slice_x(5, 5, &[-40, -25, -1, 11, 40]);
    let colliding = collision_set(&[2, 3, 4], &[1, 2, 3]);
    let res = resolve_placement(&mut b, InnerValue::BlueJ, &colliding, 0);
    assert!(matches!(res, Ok(PlacementOutcome::Placed { .. })));
    // BlueJ marks (0,0), (1,0), (1,1), (1,2); right approach first row is
    // [slice 1, slice 2, slice 3]: rank 0 (slice 2) -> column 1,
    // rank 1 (slice 3) -> column 2, rank 2 (slice 1) -> column 0.
    assert_eq!(b.segment_at(4, 1).value, Some(InnerValue::BlueJ));
    assert_eq!(b.segment_at(3, 1).value, Some(InnerValue::BlueJ));
    assert_eq!(b.segment_at(3, 2).value, Some(InnerValue::BlueJ));
    assert_eq!(b.segment_at(3, 3).value, Some(InnerValue::BlueJ));
    assert_eq!(b.segment_at(4, 2).value, None);
}

#[test]
fn spawning_a_z_piece_on_a_large_platter_fills_four_segments() {
    // pie_cuts = 10, onion_layers = 20, the top four rows entirely empty
    let xs: Vec<i64> = (0..10).map(|s| (s as i64) * 10 - 48).collect();
    let mut b = board_with_slice_x(10, 20, &xs);
    let colliding = collision_set(&[16, 17, 18, 19], &[3, 4, 5, 6]);
    let res = resolve_placement(&mut b, InnerValue::RedZ, &colliding, 0);
    match res {
        Ok(PlacementOutcome::Placed { cells }) => assert_eq!(cells.len(), 4),
        other => panic!("expected a placement, got {:?}", other.is_ok()),
    }
    let mut filled = 0;
    for layer in 0..20 {
        for slice in 0..10 {
            if let Some(v) = b.segment_at(layer, slice).value {
                assert_eq!(v, InnerValue::RedZ);
                assert!(b.segment_at(layer, slice).falling);
                filled += 1;
            }
        }
    }
    assert_eq!(filled, 4);
}

#[test]
fn missing_top_row_is_fatal() {
    let mut b = board_with_slice_x(5, 5, &[-40, -10, 1, 12, 40]);
    // only one candidate on the top row
    let colliding = vec![
        SegmentId { layer: 4, slice: 2 },
        SegmentId { layer: 3, slice: 2 },
        SegmentId { layer: 2, slice: 2 },
    ];
    let res = resolve_placement(&mut b, InnerValue::PurpleT, &colliding, 0);
    assert_eq!(res.err(), Some(GeometryError::MissingTopRow));
}

#[test]
fn equal_distance_tie_is_fatal() {
    // slices 1 and 2 share the same center x
    let mut b = board_with_slice_x(5, 5, &[-40, 7, 7, 30, 40]);
    let colliding = collision_set(&[2, 3, 4], &[1, 2, 3]);
    let res = resolve_placement(&mut b, InnerValue::PurpleT, &colliding, 0);
    assert_eq!(res.err(), Some(GeometryError::EqualDistanceTie));
}

#[test]
fn incomplete_window_is_fatal() {
    let mut b = board_with_slice_x(5, 5, &[-40, -10, 1, 12, 40]);
    // the row two layers below the top is missing from the collision set
    let colliding = collision_set(&[3, 4], &[1, 2, 3]);
    let res = resolve_placement(&mut b, InnerValue::PurpleT, &colliding, 0);
    assert_eq!(
        res.err(),
        Some(GeometryError::IncompleteWindow { row: 2 })
    );
}

#[test]
fn too_few_top_row_candidates_for_a_wide_window() {
    // the I piece needs four top-row candidates; only three are present
    let mut b = board_with_slice_x(6, 6, &[-40, -10, 1, 12, 40, 60]);
    let colliding = collision_set(&[1, 2, 3, 4, 5], &[1, 2, 3]);
    let res = resolve_placement(&mut b, InnerValue::CyanI, &colliding, 0);
    assert_eq!(
        res.err(),
        Some(GeometryError::IncompleteWindow { row: 0 })
    );
}

#[test]
fn clearance_filter_discards_deep_candidates() {
    // layer 0 of a 5-layer platter is farther from the top row than a
    // 4-clearance piece reaches, so its occupied cell cannot conflict
    let mut b = board_with_slice_x(5, 5, &[-40, -10, 1, 12, 40]);
    b.set_value(0, 2, Some(InnerValue::RedZ), false);
    let mut colliding = collision_set(&[2, 3, 4], &[1, 2, 3]);
    colliding.push(SegmentId { layer: 0, slice: 2 });
    let res = resolve_placement(&mut b, InnerValue::PurpleT, &colliding, 0);
    assert!(matches!(res, Ok(PlacementOutcome::Placed { .. })));
}

#[test]
fn wide_o_piece_uses_a_four_column_window() {
    // quad-origin pieces seed four top-row candidates; left approach sends
    // nearness ranks [0, 1, 2, 3] to columns [1, 2, 0, 3]
    let mut b = board_with_slice_x(6, 6, &[-60, -10, 1, 12, 25, 60]);
    let colliding = collision_set(&[3, 4, 5], &[1, 2, 3, 4]);
    let res = resolve_placement(&mut b, InnerValue::YellowO, &colliding, 0);
    match res {
        Ok(PlacementOutcome::Placed { cells }) => assert_eq!(cells.len(), 4),
        other => panic!("expected a placement, got {:?}", other.is_ok()),
    }
    // ranks: slice 2 (d=1), slice 3 (d=12? no: |0-12|=12 vs slice 1 d=10)
    // distances: slice1=10, slice2=1, slice3=12, slice4=25
    // ranks [slice2, slice1, slice3, slice4] -> columns [1, 2, 0, 3]:
    // row 0 = [slice3, slice2, slice1, slice4]
    // the O shape marks (0,1), (0,2), (1,1), (1,2)
    assert_eq!(b.segment_at(5, 2).value, Some(InnerValue::YellowO));
    assert_eq!(b.segment_at(5, 1).value, Some(InnerValue::YellowO));
    assert_eq!(b.segment_at(4, 2).value, Some(InnerValue::YellowO));
    assert_eq!(b.segment_at(4, 1).value, Some(InnerValue::YellowO));
    assert_eq!(b.segment_at(5, 3).value, None);
    assert_eq!(b.segment_at(5, 4).value, None);
}

#[test]
fn long_i_piece_lands_in_its_second_window_row() {
    let mut b = board_with_slice_x(6, 8, &[-60, -10, 1, 12, 25, 60]);
    let colliding = collision_set(&[3, 4, 5, 6, 7], &[1, 2, 3, 4]);
    let res = resolve_placement(&mut b, InnerValue::CyanI, &colliding, 0);
    match res {
        Ok(PlacementOutcome::Placed { cells }) => assert_eq!(cells.len(), 4),
        other => panic!("expected a placement, got {:?}", other.is_ok()),
    }
    // the I shape marks all of window row 1, one layer below the top row
    for slice in [1, 2, 3, 4] {
        assert_eq!(b.segment_at(6, slice).value, Some(InnerValue::CyanI));
        assert_eq!(b.segment_at(7, slice).value, None);
    }
}
