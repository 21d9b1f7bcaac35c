use platter_game::grid::BlockGrid;
use platter_game::grid::GridPos;
use platter_game::grid::GridRect;
use platter_game::grid::GridShape;
use platter_game::grid::Origin;
use platter_game::grid::OriginType;
use platter_game::pieces::InnerValue;
use platter_game::pieces::Rgba;

fn grid3(cells: [i32; 9]) -> BlockGrid<i32> {
    BlockGrid {
        shape: GridShape::ThreeByThree,
        cells: cells.to_vec(),
    }
}

#[test]
fn rotate_three_by_three_quarter_turn() {
    let g = grid3([1, 2, 3, 4, 5, 6, 7, 8, 9]);
    let r = g.rotate();
    // rotated[j][2 - i] = original[i][j]
    assert_eq!(r.cells, vec![7, 4, 1, 8, 5, 2, 9, 6, 3]);
}

#[test]
fn rotate_four_times_is_identity_3x3() {
    let g = grid3([1, 2, 3, 4, 5, 6, 7, 8, 9]);
    let r = g.rotate().rotate().rotate().rotate();
    assert_eq!(r.cells, g.cells);
}

#[test]
fn rotate_four_times_is_identity_4x4() {
    let cells: Vec<u8> = (0..16).collect();
    let g = BlockGrid {
        shape: GridShape::FourByFour,
        cells: cells.clone(),
    };
    let r = g.rotate().rotate().rotate().rotate();
    assert_eq!(r.cells, cells);
}

#[test]
fn rotate_four_times_is_identity_bool_shapes() {
    for kind in [
        InnerValue::RedZ,
        InnerValue::GreenS,
        InnerValue::PurpleT,
        InnerValue::BlueJ,
        InnerValue::OrangeL,
        InnerValue::CyanI,
    ] {
        let g = kind.shape_coordinates();
        let r = g.rotate().rotate().rotate().rotate();
        assert_eq!(r.cells, g.cells);
    }
}

#[test]
fn rotate_non_square_is_identity() {
    let g = InnerValue::YellowO.shape_coordinates();
    let r = g.rotate();
    assert_eq!(r.cells, g.cells);
    assert!(r.is_same_size(&g));
}

#[test]
fn is_same_size_compares_shapes() {
    let a = InnerValue::PurpleT.shape_coordinates();
    let b = InnerValue::RedZ.shape_coordinates();
    let c = InnerValue::CyanI.shape_coordinates();
    let d = InnerValue::YellowO.shape_coordinates();
    assert!(a.is_same_size(&b));
    assert!(!a.is_same_size(&c));
    assert!(!c.is_same_size(&d));
}

#[test]
fn grid_get_and_row() {
    let g = grid3([1, 2, 3, 4, 5, 6, 7, 8, 9]);
    assert_eq!(g.get(0, 0), 1);
    assert_eq!(g.get(1, 2), 6);
    assert_eq!(g.get(2, 1), 8);
    assert_eq!(g.row(1), vec![4, 5, 6]);
}

#[test]
fn origin_types_per_shape() {
    let t = InnerValue::PurpleT.shape_coordinates();
    assert_eq!(t.origin_type(), OriginType::Single(GridPos { x: 1, y: 1 }));
    let o = InnerValue::YellowO.shape_coordinates();
    assert_eq!(
        o.origin_type(),
        OriginType::QuadAvg(
            GridPos { x: 1, y: 0 },
            GridPos { x: 1, y: 1 },
            GridPos { x: 2, y: 0 },
            GridPos { x: 2, y: 1 },
        )
    );
    let i = InnerValue::CyanI.shape_coordinates();
    assert_eq!(
        i.origin_type(),
        OriginType::QuadAvg(
            GridPos { x: 1, y: 1 },
            GridPos { x: 1, y: 2 },
            GridPos { x: 2, y: 1 },
            GridPos { x: 2, y: 2 },
        )
    );
}

#[test]
fn origin_of_position_grids() {
    let mut cells = Vec::new();
    for y in 0..3u32 {
        for x in 0..3u32 {
            cells.push(GridPos { x: 10 + x, y: 20 + y });
        }
    }
    let g = BlockGrid {
        shape: GridShape::ThreeByThree,
        cells,
    };
    assert_eq!(g.origin(), Origin::Single(GridPos { x: 11, y: 21 }));

    let mut cells4 = Vec::new();
    for y in 0..4u32 {
        for x in 0..4u32 {
            cells4.push(GridPos { x, y });
        }
    }
    let g4 = BlockGrid {
        shape: GridShape::FourByFour,
        cells: cells4,
    };
    assert_eq!(
        g4.origin(),
        Origin::QuadAvg(GridRect {
            min: GridPos { x: 1, y: 1 },
            max: GridPos { x: 2, y: 2 },
        })
    );
}

#[test]
fn shape_catalog_patterns() {
    let t = true;
    let f = false;
    assert_eq!(
        InnerValue::RedZ.shape_coordinates().cells,
        vec![t, t, f, f, t, t, f, f, f]
    );
    assert_eq!(
        InnerValue::GreenS.shape_coordinates().cells,
        vec![f, t, t, t, t, f, f, f, f]
    );
    assert_eq!(
        InnerValue::YellowO.shape_coordinates().cells,
        vec![f, t, t, f, f, t, t, f, f, f, f, f]
    );
    assert_eq!(
        InnerValue::PurpleT.shape_coordinates().cells,
        vec![f, t, f, t, t, t, f, f, f]
    );
    assert_eq!(
        InnerValue::BlueJ.shape_coordinates().cells,
        vec![t, f, f, t, t, t, f, f, f]
    );
    assert_eq!(
        InnerValue::OrangeL.shape_coordinates().cells,
        vec![f, f, t, t, t, t, f, f, f]
    );
    assert_eq!(
        InnerValue::CyanI.shape_coordinates().cells,
        vec![f, f, f, f, t, t, t, t, f, f, f, f, f, f, f, f]
    );
}

#[test]
fn shape_catalog_colors_and_clearance() {
    assert_eq!(
        InnerValue::RedZ.color(),
        Rgba { red: 255, green: 0, blue: 0, alpha: 255 }
    );
    assert_eq!(
        InnerValue::PurpleT.color(),
        Rgba { red: 128, green: 0, blue: 128, alpha: 255 }
    );
    assert_eq!(
        InnerValue::CyanI.color(),
        Rgba { red: 103, green: 232, blue: 249, alpha: 255 }
    );
    for kind in [
        InnerValue::RedZ,
        InnerValue::GreenS,
        InnerValue::YellowO,
        InnerValue::PurpleT,
        InnerValue::BlueJ,
        InnerValue::OrangeL,
    ] {
        assert_eq!(kind.clearance(), 4);
    }
    assert_eq!(InnerValue::CyanI.clearance(), 5);
}

#[test]
fn shapes_mark_exactly_four_cells() {
    for kind in [
        InnerValue::RedZ,
        InnerValue::GreenS,
        InnerValue::YellowO,
        InnerValue::PurpleT,
        InnerValue::BlueJ,
        InnerValue::OrangeL,
        InnerValue::CyanI,
    ] {
        let marked = kind
            .shape_coordinates()
            .cells
            .iter()
            .filter(|&&b| b)
            .count();
        assert_eq!(marked, 4);
    }
}
