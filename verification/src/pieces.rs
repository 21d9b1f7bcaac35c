//! The block shape catalog.
//!
//! Each piece kind maps to a fixed occupancy grid, a display color, and the
//! number of onion layers of clearance it needs below the spawn row.

use vstd::prelude::*;

use crate::grid::BlockGrid;
use crate::grid::GridShape;

verus! {

/// An sRGB color with 8-bit channels.
#[derive(Clone, Copy, Debug, PartialEq, Eq, Structural)]
pub struct Rgba {
    pub red: u8,
    pub green: u8,
    pub blue: u8,
    pub alpha: u8,
}

/// The value a piece writes into the segments it occupies: one of the seven
/// tetromino-like kinds, each naming its color and letter shape.
#[derive(Clone, Copy, Debug, PartialEq, Eq, Structural)]
pub enum InnerValue {
    RedZ,
    GreenS,
    YellowO,
    PurpleT,
    BlueJ,
    OrangeL,
    CyanI,
}

impl InnerValue {
    /// The display color of this kind.
    pub open spec fn spec_color(self) -> Rgba {
        match self {
            InnerValue::RedZ => Rgba { red: 255, green: 0, blue: 0, alpha: 255 },
            InnerValue::GreenS => Rgba { red: 0, green: 128, blue: 0, alpha: 255 },
            InnerValue::YellowO => Rgba { red: 255, green: 255, blue: 0, alpha: 255 },
            InnerValue::PurpleT => Rgba { red: 128, green: 0, blue: 128, alpha: 255 },
            InnerValue::BlueJ => Rgba { red: 0, green: 0, blue: 255, alpha: 255 },
            InnerValue::OrangeL => Rgba { red: 255, green: 165, blue: 0, alpha: 255 },
            InnerValue::CyanI => Rgba { red: 103, green: 232, blue: 249, alpha: 255 },
        }
    }

    pub fn color(&self) -> (c: Rgba)
        ensures
            c == self.spec_color(),
    {
        match self {
            InnerValue::RedZ => Rgba { red: 255, green: 0, blue: 0, alpha: 255 },
            InnerValue::GreenS => Rgba { red: 0, green: 128, blue: 0, alpha: 255 },
            InnerValue::YellowO => Rgba { red: 255, green: 255, blue: 0, alpha: 255 },
            InnerValue::PurpleT => Rgba { red: 128, green: 0, blue: 128, alpha: 255 },
            InnerValue::BlueJ => Rgba { red: 0, green: 0, blue: 255, alpha: 255 },
            InnerValue::OrangeL => Rgba { red: 255, green: 165, blue: 0, alpha: 255 },
            InnerValue::CyanI => Rgba { red: 103, green: 232, blue: 249, alpha: 255 },
        }
    }

    /// The grid shape of this kind's occupancy pattern.
    pub open spec fn spec_shape(self) -> GridShape {
        match self {
            InnerValue::YellowO => GridShape::ThreeByFour,
            InnerValue::CyanI => GridShape::FourByFour,
            _ => GridShape::ThreeByThree,
        }
    }

    /// The occupancy pattern of this kind, row-major.
    pub open spec fn spec_shape_cells(self) -> Seq<bool> {
        match self {
            InnerValue::RedZ => seq![
                true, true, false,
                false, true, true,
                false, false, false,
            ],
            InnerValue::GreenS => seq![
                false, true, true,
                true, true, false,
                false, false, false,
            ],
            InnerValue::YellowO => seq![
                false, true, true, false,
                false, true, true, false,
                false, false, false, false,
            ],
            InnerValue::PurpleT => seq![
                false, true, false,
                true, true, true,
                false, false, false,
            ],
            InnerValue::BlueJ => seq![
                true, false, false,
                true, true, true,
                false, false, false,
            ],
            InnerValue::OrangeL => seq![
                false, false, true,
                true, true, true,
                false, false, false,
            ],
            InnerValue::CyanI => seq![
                false, false, false, false,
                true, true, true, true,
                false, false, false, false,
                false, false, false, false,
            ],
        }
    }

    /// The occupancy grid of this kind.
    pub fn shape_coordinates(&self) -> (g: BlockGrid<bool>)
        ensures
            g.wf(),
            g.spec_shape() == self.spec_shape(),
            g.spec_cells() == self.spec_shape_cells(),
    {
        let t = true;
        let f = false;
        let (shape, cells) = match self {
            InnerValue::RedZ => (
                GridShape::ThreeByThree,
                vec![t, t, f, f, t, t, f, f, f],
            ),
            InnerValue::GreenS => (
                GridShape::ThreeByThree,
                vec![f, t, t, t, t, f, f, f, f],
            ),
            InnerValue::YellowO => (
                GridShape::ThreeByFour,
                vec![f, t, t, f, f, t, t, f, f, f, f, f],
            ),
            InnerValue::PurpleT => (
                GridShape::ThreeByThree,
                vec![f, t, f, t, t, t, f, f, f],
            ),
            InnerValue::BlueJ => (
                GridShape::ThreeByThree,
                vec![t, f, f, t, t, t, f, f, f],
            ),
            InnerValue::OrangeL => (
                GridShape::ThreeByThree,
                vec![f, f, t, t, t, t, f, f, f],
            ),
            InnerValue::CyanI => (
                GridShape::FourByFour,
                vec![f, f, f, f, t, t, t, t, f, f, f, f, f, f, f, f],
            ),
        };
        let g = BlockGrid { shape, cells };
        proof {
            assert(g.spec_cells() =~= self.spec_shape_cells());
        }
        g
    }

    /// How many onion layers of clearance below the top row this kind needs:
    /// the long I piece needs five rows, every other kind four.
    pub open spec fn spec_clearance(self) -> nat {
        match self {
            InnerValue::CyanI => 5,
            _ => 4,
        }
    }

    pub fn clearance(&self) -> (r: usize)
        ensures
            r == self.spec_clearance(),
    {
        match self {
            InnerValue::CyanI => 5,
            _ => 4,
        }
    }
}

} // verus!
