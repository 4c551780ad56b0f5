use crate::map_builders::prefab_builders::{ascii_cells, GlyphModel};
use vstd::prelude::*;

verus! {

/// Where on the grid a section goes, from left to right.
#[derive(PartialEq, Eq, Structural, Copy, Clone, Debug)]
pub enum HorizontalPlacement {
    Left,
    Center,
    Right,
}

/// Where on the grid a section goes, from top to bottom.
#[derive(PartialEq, Eq, Structural, Copy, Clone, Debug)]
pub enum VerticalPlacement {
    Top,
    Center,
    Bottom,
}

/// A part of a level drawn in characters, row after row, to be laid over
/// a level that is there already.
#[derive(Copy, Clone, Debug)]
pub struct PrefabSection {
    pub template: &'static str,
    pub width: usize,
    pub height: usize,
    pub placement: (HorizontalPlacement, VerticalPlacement),
}

impl PrefabSection {
    /// The glyphs of the section.
    pub open spec fn glyphs(&self) -> GlyphModel {
        GlyphModel {
            cols: self.width as int,
            rows: self.height as int,
            cells: ascii_cells(self.template@, self.template@.len() as int),
            by_columns: false,
        }
    }
}

/// The column of the left edge of a section `size` wide on a grid
/// `extent` wide. A section placed at the right ends a cell before the
/// right edge of the grid where it is narrower than the grid, and fills
/// the grid where it is as wide.
pub open spec fn anchor_x(placement: HorizontalPlacement, extent: int, size: int) -> int {
    match placement {
        HorizontalPlacement::Left => 0,
        HorizontalPlacement::Center => extent / 2 - size / 2,
        HorizontalPlacement::Right => if size < extent {
            (extent - 1) - size
        } else {
            0
        },
    }
}

/// The row of the top edge of a section `size` high on a grid `extent`
/// high. A section placed at the bottom ends a cell before the bottom edge
/// of the grid where it is lower than the grid, and fills the grid where
/// it is as high.
pub open spec fn anchor_y(placement: VerticalPlacement, extent: int, size: int) -> int {
    match placement {
        VerticalPlacement::Top => 0,
        VerticalPlacement::Center => extent / 2 - size / 2,
        VerticalPlacement::Bottom => if size < extent {
            (extent - 1) - size
        } else {
            0
        },
    }
}

/// Finds the column of the left edge of a section.
pub fn horizontal_anchor(placement: HorizontalPlacement, extent: i32, size: i32) -> (x: i32)
    requires
        0 <= size <= extent,
    ensures
        x == anchor_x(placement, extent as int, size as int),
{
    match placement {
        HorizontalPlacement::Left => 0,
        HorizontalPlacement::Center => (extent / 2) - (size / 2),
        HorizontalPlacement::Right => if size < extent {
            (extent - 1) - size
        } else {
            0
        },
    }
}

/// Finds the row of the top edge of a section.
pub fn vertical_anchor(placement: VerticalPlacement, extent: i32, size: i32) -> (y: i32)
    requires
        0 <= size <= extent,
    ensures
        y == anchor_y(placement, extent as int, size as int),
{
    match placement {
        VerticalPlacement::Top => 0,
        VerticalPlacement::Center => (extent / 2) - (size / 2),
        VerticalPlacement::Bottom => if size < extent {
            (extent - 1) - size
        } else {
            0
        },
    }
}

/// A section that is no wider than the grid lies on the grid from its left
/// edge to its right edge, wherever it is placed, and at the left edge
/// where it is placed at the left.
pub proof fn lemma_anchor_x_on_grid(placement: HorizontalPlacement, extent: int, size: int)
    requires
        0 <= size <= extent,
    ensures
        0 <= anchor_x(placement, extent, size) <= extent - size,
        placement == HorizontalPlacement::Left ==> anchor_x(placement, extent, size) == 0,
{
}

/// A section that is no higher than the grid lies on the grid from its top
/// edge to its bottom edge, wherever it is placed, and at the top edge
/// where it is placed at the top.
pub proof fn lemma_anchor_y_on_grid(placement: VerticalPlacement, extent: int, size: int)
    requires
        0 <= size <= extent,
    ensures
        0 <= anchor_y(placement, extent, size) <= extent - size,
        placement == VerticalPlacement::Top ==> anchor_y(placement, extent, size) == 0,
{
}

} // verus!
