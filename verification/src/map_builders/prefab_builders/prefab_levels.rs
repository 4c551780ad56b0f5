use crate::map_builders::prefab_builders::{ascii_cells, GlyphModel};
use vstd::prelude::*;

verus! {

/// A whole level drawn in characters, row after row; line breaks in the
/// text do not count.
#[derive(Copy, Clone, Debug)]
pub struct PrefabLevel {
    pub template: &'static str,
    pub width: usize,
    pub height: usize,
}

impl PrefabLevel {
    /// The glyphs of the level.
    pub open spec fn glyphs(&self) -> GlyphModel {
        GlyphModel {
            cols: self.width as int,
            rows: self.height as int,
            cells: ascii_cells(self.template@, self.template@.len() as int),
            by_columns: false,
        }
    }
}

} // verus!
