use crate::map_builders::{BuilderMap, Fields, MetaMapBuilder};
use crate::rect::Rect;
use vstd::prelude::*;

verus! {

/// The stage that sets aside the middle of the grid as the one sub-region
/// for later stages to work in.
pub struct RectBuilder {}

/// The sub-region of a grid of the given size: half as wide and half as
/// high as the grid, a quarter of the width off the left edge and a
/// quarter of the height off the top edge.
pub open spec fn middle_region(width: int, height: int) -> Rect {
    Rect {
        x1: (width / 4) as i32,
        y1: (height / 4) as i32,
        x2: (width / 4 + width / 2) as i32,
        y2: (height / 4 + height / 2) as i32,
    }
}

impl RectBuilder {
    /// The stage; it has nothing to set.
    pub fn new() -> (r: Box<RectBuilder>)
        ensures
            *r == (RectBuilder {  }),
    {
        Box::new(RectBuilder {  })
    }

    /// Records the middle of the grid as the one sub-region of the
    /// context.
    pub fn build(&mut self, build_data: &mut BuilderMap)
        requires
            old(build_data).wf(),
        ensures
            final(build_data).wf(),
            final(build_data).extends(old(build_data)),
            final(build_data).map == old(build_data).map,
            final(build_data).list_spawns == old(build_data).list_spawns,
            final(build_data).history == old(build_data).history,
            final(build_data).starting_position == old(build_data).starting_position,
            final(build_data).rooms == old(build_data).rooms,
            final(build_data).corridors == old(build_data).corridors,
            final(build_data).submaps matches Some(regions) && regions@ == seq![
                middle_region(old(build_data).width as int, old(build_data).height as int),
            ],
    {
        let width = build_data.map.width;
        let height = build_data.map.height;
        let region = Rect::new(width / 4, height / 4, width / 2, height / 2);
        let mut regions: Vec<Rect> = Vec::new();
        regions.push(region);
        build_data.submaps = Some(regions);
    }
}

impl MetaMapBuilder for RectBuilder {
    open spec fn fits_grid(&self, width: int, height: int) -> bool {
        true
    }

    open spec fn needs(&self) -> Fields {
        Fields::none()
    }

    open spec fn provides(&self) -> Fields {
        Fields { rooms: false, corridors: false, submaps: true }
    }

    open spec fn outcome(&self, before: &BuilderMap, after: &BuilderMap) -> bool {
        &&& after.map == before.map
        &&& after.submaps matches Some(regions) && regions@ == seq![
            middle_region(before.width as int, before.height as int),
        ]
    }

    fn grid_ok(&self, width: i32, height: i32) -> (r: bool) {
        true
    }

    fn needed(&self) -> (r: Fields) {
        Fields { rooms: false, corridors: false, submaps: false }
    }

    fn provided(&self) -> (r: Fields) {
        Fields { rooms: false, corridors: false, submaps: true }
    }

    fn build_map(&mut self, rng: &mut rltk::RandomNumberGenerator, build_data: &mut BuilderMap) {
        self.build(build_data);
    }
}

} // verus!
