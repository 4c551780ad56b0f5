use crate::map_builders::{BuilderMap, Fields, MetaMapBuilder, Position};
use crate::rect::half;
use vstd::prelude::*;

verus! {

/// The stage that makes the middle of the first room the starting
/// position.
pub struct RoomBasedStartingPosition {}

impl RoomBasedStartingPosition {
    /// The stage; it has nothing to set.
    pub fn new() -> (r: Box<RoomBasedStartingPosition>)
        ensures
            *r == (RoomBasedStartingPosition {  }),
    {
        Box::new(RoomBasedStartingPosition {  })
    }

    /// Makes the middle of the first room the starting position. Without
    /// a room the context keeps the starting position it has.
    pub fn build(&mut self, build_data: &mut BuilderMap)
        requires
            old(build_data).wf(),
            old(build_data).rooms is Some,
        ensures
            final(build_data).wf(),
            final(build_data).extends(old(build_data)),
            final(build_data).map == old(build_data).map,
            final(build_data).list_spawns == old(build_data).list_spawns,
            final(build_data).history == old(build_data).history,
            final(build_data).rooms == old(build_data).rooms,
            final(build_data).corridors == old(build_data).corridors,
            final(build_data).submaps == old(build_data).submaps,
            old(build_data).rooms->0@.len() == 0 ==> final(build_data).starting_position == old(
                build_data).starting_position,
            old(build_data).rooms->0@.len() > 0 ==> final(build_data).starting_position == Some(
                Position {
                    x: half(old(build_data).rooms->0@[0].x1 + old(build_data).rooms->0@[0].x2) as i32,
                    y: half(old(build_data).rooms->0@[0].y1 + old(build_data).rooms->0@[0].y2) as i32,
                },
            ),
    {
        let mut start: Option<Position> = None;
        match &build_data.rooms {
            Some(rooms) => {
                if rooms.len() > 0 {
                    assert(rooms@[0].fits(build_data.width as int, build_data.height as int));
                    let start_pos = rooms[0].center();
                    start = Some(Position { x: start_pos.0, y: start_pos.1 });
                }
            },
            None => {},
        }
        match start {
            Some(p) => {
                build_data.starting_position = Some(p);
            },
            None => {},
        }
    }
}

impl MetaMapBuilder for RoomBasedStartingPosition {
    open spec fn fits_grid(&self, width: int, height: int) -> bool {
        true
    }

    open spec fn needs(&self) -> Fields {
        Fields { rooms: true, corridors: false, submaps: false }
    }

    open spec fn provides(&self) -> Fields {
        Fields::none()
    }

    open spec fn outcome(&self, before: &BuilderMap, after: &BuilderMap) -> bool {
        &&& after.map == before.map
        &&& before.rooms->0@.len() > 0 ==> after.starting_position == Some(
            Position {
                x: half(before.rooms->0@[0].x1 + before.rooms->0@[0].x2) as i32,
                y: half(before.rooms->0@[0].y1 + before.rooms->0@[0].y2) as i32,
            },
        )
    }

    fn grid_ok(&self, width: i32, height: i32) -> (r: bool) {
        true
    }

    fn needed(&self) -> (r: Fields) {
        Fields { rooms: true, corridors: false, submaps: false }
    }

    fn provided(&self) -> (r: Fields) {
        Fields { rooms: false, corridors: false, submaps: false }
    }

    fn build_map(&mut self, rng: &mut rltk::RandomNumberGenerator, build_data: &mut BuilderMap) {
        self.build(build_data);
    }
}

} // verus!
