use crate::map::{Grid, TileType};
use crate::map_builders::common::{
    carved_only,
    halls_on_floor,
    lemma_carved_twice,
    lemma_halls_stay_on_floor,
};
use crate::map_builders::simple_map::{on_bend, SimpleMapBuilder};
use crate::map_builders::{BuilderMap, Fields, MetaMapBuilder};
use crate::rect::Rect;
use crate::rng::range;
use vstd::prelude::*;

verus! {

/// The stage that joins each room to the room before it by a corridor with
/// one bend.
pub struct DoglegCorridors {}

/// Whether `(x, y)` lies on the corridor from one of the first `n` rooms
/// to the room before it; `flips[i]` tells whether the corridor to the
/// room at place `i` runs along the row first.
pub open spec fn doglegs_cover(
    map: &Grid,
    rooms: Seq<Rect>,
    flips: Seq<bool>,
    n: int,
    x: int,
    y: int,
) -> bool
    decreases n,
{
    n >= 2 && (doglegs_cover(map, rooms, flips, n - 1, x, y) || on_bend(
        map,
        rooms[n - 2],
        rooms[n - 1],
        flips[n - 1],
        x,
        y,
    ))
}

/// What the corridors to the first `n` rooms cover does not depend on
/// the bends of the corridors after them.
pub proof fn lemma_doglegs_prefix(
    map: &Grid,
    rooms: Seq<Rect>,
    flips: Seq<bool>,
    more: Seq<bool>,
    n: int,
    x: int,
    y: int,
)
    requires
        0 <= n <= flips.len() <= more.len(),
        forall|i: int| 0 <= i < n ==> more[i] == flips[i],
    ensures
        doglegs_cover(map, rooms, more, n, x, y) == doglegs_cover(map, rooms, flips, n, x, y),
    decreases n,
{
    if n > 0 {
        lemma_doglegs_prefix(map, rooms, flips, more, n - 1, x, y);
    }
}

/// Whether `after` is `before` with a corridor from each room to the room
/// before it turned into floor, the corridors bent as `flips` says.
pub open spec fn dogleg_plan(before: &Grid, after: &Grid, rooms: Seq<Rect>, flips: Seq<bool>) -> bool {
    &&& flips.len() >= rooms.len()
    &&& forall|x: int, y: int|
        before.in_bounds(x, y) ==> #[trigger] after.tile_at(x, y) == if doglegs_cover(
            before,
            rooms,
            flips,
            rooms.len() as int,
            x,
            y,
        ) {
            TileType::Floor
        } else {
            before.tile_at(x, y)
        }
}

impl DoglegCorridors {
    /// The stage; it has nothing to set.
    pub fn new() -> (r: Box<DoglegCorridors>)
        ensures
            *r == (DoglegCorridors {  }),
    {
        Box::new(DoglegCorridors {  })
    }

    /// Carves, for every room but the first, a corridor from the middle of
    /// the room before it to its own middle: a run along a row and a run
    /// along a column, in the order that a coin decides. The cells that
    /// each corridor turned into floor are recorded in the context.
    #[verifier::rlimit(50)]
    pub fn corridors(&mut self, rng: &mut rltk::RandomNumberGenerator, build_data: &mut BuilderMap)
        requires
            old(build_data).wf(),
            old(build_data).rooms is Some,
        ensures
            final(build_data).wf(),
            final(build_data).extends(old(build_data)),
            final(build_data).list_spawns == old(build_data).list_spawns,
            final(build_data).starting_position == old(build_data).starting_position,
            final(build_data).rooms == old(build_data).rooms,
            final(build_data).submaps == old(build_data).submaps,
            carved_only(&old(build_data).map, &final(build_data).map),
            exists|flips: Seq<bool>| #[trigger]
                dogleg_plan(
                    &old(build_data).map,
                    &final(build_data).map,
                    old(build_data).rooms->0@,
                    flips,
                ),
            final(build_data).corridors matches Some(halls) && {
                &&& old(build_data).rooms->0@.len() > 0 ==> halls@.len() == old(
                    build_data).rooms->0@.len() - 1
                &&& old(build_data).rooms->0@.len() == 0 ==> halls@.len() == 0
                &&& halls_on_floor(&final(build_data).map, halls@)
            },
    {
        let ghost before = *build_data;
        let mut corridors: Vec<Vec<usize>> = Vec::new();
        let n = match &build_data.rooms {
            Some(rooms) => rooms.len(),
            None => 0,
        };
        let mut i: usize = 1;
        let ghost mut flips: Seq<bool> = seq![false];
        proof {
            lemma_carved_twice(&before.map, &before.map, &before.map);
        }
        while i < n
            invariant
                flips.len() == i,
                forall|x: int, y: int|
                    before.map.in_bounds(x, y) ==> #[trigger] build_data.map.tile_at(x, y)
                        == if doglegs_cover(&before.map, before.rooms->0@, flips, i as int, x, y) {
                        TileType::Floor
                    } else {
                        before.map.tile_at(x, y)
                    },
                1 <= i,
                i <= n || n == 0,
                n == 0 ==> i == 1,
                before.wf(),
                before.rooms is Some,
                n == before.rooms->0@.len(),
                build_data.wf(),
                build_data.same_records(&before),
                carved_only(&before.map, &build_data.map),
                corridors@.len() == i - 1,
                halls_on_floor(&build_data.map, corridors@),
            decreases n - i,
        {
            let ghost prev = *build_data;
            let mut corridor: Vec<usize> = Vec::new();
            let ghost mut flip = false;
            match &build_data.rooms {
                Some(rooms) => {
                    let horizontal_first = range(rng, 0, 2) == 1;
                    proof {
                        flip = horizontal_first;
                    }
                    corridor = SimpleMapBuilder::connect(
                        &mut build_data.map,
                        &rooms[i - 1],
                        &rooms[i],
                        horizontal_first,
                    );
                },
                None => {},
            }
            proof {
                let more = flips.push(flip);
                assert forall|x: int, y: int|
                    before.map.in_bounds(x, y) implies #[trigger] build_data.map.tile_at(x, y)
                    == if doglegs_cover(&before.map, before.rooms->0@, more, i + 1, x, y) {
                    TileType::Floor
                } else {
                    before.map.tile_at(x, y)
                } by {
                    lemma_doglegs_prefix(&before.map, before.rooms->0@, flips, more, i as int, x, y);
                    assert(prev.map.tile_at(x, y) == if doglegs_cover(
                        &before.map,
                        before.rooms->0@,
                        flips,
                        i as int,
                        x,
                        y,
                    ) {
                        TileType::Floor
                    } else {
                        before.map.tile_at(x, y)
                    });
                    assert(build_data.map.tile_at(x, y) == if on_bend(
                        &prev.map,
                        before.rooms->0@[i - 1],
                        before.rooms->0@[i as int],
                        flip,
                        x,
                        y,
                    ) {
                        TileType::Floor
                    } else {
                        prev.map.tile_at(x, y)
                    });
                }
                flips = more;
            }
            proof {
                lemma_carved_twice(&before.map, &prev.map, &build_data.map);
                lemma_halls_stay_on_floor(&prev.map, &build_data.map, corridors@);
                assert forall|a: int, b: int|
                    0 <= a < corridors@.push(corridor).len() && 0 <= b < corridors@.push(
                        corridor,
                    )[a]@.len() implies (#[trigger] corridors@.push(corridor)[a]@[b])
                    < build_data.map.cells() && build_data.map.tiles@[corridors@.push(
                    corridor,
                )[a]@[b] as int] == crate::map::TileType::Floor by {
                    if a < corridors@.len() {
                        assert(corridors@.push(corridor)[a] == corridors@[a]);
                        assert(corridors@[a]@[b] < build_data.map.cells());
                    }
                }
            }
            corridors.push(corridor);
            build_data.take_snapshot();
            i += 1;
        }
        proof {
            assert(dogleg_plan(&before.map, &build_data.map, before.rooms->0@, flips));
        }
        build_data.corridors = Some(corridors);
    }
}

impl MetaMapBuilder for DoglegCorridors {
    open spec fn fits_grid(&self, width: int, height: int) -> bool {
        true
    }

    open spec fn needs(&self) -> Fields {
        Fields { rooms: true, corridors: false, submaps: false }
    }

    open spec fn provides(&self) -> Fields {
        Fields { rooms: false, corridors: true, submaps: false }
    }

    open spec fn outcome(&self, before: &BuilderMap, after: &BuilderMap) -> bool {
        &&& exists|flips: Seq<bool>| #[trigger]
            dogleg_plan(&before.map, &after.map, before.rooms->0@, flips)
        &&& after.corridors matches Some(halls) && halls_on_floor(&after.map, halls@)
    }

    fn grid_ok(&self, width: i32, height: i32) -> (r: bool) {
        true
    }

    fn needed(&self) -> (r: Fields) {
        Fields { rooms: true, corridors: false, submaps: false }
    }

    fn provided(&self) -> (r: Fields) {
        Fields { rooms: false, corridors: true, submaps: false }
    }

    fn build_map(&mut self, rng: &mut rltk::RandomNumberGenerator, build_data: &mut BuilderMap) {
        self.corridors(rng, build_data);
    }
}

} // verus!
