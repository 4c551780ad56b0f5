use crate::map_builders::{BuilderMap, Fields, MetaMapBuilder};
use crate::map::Grid;
use crate::rect::Rect;
use crate::spawner::{can_roll, has_target, room_target, spawn_room};
use vstd::prelude::*;

verus! {

/// The stage that asks for something in every room but the first.
pub struct RoomBasedSpawner {}

/// Whether a spawn request is one that the stage makes for a context: the
/// name can come out of the weighted table of the context, and the cell is
/// a floor cell inside one of the rooms but the first.
pub open spec fn room_spawn(before: &BuilderMap, entry: (usize, String)) -> bool {
    &&& can_roll(&before.spawn_table, entry.1)
    &&& exists|q: int|
        1 <= q < before.rooms->0@.len() && room_target(
            &before.map,
            &#[trigger] before.rooms->0@[q],
            entry.0 as int,
        )
}

/// The rooms that get a request among the first `n`: those but the first
/// that have floor inside, in their order.
pub open spec fn rooms_with_floor(map: &Grid, rooms: Seq<Rect>, n: int) -> Seq<int>
    decreases n,
{
    if n <= 1 {
        Seq::empty()
    } else if has_target(map, &rooms[n - 1]) {
        rooms_with_floor(map, rooms, n - 1).push(n - 1)
    } else {
        rooms_with_floor(map, rooms, n - 1)
    }
}

/// Whether a spawn request is one for the room of index `q`: the name can
/// come out of the weighted table of the context, and the cell is a floor
/// cell inside that room.
pub open spec fn asked_in_room(before: &BuilderMap, q: int, entry: (usize, String)) -> bool {
    &&& can_roll(&before.spawn_table, entry.1)
    &&& room_target(&before.map, &before.rooms->0@[q], entry.0 as int)
}

/// Whether `requests` is the list of the context followed by one request
/// for each room of `asked`, in that order, and nothing more.
pub open spec fn one_per_room(
    before: &BuilderMap,
    asked: Seq<int>,
    requests: Seq<(usize, String)>,
) -> bool {
    &&& requests.len() == before.list_spawns@.len() + asked.len()
    &&& before.list_spawns@.is_prefix_of(requests)
    &&& forall|k: int|
        0 <= k < asked.len() ==> asked_in_room(
            before,
            #[trigger] asked[k],
            requests[before.list_spawns@.len() + k],
        )
}

impl RoomBasedSpawner {
    /// The stage; it has nothing to set.
    pub fn new() -> (r: Box<RoomBasedSpawner>)
        ensures
            *r == (RoomBasedSpawner {  }),
    {
        Box::new(RoomBasedSpawner {  })
    }

    /// Asks, for every room but the first, for one thing drawn from the
    /// weighted table of the context on a floor cell inside the room; a
    /// room without floor inside gets nothing. The requests are added in
    /// the order of the rooms, one for each room that has floor inside.
    #[verifier::rlimit(50)]
    pub fn build(&mut self, rng: &mut rltk::RandomNumberGenerator, build_data: &mut BuilderMap)
        requires
            old(build_data).wf(),
            old(build_data).rooms is Some,
        ensures
            final(build_data).wf(),
            final(build_data).extends(old(build_data)),
            final(build_data).map == old(build_data).map,
            final(build_data).history == old(build_data).history,
            final(build_data).starting_position == old(build_data).starting_position,
            final(build_data).rooms == old(build_data).rooms,
            final(build_data).corridors == old(build_data).corridors,
            final(build_data).submaps == old(build_data).submaps,
            one_per_room(
                old(build_data),
                rooms_with_floor(
                    &old(build_data).map,
                    old(build_data).rooms->0@,
                    old(build_data).rooms->0@.len() as int,
                ),
                final(build_data).list_spawns@,
            ),
            forall|i: int|
                old(build_data).list_spawns@.len() <= i < final(build_data).list_spawns@.len()
                    ==> room_spawn(old(build_data), #[trigger] final(build_data).list_spawns@[i]),
    {
        let ghost before = *build_data;
        let n = match &build_data.rooms {
            Some(rooms) => rooms.len(),
            None => 0,
        };
        let mut r: usize = 1;
        while r < n
            invariant
                1 <= r,
                r <= n || r == 1,
                before.wf(),
                before.rooms is Some,
                n == before.rooms->0@.len(),
                build_data.wf(),
                build_data.extends(&before),
                build_data.map == before.map,
                build_data.history == before.history,
                build_data.starting_position == before.starting_position,
                build_data.rooms == before.rooms,
                build_data.corridors == before.corridors,
                build_data.submaps == before.submaps,
                build_data.spawn_table == before.spawn_table,
                one_per_room(
                    &before,
                    rooms_with_floor(&before.map, before.rooms->0@, r as int),
                    build_data.list_spawns@,
                ),
                forall|i: int|
                    before.list_spawns@.len() <= i < build_data.list_spawns@.len() ==> room_spawn(
                        &before,
                        #[trigger] build_data.list_spawns@[i],
                    ),
            decreases n - r,
        {
            let ghost prev = build_data.list_spawns@;
            let ghost asked = rooms_with_floor(&before.map, before.rooms->0@, r as int);
            match &build_data.rooms {
                Some(rooms) => {
                    assert(rooms@[r as int].fits(before.width as int, before.height as int));
                    spawn_room(
                        &build_data.map,
                        rng,
                        &rooms[r],
                        &build_data.spawn_table,
                        &mut build_data.list_spawns,
                    );
                },
                None => {},
            }
            proof {
                if build_data.list_spawns@ != prev {
                    let last = build_data.list_spawns@.last();
                    assert(build_data.list_spawns@.drop_last() == prev);
                    assert(room_target(&before.map, &before.rooms->0@[r as int], last.0 as int));
                    let idx = last.0 as int;
                    before.map.lemma_has_cells();
                    let (x, y) = choose|x: int, y: int|
                        {
                            &&& before.rooms->0@[r as int].x1 < x < before.rooms->0@[r as int].x2
                            &&& before.rooms->0@[r as int].y1 < y < before.rooms->0@[r as int].y2
                            &&& idx == #[trigger] before.map.index_of(x, y)
                            &&& before.map.tile_at(x, y) == crate::map::TileType::Floor
                        };
                    before.map.lemma_index_in_range(x, y);
                    assert forall|i: int|
                        before.list_spawns@.len() <= i < build_data.list_spawns@.len() implies room_spawn(
                        &before,
                        #[trigger] build_data.list_spawns@[i],
                    ) by {
                        if i < prev.len() {
                            assert(build_data.list_spawns@[i] == prev[i]);
                        }
                    }
                    assert forall|i: int| 0 <= i < build_data.list_spawns@.len() implies (
                    #[trigger] build_data.list_spawns@[i]).0 < before.map.cells() by {
                        if i < prev.len() {
                            assert(build_data.list_spawns@[i] == prev[i]);
                        }
                    }
                    assert(prev.is_prefix_of(build_data.list_spawns@));
                }
                let now = rooms_with_floor(&before.map, before.rooms->0@, r + 1);
                assert forall|k: int| 0 <= k < now.len() implies asked_in_room(
                    &before,
                    #[trigger] now[k],
                    build_data.list_spawns@[before.list_spawns@.len() + k],
                ) by {
                    if k < asked.len() {
                        assert(now[k] == asked[k]);
                        assert(build_data.list_spawns@[before.list_spawns@.len() + k]
                            == prev[before.list_spawns@.len() + k]);
                    }
                }
            }
            r += 1;
        }
        proof {
            if n == 0 {
                assert(rooms_with_floor(&before.map, before.rooms->0@, 1) =~= rooms_with_floor(
                    &before.map,
                    before.rooms->0@,
                    0,
                ));
            }
        }
    }
}

impl MetaMapBuilder for RoomBasedSpawner {
    open spec fn fits_grid(&self, width: int, height: int) -> bool {
        true
    }

    open spec fn needs(&self) -> Fields {
        Fields { rooms: true, corridors: false, submaps: false }
    }

    open spec fn provides(&self) -> Fields {
        Fields::none()
    }

    open spec fn outcome(&self, before: &BuilderMap, after: &BuilderMap) -> bool {
        &&& after.map == before.map
        &&& one_per_room(
            before,
            rooms_with_floor(&before.map, before.rooms->0@, before.rooms->0@.len() as int),
            after.list_spawns@,
        )
        &&& forall|i: int|
            before.list_spawns@.len() <= i < after.list_spawns@.len() ==> room_spawn(
                before,
                #[trigger] after.list_spawns@[i],
            )
    }

    fn grid_ok(&self, width: i32, height: i32) -> (r: bool) {
        true
    }

    fn needed(&self) -> (r: Fields) {
        Fields { rooms: true, corridors: false, submaps: false }
    }

    fn provided(&self) -> (r: Fields) {
        Fields { rooms: false, corridors: false, submaps: false }
    }

    fn build_map(&mut self, rng: &mut rltk::RandomNumberGenerator, build_data: &mut BuilderMap) {
        self.build(rng, build_data);
    }
}

} // verus!
