use crate::map::{Grid, TileType};
use crate::map_builders::common::{
    carved_only,
    draw_corridor,
    halls_on_floor,
    lemma_carved_twice,
    lemma_halls_stay_on_floor,
    on_corridor,
};
use crate::map_builders::voronoi::gap;
use crate::map_builders::{BuilderMap, Fields, MetaMapBuilder};
use crate::rect::{half, Rect};
use vstd::prelude::*;

verus! {

/// The stage that joins each room to the nearest room that has no
/// corridor of its own yet.
pub struct NearestCorridors {}

/// The square of the straight-line distance between the middles of two
/// rooms.
pub open spec fn middle_distance(a: Rect, b: Rect) -> int {
    let dx = gap(half(a.x1 + a.x2), half(b.x1 + b.x2));
    let dy = gap(half(a.y1 + a.y2), half(b.y1 + b.y2));
    dx * dx + dy * dy
}

/// Whether the room at place `j` can be joined to the room at place `i`:
/// it is another room and has no corridor of its own yet.
pub open spec fn open_to(connected: Seq<bool>, i: int, j: int) -> bool {
    0 <= j < connected.len() && j != i && !connected[j]
}

/// Whether the room at place `j` is, among the first `n` rooms, the
/// nearest that can be joined to the room at place `i`, and of several
/// equally near the first.
pub open spec fn nearest_open(rooms: Seq<Rect>, connected: Seq<bool>, i: int, n: int, j: int) -> bool {
    &&& j < n
    &&& open_to(connected, i, j)
    &&& forall|k: int|
        0 <= k < n && #[trigger] open_to(connected, i, k) ==> middle_distance(rooms[i], rooms[j])
            <= middle_distance(rooms[i], rooms[k])
    &&& forall|k: int|
        0 <= k < j && #[trigger] open_to(connected, i, k) ==> middle_distance(rooms[i], rooms[j])
            < middle_distance(rooms[i], rooms[k])
}

/// Whether `(x, y)` lies on one of the first `n` corridors, each from the
/// middle of one room to the middle of another, as `joins` names the two
/// rooms by their places.
pub open spec fn joins_cover(rooms: Seq<Rect>, joins: Seq<(int, int)>, n: int, x: int, y: int) -> bool
    decreases n,
{
    n > 0 && (joins_cover(rooms, joins, n - 1, x, y) || on_corridor(
        half(rooms[joins[n - 1].0].x1 + rooms[joins[n - 1].0].x2),
        half(rooms[joins[n - 1].0].y1 + rooms[joins[n - 1].0].y2),
        half(rooms[joins[n - 1].1].x1 + rooms[joins[n - 1].1].x2),
        half(rooms[joins[n - 1].1].y1 + rooms[joins[n - 1].1].y2),
        x,
        y,
    ))
}

/// What the first `n` corridors cover does not depend on the corridors
/// after them.
pub proof fn lemma_joins_cover_prefix(
    rooms: Seq<Rect>,
    joins: Seq<(int, int)>,
    more: Seq<(int, int)>,
    n: int,
    x: int,
    y: int,
)
    requires
        0 <= n <= joins.len() <= more.len(),
        forall|i: int| 0 <= i < n ==> more[i] == joins[i],
    ensures
        joins_cover(rooms, more, n, x, y) == joins_cover(rooms, joins, n, x, y),
    decreases n,
{
    if n > 0 {
        lemma_joins_cover_prefix(rooms, joins, more, n - 1, x, y);
    }
}

/// Whether `after` is `before` with the corridors that `joins` names
/// turned into floor: each goes from a room to another room, and the rooms
/// that they set out from come in the order of the rooms.
pub open spec fn nearest_plan(before: &Grid, after: &Grid, rooms: Seq<Rect>, joins: Seq<(int, int)>) -> bool {
    &&& forall|k: int|
        0 <= k < joins.len() ==> {
            &&& 0 <= (#[trigger] joins[k]).0 < rooms.len()
            &&& 0 <= joins[k].1 < rooms.len()
            &&& joins[k].0 != joins[k].1
        }
    &&& forall|k: int, l: int|
        #![trigger joins[k], joins[l]]
        0 <= k < l < joins.len() ==> joins[k].0 < joins[l].0
    &&& forall|x: int, y: int|
        before.in_bounds(x, y) ==> #[trigger] after.tile_at(x, y) == if joins_cover(
            rooms,
            joins,
            joins.len() as int,
            x,
            y,
        ) {
            TileType::Floor
        } else {
            before.tile_at(x, y)
        }
}

impl NearestCorridors {
    /// The stage; it has nothing to set.
    pub fn new() -> (r: Box<NearestCorridors>)
        ensures
            *r == (NearestCorridors {  }),
    {
        Box::new(NearestCorridors {  })
    }

    /// Measures the distance between the middles of two rooms.
    pub fn measure(a: &Rect, b: &Rect) -> (d: i128)
        ensures
            d == middle_distance(*a, *b),
    {
        let ca = a.center();
        let cb = b.center();
        let dx: i128 = if ca.0 >= cb.0 {
            ca.0 as i128 - cb.0 as i128
        } else {
            cb.0 as i128 - ca.0 as i128
        };
        let dy: i128 = if ca.1 >= cb.1 {
            ca.1 as i128 - cb.1 as i128
        } else {
            cb.1 as i128 - ca.1 as i128
        };
        assert(0 <= dx * dx <= 0x1_0000_0000 * 0x1_0000_0000) by (nonlinear_arith)
            requires
                0 <= dx <= 0x1_0000_0000,
        ;
        assert(0 <= dy * dy <= 0x1_0000_0000 * 0x1_0000_0000) by (nonlinear_arith)
            requires
                0 <= dy <= 0x1_0000_0000,
        ;
        dx * dx + dy * dy
    }

    /// Finds the nearest room that can be joined to the room at place
    /// `i`, if there is any.
    pub fn nearest_room(rooms: &Vec<Rect>, connected: &Vec<bool>, i: usize) -> (found: Option<usize>)
        requires
            i < rooms@.len(),
            connected@.len() == rooms@.len(),
        ensures
            found is None <==> forall|k: int|
                0 <= k < rooms@.len() ==> !#[trigger] open_to(connected@, i as int, k),
            found matches Some(j) ==> nearest_open(
                rooms@,
                connected@,
                i as int,
                rooms@.len() as int,
                j as int,
            ),
    {
        let n = rooms.len();
        let mut best: Option<(usize, i128)> = None;
        let mut j: usize = 0;
        while j < n
            invariant
                j <= n,
                n == rooms@.len(),
                i < n,
                connected@.len() == n,
                best is None <==> forall|k: int| 0 <= k < j ==> !#[trigger] open_to(connected@, i as int, k),
                best matches Some(b) ==> nearest_open(rooms@, connected@, i as int, j as int, b.0 as int)
                    && b.1 == middle_distance(rooms@[i as int], rooms@[b.0 as int]),
            decreases n - j,
        {
            if j != i && !connected[j] {
                assert(open_to(connected@, i as int, j as int));
                let d = Self::measure(&rooms[i], &rooms[j]);
                let nearer = match best {
                    None => true,
                    Some(b) => d < b.1,
                };
                if nearer {
                    best = Some((j, d));
                }
            }
            j += 1;
        }
        match best {
            None => None,
            Some(b) => Some(b.0),
        }
    }

    /// Carves, for every room in turn, a corridor from its middle to the
    /// middle of the nearest room that has no corridor of its own yet, and
    /// records the cells that each corridor turned into floor.
    #[verifier::rlimit(50)]
    pub fn corridors(&mut self, build_data: &mut BuilderMap)
        requires
            old(build_data).wf(),
            old(build_data).rooms is Some,
        ensures
            final(build_data).wf(),
            final(build_data).extends(old(build_data)),
            final(build_data).list_spawns == old(build_data).list_spawns,
            final(build_data).starting_position == old(build_data).starting_position,
            final(build_data).rooms == old(build_data).rooms,
            final(build_data).submaps == old(build_data).submaps,
            carved_only(&old(build_data).map, &final(build_data).map),
            exists|joins: Seq<(int, int)>| #[trigger]
                nearest_plan(
                    &old(build_data).map,
                    &final(build_data).map,
                    old(build_data).rooms->0@,
                    joins,
                ),
            final(build_data).corridors matches Some(halls) && {
                &&& halls@.len() <= old(build_data).rooms->0@.len()
                &&& old(build_data).rooms->0@.len() >= 2 ==> halls@.len() >= 1
                &&& halls_on_floor(&final(build_data).map, halls@)
            },
    {
        let ghost before = *build_data;
        let mut corridors: Vec<Vec<usize>> = Vec::new();
        let n = match &build_data.rooms {
            Some(rooms) => rooms.len(),
            None => 0,
        };
        let mut connected: Vec<bool> = Vec::new();
        let mut c: usize = 0;
        while c < n
            invariant
                c <= n,
                connected@.len() == c,
                forall|k: int| 0 <= k < c ==> !#[trigger] connected@[k],
            decreases n - c,
        {
            connected.push(false);
            c += 1;
        }
        let mut i: usize = 0;
        let ghost mut joins: Seq<(int, int)> = Seq::empty();
        proof {
            lemma_carved_twice(&before.map, &before.map, &before.map);
        }
        while i < n
            invariant
                forall|k: int|
                    0 <= k < joins.len() ==> {
                        &&& 0 <= (#[trigger] joins[k]).0 < i
                        &&& 0 <= joins[k].1 < n
                        &&& joins[k].0 != joins[k].1
                    },
                forall|k: int, l: int|
                    #![trigger joins[k], joins[l]]
                    0 <= k < l < joins.len() ==> joins[k].0 < joins[l].0,
                forall|x: int, y: int|
                    before.map.in_bounds(x, y) ==> #[trigger] build_data.map.tile_at(x, y)
                        == if joins_cover(before.rooms->0@, joins, joins.len() as int, x, y) {
                        TileType::Floor
                    } else {
                        before.map.tile_at(x, y)
                    },
                i <= n,
                before.wf(),
                before.rooms is Some,
                n == before.rooms->0@.len(),
                connected@.len() == n,
                i == 0 ==> forall|k: int| 0 <= k < n ==> !#[trigger] connected@[k],
                build_data.wf(),
                build_data.same_records(&before),
                carved_only(&before.map, &build_data.map),
                corridors@.len() <= i,
                i >= 1 && n >= 2 ==> corridors@.len() >= 1,
                halls_on_floor(&build_data.map, corridors@),
            decreases n - i,
        {
            let ghost prev = *build_data;
            let mut made: Option<Vec<usize>> = None;
            match &build_data.rooms {
                Some(rooms) => {
                    match Self::nearest_room(rooms, &connected, i) {
                        Some(j) => {
                            let room_center = rooms[i].center();
                            let dest_center = rooms[j].center();
                            assert(rooms@[i as int].fits(before.width as int, before.height as int));
                            assert(rooms@[j as int].fits(before.width as int, before.height as int));
                            let corridor = draw_corridor(
                                &mut build_data.map,
                                room_center.0,
                                room_center.1,
                                dest_center.0,
                                dest_center.1,
                            );
                            made = Some(corridor);
                            proof {
                                let earlier = joins;
                                joins = joins.push((i as int, j as int));
                                assert forall|x: int, y: int|
                                    before.map.in_bounds(x, y) implies #[trigger] build_data.map.tile_at(
                                    x,
                                    y,
                                ) == if joins_cover(
                                    before.rooms->0@,
                                    joins,
                                    joins.len() as int,
                                    x,
                                    y,
                                ) {
                                    TileType::Floor
                                } else {
                                    before.map.tile_at(x, y)
                                } by {
                                    lemma_joins_cover_prefix(
                                        before.rooms->0@,
                                        earlier,
                                        joins,
                                        earlier.len() as int,
                                        x,
                                        y,
                                    );
                                    assert(prev.map.tile_at(x, y) == if joins_cover(
                                        before.rooms->0@,
                                        earlier,
                                        earlier.len() as int,
                                        x,
                                        y,
                                    ) {
                                        TileType::Floor
                                    } else {
                                        before.map.tile_at(x, y)
                                    });
                                }
                                assert forall|k: int, l: int|
                                    #![trigger joins[k], joins[l]]
                                    0 <= k < l < joins.len() implies joins[k].0 < joins[l].0 by {
                                    assert(joins[k] == earlier[k]);
                                    if l < earlier.len() {
                                        assert(joins[l] == earlier[l]);
                                    }
                                }
                            }
                        },
                        None => {
                            proof {
                                if i == 0 && n >= 2 {
                                    assert(open_to(connected@, 0, 1));
                                }
                            }
                        },
                    }
                },
                None => {},
            }
            match made {
                Some(corridor) => {
                    proof {
                        lemma_carved_twice(&before.map, &prev.map, &build_data.map);
                        lemma_halls_stay_on_floor(&prev.map, &build_data.map, corridors@);
                        assert forall|a: int, b: int|
                            0 <= a < corridors@.push(corridor).len() && 0 <= b < corridors@.push(
                                corridor,
                            )[a]@.len() implies (#[trigger] corridors@.push(corridor)[a]@[b])
                            < build_data.map.cells() && build_data.map.tiles@[corridors@.push(
                            corridor,
                        )[a]@[b] as int] == crate::map::TileType::Floor by {
                            if a < corridors@.len() {
                                assert(corridors@.push(corridor)[a] == corridors@[a]);
                                assert(corridors@[a]@[b] < build_data.map.cells());
                            }
                        }
                    }
                    connected[i] = true;
                    build_data.take_snapshot();
                    corridors.push(corridor);
                },
                None => {},
            }
            i += 1;
        }
        proof {
            assert(nearest_plan(&before.map, &build_data.map, before.rooms->0@, joins));
        }
        build_data.corridors = Some(corridors);
    }
}

impl MetaMapBuilder for NearestCorridors {
    open spec fn fits_grid(&self, width: int, height: int) -> bool {
        true
    }

    open spec fn needs(&self) -> Fields {
        Fields { rooms: true, corridors: false, submaps: false }
    }

    open spec fn provides(&self) -> Fields {
        Fields { rooms: false, corridors: true, submaps: false }
    }

    open spec fn outcome(&self, before: &BuilderMap, after: &BuilderMap) -> bool {
        &&& exists|joins: Seq<(int, int)>| #[trigger]
            nearest_plan(&before.map, &after.map, before.rooms->0@, joins)
        &&& after.corridors matches Some(halls) && halls_on_floor(&after.map, halls@)
    }

    fn grid_ok(&self, width: i32, height: i32) -> (r: bool) {
        true
    }

    fn needed(&self) -> (r: Fields) {
        Fields { rooms: true, corridors: false, submaps: false }
    }

    fn provided(&self) -> (r: Fields) {
        Fields { rooms: false, corridors: true, submaps: false }
    }

    fn build_map(&mut self, rng: &mut rltk::RandomNumberGenerator, build_data: &mut BuilderMap) {
        self.corridors(build_data);
    }
}

} // verus!
