use crate::map::{Grid, TileType};
use crate::map_builders::{BuilderMap, Fields, MetaMapBuilder, SpawnModel};
use vstd::prelude::*;

verus! {

/// The stage that asks for a door wherever a floor cell sits in a gap of a
/// wall.
pub struct DoorPlacement {}

/// Whether a tile is outdoor or indoor floor.
pub open spec fn floor_like(tt: TileType) -> bool {
    tt == TileType::Floor || tt == TileType::FloorIndoor
}

/// Whether the cell at `idx` can hold a door: it is floor, lies at least
/// two cells off every edge, and has wall on both sides along one axis and
/// floor on both sides along the other.
pub open spec fn door_candidate(map: &Grid, idx: int) -> bool {
    let w = map.width as int;
    let x = idx % w;
    let y = idx / w;
    let inner = 1 < x < map.width - 2 && 1 < y < map.height - 2;
    &&& 0 <= idx < map.cells()
    &&& map.tiles@[idx] == TileType::Floor
    &&& inner
    &&& {
        ||| (floor_like(map.tiles@[idx - 1]) && floor_like(map.tiles@[idx + 1]) && map.tiles@[idx
            - w] == TileType::Wall && map.tiles@[idx + w] == TileType::Wall)
        ||| (map.tiles@[idx - 1] == TileType::Wall && map.tiles@[idx + 1] == TileType::Wall
            && floor_like(map.tiles@[idx - w]) && floor_like(map.tiles@[idx + w]))
    }
}

/// The door requests for the first `n` corridors: one for the first cell of
/// each corridor of more than two cells whose first cell can hold a door.
pub open spec fn hall_doors(map: &Grid, halls: Seq<Vec<usize>>, n: int) -> Seq<SpawnModel>
    decreases n,
{
    if n <= 0 {
        Seq::empty()
    } else {
        let rest = hall_doors(map, halls, n - 1);
        let hall = halls[n - 1]@;
        if hall.len() > 2 && door_candidate(map, hall[0] as int) {
            rest.push((hall[0], "Door"@))
        } else {
            rest
        }
    }
}

/// The door requests for the first `n` cells of the grid, in the order of
/// the cells.
pub open spec fn scan_doors(map: &Grid, n: int) -> Seq<SpawnModel>
    decreases n,
{
    if n <= 0 {
        Seq::empty()
    } else {
        let rest = scan_doors(map, n - 1);
        if door_candidate(map, n - 1) {
            rest.push(((n - 1) as usize, "Door"@))
        } else {
            rest
        }
    }
}

/// All door requests of a context: by its corridors where it has any
/// recorded, else by a scan of the whole grid.
pub open spec fn door_requests(build_data: &BuilderMap) -> Seq<SpawnModel> {
    match build_data.corridors {
        Some(halls) => hall_doors(&build_data.map, halls@, halls@.len() as int),
        None => scan_doors(&build_data.map, build_data.map.cells()),
    }
}

/// A cell that can hold a door is floor, and either the cells north and
/// south of it are wall and those east and west are floor, or the other way
/// round.
pub proof fn lemma_door_candidate_shape(map: &Grid, idx: int)
    requires
        map.wf(),
        door_candidate(map, idx),
    ensures
        ({
            let x = idx % (map.width as int);
            let y = idx / (map.width as int);
            &&& map.in_bounds(x - 1, y) && map.in_bounds(x + 1, y)
            &&& map.in_bounds(x, y - 1) && map.in_bounds(x, y + 1)
            &&& map.tile_at(x, y) == TileType::Floor
            &&& {
                ||| (map.tile_at(x, y - 1) == TileType::Wall && map.tile_at(x, y + 1)
                    == TileType::Wall && floor_like(map.tile_at(x - 1, y)) && floor_like(
                    map.tile_at(x + 1, y),
                ))
                ||| (map.tile_at(x - 1, y) == TileType::Wall && map.tile_at(x + 1, y)
                    == TileType::Wall && floor_like(map.tile_at(x, y - 1)) && floor_like(
                    map.tile_at(x, y + 1),
                ))
            }
        }),
{
    let w = map.width as int;
    let x = idx % w;
    let y = idx / w;
    map.lemma_coordinates_in_bounds(idx);
    assert((y - 1) * w + x == idx - w) by (nonlinear_arith)
        requires
            y * w + x == idx,
    ;
    assert((y + 1) * w + x == idx + w) by (nonlinear_arith)
        requires
            y * w + x == idx,
    ;
}

/// The stage draws nothing: whatever it makes of a context, its grid and
/// its spawn requests are the same every time.
pub proof fn lemma_doors_determined(
    stage: DoorPlacement,
    before: BuilderMap,
    one: BuilderMap,
    other: BuilderMap,
)
    requires
        stage.outcome(&before, &one),
        stage.outcome(&before, &other),
    ensures
        one.map == other.map,
        one.spawns() == other.spawns(),
{
}

impl DoorPlacement {
    /// The stage; it has nothing to set.
    pub fn new() -> (r: Box<DoorPlacement>)
        ensures
            *r == (DoorPlacement {  }),
    {
        Box::new(DoorPlacement {  })
    }

    /// Tells whether a tile is outdoor or indoor floor.
    pub fn is_floor(&self, tt: TileType) -> (r: bool)
        ensures
            r == floor_like(tt),
    {
        match tt {
            TileType::Floor | TileType::FloorIndoor => true,
            _ => false,
        }
    }

    /// Decides whether the cell at `idx` can hold a door.
    #[verifier::rlimit(50)]
    pub fn door_possible(&self, build_data: &BuilderMap, idx: usize) -> (r: bool)
        requires
            build_data.wf(),
            idx < build_data.map.cells(),
        ensures
            r == door_candidate(&build_data.map, idx as int),
    {
        let map = &build_data.map;
        let w = map.width as usize;
        let x = (idx % w) as i32;
        let y = (idx / w) as i32;
        proof {
            map.lemma_coordinates_in_bounds(idx as int);
        }
        if map.tiles[idx] != TileType::Floor {
            return false;
        }
        if !(x > 1 && x < map.width - 2 && y > 1 && y < map.height - 2) {
            return false;
        }
        proof {
            let wi = map.width as int;
            assert((y - 1) * wi + x == idx - wi) by (nonlinear_arith)
                requires
                    y * wi + x == idx,
            ;
            assert((y + 1) * wi + x == idx + wi) by (nonlinear_arith)
                requires
                    y * wi + x == idx,
            ;
            map.lemma_index_in_range(x as int, y - 1);
            map.lemma_index_in_range(x as int, y + 1);
        }
        let west = map.tiles[idx - 1];
        let east = map.tiles[idx + 1];
        let north = map.tiles[idx - w];
        let south = map.tiles[idx + w];
        if self.is_floor(west) && self.is_floor(east) && north == TileType::Wall && south
            == TileType::Wall {
            return true;
        }
        if west == TileType::Wall && east == TileType::Wall && self.is_floor(north)
            && self.is_floor(south) {
            return true;
        }
        false
    }

    /// Appends a request for a door at every place that `door_requests`
    /// names, and changes nothing else.
    #[verifier::rlimit(50)]
    pub fn doors(&mut self, build_data: &mut BuilderMap)
        requires
            old(build_data).wf(),
        ensures
            final(build_data).wf(),
            final(build_data).extends(old(build_data)),
            final(build_data).map == old(build_data).map,
            final(build_data).history == old(build_data).history,
            final(build_data).starting_position == old(build_data).starting_position,
            final(build_data).rooms == old(build_data).rooms,
            final(build_data).corridors == old(build_data).corridors,
            final(build_data).submaps == old(build_data).submaps,
            final(build_data).spawns() == old(build_data).spawns() + door_requests(
                old(build_data),
            ),
    {
        let ghost start = *build_data;
        if build_data.corridors.is_some() {
            let n = build_data.corridors.as_ref().unwrap().len();
            let mut i: usize = 0;
            assert(start.spawns() + hall_doors(&start.map, start.corridors->0@, 0)
                =~= start.spawns());
            while i < n
                invariant
                    i <= n,
                    start.wf(),
                    start.corridors is Some,
                    n == start.corridors->0@.len(),
                    build_data.wf(),
                    build_data.extends(&start),
                    build_data.map == start.map,
                    build_data.history == start.history,
                    build_data.starting_position == start.starting_position,
                    build_data.rooms == start.rooms,
                    build_data.corridors == start.corridors,
                    build_data.submaps == start.submaps,
                    build_data.spawns() == start.spawns() + hall_doors(
                        &start.map,
                        start.corridors->0@,
                        i as int,
                    ),
                decreases n - i,
            {
                let ghost before = *build_data;
                let hall_len = build_data.corridors.as_ref().unwrap()[i].len();
                if hall_len > 2 {
                    let first = build_data.corridors.as_ref().unwrap()[i][0];
                    if self.door_possible(build_data, first) {
                        build_data.request_spawn(first, "Door");
                        assert(build_data.spawns() =~= start.spawns() + hall_doors(
                            &start.map,
                            start.corridors->0@,
                            i + 1,
                        ));
                    }
                }
                i += 1;
            }
        } else {
            let n = build_data.map.tiles.len();
            let mut i: usize = 0;
            assert(start.spawns() + scan_doors(&start.map, 0) =~= start.spawns());
            while i < n
                invariant
                    i <= n,
                    start.wf(),
                    start.corridors is None,
                    n == start.map.cells(),
                    build_data.wf(),
                    build_data.extends(&start),
                    build_data.map == start.map,
                    build_data.history == start.history,
                    build_data.starting_position == start.starting_position,
                    build_data.rooms == start.rooms,
                    build_data.corridors == start.corridors,
                    build_data.submaps == start.submaps,
                    build_data.spawns() == start.spawns() + scan_doors(&start.map, i as int),
                decreases n - i,
            {
                if build_data.map.tiles[i] == TileType::Floor && self.door_possible(build_data, i) {
                    build_data.request_spawn(i, "Door");
                    assert(build_data.spawns() =~= start.spawns() + scan_doors(
                        &start.map,
                        i + 1,
                    ));
                }
                i += 1;
            }
        }
    }
}

impl MetaMapBuilder for DoorPlacement {
    open spec fn fits_grid(&self, width: int, height: int) -> bool {
        true
    }

    open spec fn needs(&self) -> Fields {
        Fields::none()
    }

    open spec fn provides(&self) -> Fields {
        Fields::none()
    }

    open spec fn outcome(&self, before: &BuilderMap, after: &BuilderMap) -> bool {
        &&& after.map == before.map
        &&& after.spawns() == before.spawns() + door_requests(before)
    }

    fn grid_ok(&self, width: i32, height: i32) -> (r: bool) {
        true
    }

    fn needed(&self) -> (r: Fields) {
        Fields { rooms: false, corridors: false, submaps: false }
    }

    fn provided(&self) -> (r: Fields) {
        Fields { rooms: false, corridors: false, submaps: false }
    }

    fn build_map(&mut self, rng: &mut rltk::RandomNumberGenerator, build_data: &mut BuilderMap) {
        self.doors(build_data);
    }
}

} // verus!
