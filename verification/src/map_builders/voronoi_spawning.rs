use crate::map::{Grid, TileType};
use crate::map_builders::{BuilderMap, Fields, MetaMapBuilder};
use crate::spawner::{can_roll, spawn_region};
use vstd::prelude::*;

verus! {

/// The stage that asks for something in every region of the floor. The
/// regions come from a field of cellular noise that is sampled outside the
/// stage: the stage holds the number of the region of every cell.
pub struct VoronoiSpawning {
    pub regions: Vec<i32>,
}

/// Whether the cell of index `idx` is a floor cell off the border that
/// lies in the region `id`.
pub open spec fn region_cell(map: &Grid, regions: Seq<i32>, id: int, idx: int) -> bool {
    exists|x: int, y: int|
        {
            &&& 1 <= x < map.width - 1
            &&& 1 <= y < map.height - 1
            &&& idx == #[trigger] map.index_of(x, y)
            &&& map.tile_at(x, y) == TileType::Floor
            &&& regions[idx] == id
        }
}

/// Whether a region has a group among the groups.
pub open spec fn grouped(groups: Seq<(i32, Vec<usize>)>, id: int) -> bool {
    exists|g: int| 0 <= g < groups.len() && (#[trigger] groups[g]).0 == id
}

/// Whether the groups are the regions of the floor cells off the border
/// that come before `(x, y)` in the order of the rows: one group for each
/// region that has such a cell, the groups in the order of the numbers of
/// their regions, and in each group cells of its region only.
pub open spec fn groups_so_far(
    map: &Grid,
    regions: Seq<i32>,
    groups: Seq<(i32, Vec<usize>)>,
    x: int,
    y: int,
) -> bool {
    &&& forall|g: int, h: int|
        #![trigger groups[g], groups[h]]
        0 <= g < h < groups.len() ==> groups[g].0 < groups[h].0
    &&& forall|g: int| 0 <= g < groups.len() ==> (#[trigger] groups[g]).1@.len() > 0
    &&& forall|g: int, k: int|
        0 <= g < groups.len() && 0 <= k < groups[g].1@.len() ==> region_cell(
            map,
            regions,
            groups[g].0 as int,
            (#[trigger] groups[g].1@[k]) as int,
        )
    &&& forall|a: int, b: int|
        1 <= a < map.width - 1 && 1 <= b < map.height - 1 && (b < y || (b == y && a < x))
            && map.tile_at(a, b) == TileType::Floor ==> grouped(
            groups,
            regions[#[trigger] map.index_of(a, b)] as int,
        )
}

/// Whether a spawn request is one that the stage makes: the name can come
/// out of the weighted table of the context, and the cell is a floor cell
/// off the border.
pub open spec fn region_spawn(before: &BuilderMap, regions: Seq<i32>, entry: (usize, String)) -> bool {
    &&& can_roll(&before.spawn_table, entry.1)
    &&& entry.0 < before.map.cells()
    &&& region_cell(&before.map, regions, regions[entry.0 as int] as int, entry.0 as int)
}

/// Whether `after` is `before` with one spawn request more for each region
/// that has a floor cell off the border: every new request is for such a
/// cell, the regions of the new requests go up from one request to the
/// next, and every region with such a cell has a request.
pub open spec fn spawned_by_region(before: &BuilderMap, after: &BuilderMap, regions: Seq<i32>) -> bool {
    &&& after.map == before.map
    &&& forall|i: int|
        before.list_spawns@.len() <= i < after.list_spawns@.len() ==> region_spawn(
            before,
            regions,
            #[trigger] after.list_spawns@[i],
        )
    &&& forall|i: int, j: int|
        #![trigger after.list_spawns@[i], after.list_spawns@[j]]
        before.list_spawns@.len() <= i < j < after.list_spawns@.len()
            ==> regions[after.list_spawns@[i].0 as int] < regions[after.list_spawns@[j].0 as int]
    &&& forall|a: int, b: int|
        1 <= a < before.width - 1 && 1 <= b < before.height - 1 && before.map.tile_at(a, b)
            == TileType::Floor ==> exists|i: int|
            before.list_spawns@.len() <= i < after.list_spawns@.len() && regions[(
            #[trigger] after.list_spawns@[i]).0 as int] == regions[#[trigger] before.map.index_of(
                a,
                b,
            )]
}

impl VoronoiSpawning {
    /// The stage without regions.
    pub fn new() -> (r: Box<VoronoiSpawning>)
        ensures
            r.regions@.len() == 0,
    {
        Box::new(VoronoiSpawning { regions: Vec::new() })
    }

    /// The stage for the regions given, cell by cell.
    pub fn with_regions(regions: Vec<i32>) -> (r: Box<VoronoiSpawning>)
        ensures
            r.regions == regions,
    {
        Box::new(VoronoiSpawning { regions })
    }

    /// The place of the group of a region among the groups, or the place
    /// where it would have to go.
    pub fn group_place(groups: &Vec<(i32, Vec<usize>)>, id: i32) -> (p: usize)
        ensures
            p <= groups@.len(),
            forall|g: int| 0 <= g < p ==> (#[trigger] groups@[g]).0 < id,
            p < groups@.len() ==> groups@[p as int].0 >= id,
    {
        let n = groups.len();
        let mut p: usize = 0;
        while p < n && groups[p].0 < id
            invariant
                p <= n,
                n == groups@.len(),
                forall|g: int| 0 <= g < p ==> (#[trigger] groups@[g]).0 < id,
            decreases n - p,
        {
            p += 1;
        }
        p
    }

    /// Sorts the floor cells off the border into their regions.
    #[verifier::rlimit(50)]
    pub fn group_by_region(&self, map: &Grid) -> (groups: Vec<(i32, Vec<usize>)>)
        requires
            map.wf(),
            self.regions@.len() == map.cells(),
        ensures
            groups_so_far(map, self.regions@, groups@, 0, map.height as int),
            forall|g: int| 0 <= g < groups@.len() ==> (#[trigger] groups@[g]).1@.len() < map.cells(),
    {
        let mut groups: Vec<(i32, Vec<usize>)> = Vec::new();
        let width = map.width;
        let height = map.height;
        let ghost mut total: int = 0;
        let mut y: i32 = 1;
        proof {
            map.lemma_has_cells();
        }
        while y < height - 1
            invariant
                map.wf(),
                self.regions@.len() == map.cells(),
                width == map.width,
                height == map.height,
                1 <= y,
                y <= height - 1 || height <= 2,
                height <= 2 ==> total == 0,
                0 <= total <= y * width,
                forall|g: int| 0 <= g < groups@.len() ==> (#[trigger] groups@[g]).1@.len() <= total,
                groups_so_far(map, self.regions@, groups@, 0, y as int),
            decreases height - y,
        {
            let mut x: i32 = 1;
            while x < width - 1
                invariant
                    map.wf(),
                    self.regions@.len() == map.cells(),
                    width == map.width,
                    height == map.height,
                    1 <= y < height - 1,
                    1 <= x,
                    x <= width - 1 || width <= 2,
                    width <= 2 ==> x == 1,
                    0 <= total <= y * width + x,
                    forall|g: int|
                        0 <= g < groups@.len() ==> (#[trigger] groups@[g]).1@.len() <= total,
                    groups_so_far(map, self.regions@, groups@, x as int, y as int),
                decreases width - x,
            {
                let idx = map.xy_idx(x, y);
                if map.tiles[idx] == TileType::Floor {
                    let id = self.regions[idx];
                    let p = Self::group_place(&groups, id);
                    let ghost prev = groups@;
                    assert(region_cell(map, self.regions@, id as int, idx as int)) by {
                        assert(idx == map.index_of(x as int, y as int));
                    }
                    if p < groups.len() && groups[p].0 == id {
                        groups[p].1.push(idx);
                        proof {
                            assert forall|g: int| 0 <= g < groups@.len() implies (
                            #[trigger] groups@[g]).0 == prev[g].0 by {}
                            assert forall|g: int, k: int|
                                0 <= g < groups@.len() && 0 <= k
                                    < groups@[g].1@.len() implies region_cell(
                                map,
                                self.regions@,
                                groups@[g].0 as int,
                                (#[trigger] groups@[g].1@[k]) as int,
                            ) by {
                                if g == p {
                                    if k < prev[g].1@.len() {
                                        assert(groups@[g].1@[k] == prev[g].1@[k]);
                                    }
                                } else {
                                    assert(groups@[g] == prev[g]);
                                }
                            }
                            assert forall|a: int, b: int|
                                1 <= a < map.width - 1 && 1 <= b < map.height - 1 && (b < y || (b
                                    == y && a < x + 1)) && map.tile_at(a, b)
                                    == TileType::Floor implies grouped(
                                groups@,
                                self.regions@[#[trigger] map.index_of(a, b)] as int,
                            ) by {
                                let wanted = self.regions@[map.index_of(a, b)] as int;
                                if b == y && a == x {
                                    assert(groups@[p as int].0 == wanted);
                                } else {
                                    assert(grouped(prev, wanted));
                                    let g = choose|g: int|
                                        0 <= g < prev.len() && (#[trigger] prev[g]).0 == wanted;
                                    assert(groups@[g].0 == wanted);
                                }
                            }
                            assert forall|g: int, h: int|
                                #![trigger groups@[g], groups@[h]]
                                0 <= g < h < groups@.len() implies groups@[g].0 < groups@[h].0 by {
                                assert(prev[g].0 < prev[h].0);
                            }
                        }
                    } else {
                        let mut cells: Vec<usize> = Vec::new();
                        cells.push(idx);
                        groups.insert(p, (id, cells));
                        proof {
                            assert forall|g: int, h: int|
                                #![trigger groups@[g], groups@[h]]
                                0 <= g < h < groups@.len() implies groups@[g].0 < groups@[h].0 by {
                                let g0 = if g < p {
                                    g
                                } else {
                                    g - 1
                                };
                                let h0 = if h < p {
                                    h
                                } else {
                                    h - 1
                                };
                                if g != p && h != p {
                                    assert(groups@[g] == prev[g0]);
                                    assert(groups@[h] == prev[h0]);
                                    assert(prev[g0].0 < prev[h0].0);
                                } else if g == p {
                                    assert(groups@[h] == prev[h0]);
                                    assert(prev[p as int].0 >= id);
                                    if h0 > p {
                                        assert(prev[p as int].0 < prev[h0].0);
                                    }
                                } else {
                                    assert(groups@[g] == prev[g0]);
                                }
                            }
                            assert forall|g: int| 0 <= g < groups@.len() implies (
                            #[trigger] groups@[g]).1@.len() > 0 && groups@[g].1@.len() <= total
                                + 1 by {
                                if g < p {
                                    assert(groups@[g] == prev[g]);
                                } else if g > p {
                                    assert(groups@[g] == prev[g - 1]);
                                }
                            }
                            assert forall|g: int, k: int|
                                0 <= g < groups@.len() && 0 <= k
                                    < groups@[g].1@.len() implies region_cell(
                                map,
                                self.regions@,
                                groups@[g].0 as int,
                                (#[trigger] groups@[g].1@[k]) as int,
                            ) by {
                                if g < p {
                                    assert(groups@[g] == prev[g]);
                                } else if g > p {
                                    assert(groups@[g] == prev[g - 1]);
                                }
                            }
                            assert forall|a: int, b: int|
                                1 <= a < map.width - 1 && 1 <= b < map.height - 1 && (b < y || (b
                                    == y && a < x + 1)) && map.tile_at(a, b)
                                    == TileType::Floor implies grouped(
                                groups@,
                                self.regions@[#[trigger] map.index_of(a, b)] as int,
                            ) by {
                                let wanted = self.regions@[map.index_of(a, b)] as int;
                                if b == y && a == x {
                                    assert(groups@[p as int].0 == wanted);
                                } else {
                                    assert(grouped(prev, wanted));
                                    let g = choose|g: int|
                                        0 <= g < prev.len() && (#[trigger] prev[g]).0 == wanted;
                                    let g2 = if g < p {
                                        g
                                    } else {
                                        g + 1
                                    };
                                    assert(groups@[g2] == prev[g]);
                                }
                            }
                        }
                    }
                    proof {
                        total = total + 1;
                    }
                }
                x += 1;
            }
            proof {
                assert((y + 1) * width == y * width + width) by (nonlinear_arith);
            }
            y += 1;
        }
        proof {
            if height > 2 {
                assert(y * width == height * width - width) by (nonlinear_arith)
                    requires
                        y == height - 1,
                ;
                assert(height * width == width * height) by (nonlinear_arith);
            }
        }
        groups
    }

    /// Asks for one thing, drawn from the weighted table of the context,
    /// in every region that has a floor cell off the border, on a cell of
    /// the region drawn at random; the regions are served in the order of
    /// their numbers.
    #[verifier::rlimit(50)]
    pub fn build(&mut self, rng: &mut rltk::RandomNumberGenerator, build_data: &mut BuilderMap)
        requires
            old(build_data).wf(),
            old(self).regions@.len() == old(build_data).map.cells(),
        ensures
            *final(self) == *old(self),
            final(build_data).wf(),
            final(build_data).extends(old(build_data)),
            final(build_data).map == old(build_data).map,
            final(build_data).history == old(build_data).history,
            final(build_data).starting_position == old(build_data).starting_position,
            final(build_data).rooms == old(build_data).rooms,
            final(build_data).corridors == old(build_data).corridors,
            final(build_data).submaps == old(build_data).submaps,
            spawned_by_region(old(build_data), final(build_data), old(self).regions@),
    {
        let ghost before = *build_data;
        let groups = self.group_by_region(&build_data.map);
        let n = groups.len();
        let ghost base = before.list_spawns@.len() as int;
        let mut g: usize = 0;
        while g < n
            invariant
                *self == *old(self),
                g <= n,
                n == groups@.len(),
                before.wf(),
                self.regions@.len() == before.map.cells(),
                base == before.list_spawns@.len(),
                groups_so_far(&before.map, self.regions@, groups@, 0, before.map.height as int),
                forall|k: int|
                    0 <= k < groups@.len() ==> (#[trigger] groups@[k]).1@.len() < before.map.cells(),
                build_data.wf(),
                build_data.extends(&before),
                build_data.map == before.map,
                build_data.history == before.history,
                build_data.starting_position == before.starting_position,
                build_data.rooms == before.rooms,
                build_data.corridors == before.corridors,
                build_data.submaps == before.submaps,
                build_data.spawn_table == before.spawn_table,
                build_data.list_spawns@.len() == base + g,
                forall|i: int|
                    base <= i < base + g ==> region_spawn(
                        &before,
                        self.regions@,
                        #[trigger] build_data.list_spawns@[i],
                    ),
                forall|i: int|
                    base <= i < base + g ==> self.regions@[(
                    #[trigger] build_data.list_spawns@[i]).0 as int] == groups@[i - base].0,
            decreases n - g,
        {
            let ghost prev = build_data.list_spawns@;
            spawn_region(rng, &groups[g].1, &build_data.spawn_table, &mut build_data.list_spawns);
            proof {
                let last = build_data.list_spawns@.last();
                assert(build_data.list_spawns@.drop_last() == prev);
                let cells = groups@[g as int].1@;
                let k = choose|k: int| 0 <= k < cells.len() && cells[k] == last.0;
                assert(region_cell(
                    &before.map,
                    self.regions@,
                    groups@[g as int].0 as int,
                    groups@[g as int].1@[k] as int,
                ));
                let (cx, cy) = choose|x: int, y: int|
                    {
                        &&& 1 <= x < before.map.width - 1
                        &&& 1 <= y < before.map.height - 1
                        &&& last.0 as int == #[trigger] before.map.index_of(x, y)
                        &&& before.map.tile_at(x, y) == TileType::Floor
                        &&& self.regions@[last.0 as int] == groups@[g as int].0 as int
                    };
                before.map.lemma_index_in_range(cx, cy);
                assert forall|i: int| base <= i < base + g + 1 implies region_spawn(
                    &before,
                    self.regions@,
                    #[trigger] build_data.list_spawns@[i],
                ) && self.regions@[build_data.list_spawns@[i].0 as int] == groups@[i - base].0 by {
                    if i < prev.len() {
                        assert(build_data.list_spawns@[i] == prev[i]);
                    }
                }
                assert forall|i: int| 0 <= i < build_data.list_spawns@.len() implies (
                #[trigger] build_data.list_spawns@[i]).0 < before.map.cells() by {
                    if i < prev.len() {
                        assert(build_data.list_spawns@[i] == prev[i]);
                    }
                }
                assert(prev.is_prefix_of(build_data.list_spawns@));
            }
            g += 1;
        }
        proof {
            assert forall|i: int, j: int|
                #![trigger build_data.list_spawns@[i], build_data.list_spawns@[j]]
                base <= i < j < build_data.list_spawns@.len() implies self.regions@[build_data.list_spawns@[i].0 as int]
                < self.regions@[build_data.list_spawns@[j].0 as int] by {
                assert(groups@[i - base].0 < groups@[j - base].0);
            }
            assert forall|a: int, b: int|
                1 <= a < before.width - 1 && 1 <= b < before.height - 1 && before.map.tile_at(a, b)
                    == TileType::Floor implies exists|i: int|
                base <= i < build_data.list_spawns@.len() && self.regions@[(
                #[trigger] build_data.list_spawns@[i]).0 as int] == self.regions@[#[trigger] before.map.index_of(
                    a,
                    b,
                )] by {
                let wanted = self.regions@[before.map.index_of(a, b)] as int;
                assert(grouped(groups@, wanted));
                let gi = choose|gi: int| 0 <= gi < groups@.len() && (#[trigger] groups@[gi]).0 == wanted;
                assert(self.regions@[build_data.list_spawns@[base + gi].0 as int] == groups@[gi].0);
            }
        }
    }
}

impl MetaMapBuilder for VoronoiSpawning {
    open spec fn fits_grid(&self, width: int, height: int) -> bool {
        self.regions@.len() == width * height
    }

    open spec fn needs(&self) -> Fields {
        Fields::none()
    }

    open spec fn provides(&self) -> Fields {
        Fields::none()
    }

    open spec fn outcome(&self, before: &BuilderMap, after: &BuilderMap) -> bool {
        spawned_by_region(before, after, self.regions@)
    }

    fn grid_ok(&self, width: i32, height: i32) -> (r: bool) {
        let w = width as i64;
        let h = height as i64;
        assert(-0x8000_0000 * 0x8000_0000 <= w * h <= 0x8000_0000 * 0x8000_0000)
            by (nonlinear_arith)
            requires
                -0x8000_0000 <= w <= 0x8000_0000,
                -0x8000_0000 <= h <= 0x8000_0000,
        ;
        let cells = w * h;
        cells >= 0 && self.regions.len() as u64 == cells as u64
    }

    fn needed(&self) -> (r: Fields) {
        Fields { rooms: false, corridors: false, submaps: false }
    }

    fn provided(&self) -> (r: Fields) {
        Fields { rooms: false, corridors: false, submaps: false }
    }

    fn build_map(&mut self, rng: &mut rltk::RandomNumberGenerator, build_data: &mut BuilderMap) {
        self.build(rng, build_data);
    }
}

} // verus!
