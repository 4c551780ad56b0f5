use crate::map::Grid;
use crate::random_table::RandomTable;
use crate::rect::Rect;
use vstd::prelude::*;

pub mod area_starting_points;
pub mod bsp_dungeon;
pub mod bsp_interior;
pub mod bsp_town;
pub mod cellular_automata;
pub mod common;
pub mod dla;
pub mod door_placement;
pub mod drunkard_walk;
pub mod maze;
pub mod perlin_noise;
pub mod prefab_builders;
pub mod rectangle_builder;
pub mod room_based_spawner;
pub mod room_based_starting;
pub mod room_corner_rounding;
pub mod room_corridor_spawner;
pub mod room_draw;
pub mod room_eroder;
pub mod room_sorter;
pub mod rooms_corridors_bsp;
pub mod rooms_corridors_dogleg;
pub mod rooms_corridors_nearest;
pub mod rooms_corridors_nearest_line;
pub mod simple_map;
pub mod voronoi;
pub mod voronoi_spawning;

verus! {

/// A cell given by its column and row.
#[derive(PartialEq, Eq, Structural, Copy, Clone, Debug)]
pub struct Position {
    pub x: i32,
    pub y: i32,
}

/// A request to place the thing named by a tag on a cell, as contracts see
/// it: the cell's index and the characters of the tag.
pub type SpawnModel = (usize, Seq<char>);

/// The requests of a spawn list, in order.
pub open spec fn spawn_model(list: Seq<(usize, String)>) -> Seq<SpawnModel> {
    Seq::new(list.len(), |i: int| (list[i].0, list[i].1@))
}

/// Appending one request to a list appends its model to the list's model.
pub proof fn lemma_spawn_model_push(list: Seq<(usize, String)>, entry: (usize, String))
    ensures
        spawn_model(list.push(entry)) == spawn_model(list).push((entry.0, entry.1@)),
{
    assert(spawn_model(list.push(entry)) =~= spawn_model(list).push((entry.0, entry.1@)));
}

/// Which of the optional lists of a build context are meant.
pub struct Fields {
    pub rooms: bool,
    pub corridors: bool,
    pub submaps: bool,
}

impl Fields {
    /// No list at all.
    pub open spec fn none() -> Fields {
        Fields { rooms: false, corridors: false, submaps: false }
    }

    /// Every list of `self` is also one of `other`.
    pub open spec fn within(self, other: Fields) -> bool {
        &&& self.rooms ==> other.rooms
        &&& self.corridors ==> other.corridors
        &&& self.submaps ==> other.submaps
    }

    /// The lists of either.
    pub open spec fn or(self, other: Fields) -> Fields {
        Fields {
            rooms: self.rooms || other.rooms,
            corridors: self.corridors || other.corridors,
            submaps: self.submaps || other.submaps,
        }
    }

    /// Tells whether every list of `other` is one of `self`.
    pub fn contains(&self, other: &Fields) -> (r: bool)
        ensures
            r == other.within(*self),
    {
        (!other.rooms || self.rooms) && (!other.corridors || self.corridors) && (!other.submaps
            || self.submaps)
    }

    /// The lists of `self` and of `other` together.
    pub fn union(&self, other: &Fields) -> (r: Fields)
        ensures
            r == self.or(*other),
    {
        Fields {
            rooms: self.rooms || other.rooms,
            corridors: self.corridors || other.corridors,
            submaps: self.submaps || other.submaps,
        }
    }
}

/// The state that every stage of a build reads and changes.
pub struct BuilderMap {
    pub list_spawns: Vec<(usize, String)>,
    pub map: Grid,
    pub starting_position: Option<Position>,
    pub rooms: Option<Vec<Rect>>,
    pub corridors: Option<Vec<Vec<usize>>>,
    pub submaps: Option<Vec<Rect>>,
    pub history: Vec<Grid>,
    pub width: i32,
    pub height: i32,
    pub spawn_table: RandomTable,
}

impl BuilderMap {
    /// The spawn requests made so far, in order.
    pub open spec fn spawns(&self) -> Seq<SpawnModel> {
        spawn_model(self.list_spawns@)
    }

    /// The grid is well formed and has the recorded size, and whatever the
    /// context records (rooms, sub-regions, corridor cells, the starting
    /// position, spawn requests, snapshots) lies on that grid.
    pub open spec fn wf(&self) -> bool {
        &&& self.map.wf()
        &&& self.width == self.map.width
        &&& self.height == self.map.height
        &&& self.spawn_table.wf()
        &&& self.rooms matches Some(rooms) ==> forall|i: int|
            0 <= i < rooms@.len() ==> (#[trigger] rooms@[i]).fits(
                self.width as int,
                self.height as int,
            )
        &&& self.submaps matches Some(submaps) ==> forall|i: int|
            0 <= i < submaps@.len() ==> (#[trigger] submaps@[i]).fits(
                self.width as int,
                self.height as int,
            )
        &&& self.corridors matches Some(halls) ==> forall|i: int, j: int|
            0 <= i < halls@.len() && 0 <= j < halls@[i]@.len() ==> (#[trigger] halls@[i]@[j])
                < self.map.cells()
        &&& self.starting_position matches Some(p) ==> self.map.in_bounds(p.x as int, p.y as int)
        &&& forall|i: int|
            0 <= i < self.list_spawns@.len() ==> (#[trigger] self.list_spawns@[i]).0
                < self.map.cells()
        &&& forall|i: int|
            0 <= i < self.history@.len() ==> {
                &&& (#[trigger] self.history@[i]).wf()
                &&& self.history@[i].width == self.width
                &&& self.history@[i].height == self.height
            }
    }

    /// Which of the optional lists are present.
    pub open spec fn present(&self) -> Fields {
        Fields {
            rooms: self.rooms is Some,
            corridors: self.corridors is Some,
            submaps: self.submaps is Some,
        }
    }

    /// What no stage may undo: `self` has the size, the weighted table and
    /// the per-cell flags of `before`, its spawn list and its history start
    /// with those of `before`, and a list that `before` had is still there.
    pub open spec fn extends(&self, before: &BuilderMap) -> bool {
        &&& self.width == before.width
        &&& self.height == before.height
        &&& self.map.width == before.map.width
        &&& self.map.height == before.map.height
        &&& self.map.revealed_tiles == before.map.revealed_tiles
        &&& self.map.visible_tiles == before.map.visible_tiles
        &&& self.map.blocked == before.map.blocked
        &&& self.map.view_blocked == before.map.view_blocked
        &&& self.map.tile_content == before.map.tile_content
        &&& self.spawn_table == before.spawn_table
        &&& before.list_spawns@.is_prefix_of(self.list_spawns@)
        &&& before.history@.is_prefix_of(self.history@)
        &&& before.present().within(self.present())
    }

    /// `self` differs from `before` in the kinds of its tiles and in what
    /// was added to its history at most.
    pub open spec fn same_records(&self, before: &BuilderMap) -> bool {
        &&& self.list_spawns == before.list_spawns
        &&& self.starting_position == before.starting_position
        &&& self.rooms == before.rooms
        &&& self.corridors == before.corridors
        &&& self.submaps == before.submaps
        &&& self.width == before.width
        &&& self.height == before.height
        &&& self.spawn_table == before.spawn_table
        &&& self.map.same_shape(&before.map)
        &&& before.history@.is_prefix_of(self.history@)
    }

    /// `self` differs from `before` in the kinds of its tiles and in what
    /// was added to its spawn list at most.
    pub open spec fn same_records_but_spawns(&self, before: &BuilderMap) -> bool {
        &&& before.list_spawns@.is_prefix_of(self.list_spawns@)
        &&& self.starting_position == before.starting_position
        &&& self.rooms == before.rooms
        &&& self.corridors == before.corridors
        &&& self.submaps == before.submaps
        &&& self.width == before.width
        &&& self.height == before.height
        &&& self.spawn_table == before.spawn_table
        &&& self.map.same_shape(&before.map)
    }

    /// Whether the starting position, where one is set, is a cell that can
    /// be walked on.
    pub open spec fn start_walkable(&self) -> bool {
        self.starting_position matches Some(p) ==> crate::map::walkable(
            self.map.tile_at(p.x as int, p.y as int),
        )
    }

    /// A starting position on a cell that can be walked on stays on such a
    /// cell as long as stages leave the position alone and change tiles
    /// into floor only.
    pub proof fn lemma_carving_keeps_start(before: &BuilderMap, after: &BuilderMap)
        requires
            before.wf(),
            before.start_walkable(),
            after.starting_position == before.starting_position,
            crate::map_builders::common::carved_only(&before.map, &after.map),
        ensures
            after.start_walkable(),
    {
        if before.starting_position is Some {
            let p = before.starting_position->0;
            assert(after.map.tile_at(p.x as int, p.y as int) == before.map.tile_at(
                p.x as int,
                p.y as int,
            ) || after.map.tile_at(p.x as int, p.y as int) == crate::map::TileType::Floor);
        }
    }

    /// A starting position on a cell that can be walked on stays on such a
    /// cell as long as stages leave the position and the tiles alone.
    pub proof fn lemma_same_tiles_keep_start(before: &BuilderMap, after: &BuilderMap)
        requires
            before.start_walkable(),
            after.starting_position == before.starting_position,
            after.map.tiles@ == before.map.tiles@,
            after.map.width == before.map.width,
        ensures
            after.start_walkable(),
    {
    }

    /// `extends` holds of a context and itself, and carries over from step
    /// to step.
    pub proof fn lemma_extends_chain(a: &BuilderMap, b: &BuilderMap, c: &BuilderMap)
        requires
            b.extends(a),
            c.extends(b),
        ensures
            c.extends(a),
            a.extends(a),
    {
    }

    /// The context for a grid of the given size: all walls, nothing
    /// recorded, an empty weighted table.
    pub fn new(width: i32, height: i32) -> (bd: BuilderMap)
        requires
            0 < width,
            0 < height,
            width * height <= i32::MAX,
        ensures
            bd.wf(),
            bd.width == width,
            bd.height == height,
            bd.list_spawns@.len() == 0,
            bd.history@.len() == 0,
            bd.starting_position is None,
            bd.present() == Fields::none(),
            bd.spawn_table.entries@.len() == 0,
            forall|i: int| 0 <= i < bd.map.cells() ==> bd.map.tiles@[i] == crate::map::TileType::Wall,
            forall|i: int| 0 <= i < bd.map.cells() ==> !bd.map.revealed_tiles@[i],
            forall|i: int| 0 <= i < bd.map.cells() ==> !bd.map.visible_tiles@[i],
            forall|i: int| 0 <= i < bd.map.cells() ==> !bd.map.blocked@[i],
    {
        BuilderMap {
            list_spawns: Vec::new(),
            map: Grid::new(width, height),
            starting_position: None,
            rooms: None,
            corridors: None,
            submaps: None,
            history: Vec::new(),
            width,
            height,
            spawn_table: RandomTable::new(),
        }
    }

    /// Records a copy of the grid, all of it revealed, at the end of the
    /// history.
    pub fn take_snapshot(&mut self)
        requires
            old(self).wf(),
        ensures
            final(self).wf(),
            final(self).extends(old(self)),
            final(self).map == old(self).map,
            final(self).list_spawns == old(self).list_spawns,
            final(self).starting_position == old(self).starting_position,
            final(self).rooms == old(self).rooms,
            final(self).corridors == old(self).corridors,
            final(self).submaps == old(self).submaps,
            final(self).history@.len() == old(self).history@.len() + 1,
            final(self).history@.last().tiles@ == old(self).map.tiles@,
            forall|i: int|
                0 <= i < old(self).map.cells() ==> final(self).history@.last().revealed_tiles@[i],
    {
        let snapshot = self.map.snapshot();
        self.history.push(snapshot);
    }

    /// Appends a spawn request for the cell `idx`.
    pub fn request_spawn(&mut self, idx: usize, tag: &str)
        requires
            old(self).wf(),
            idx < old(self).map.cells(),
        ensures
            final(self).wf(),
            final(self).extends(old(self)),
            final(self).map == old(self).map,
            final(self).history == old(self).history,
            final(self).starting_position == old(self).starting_position,
            final(self).rooms == old(self).rooms,
            final(self).corridors == old(self).corridors,
            final(self).submaps == old(self).submaps,
            final(self).spawns() == old(self).spawns().push((idx, tag@)),
    {
        let name = tag.to_string();
        proof {
            broadcast use vstd::string::to_string_from_display_ensures_for_str;

            lemma_spawn_model_push(self.list_spawns@, (idx, name));
        }
        self.list_spawns.push((idx, name));
    }
}

/// A stage that makes a level on an empty grid.
pub trait InitialMapBuilder {
    /// Whether the stage can work on a grid of this size.
    spec fn fits_grid(&self, width: int, height: int) -> bool;

    /// The lists that the stage leaves in the context.
    spec fn provides(&self) -> Fields;

    /// What the stage makes of a context: whether `after` is a context
    /// that it can leave when it finds `before`.
    spec fn outcome(&self, before: &BuilderMap, after: &BuilderMap) -> bool;

    fn grid_ok(&self, width: i32, height: i32) -> (r: bool)
        ensures
            r == self.fits_grid(width as int, height as int),
    ;

    fn provided(&self) -> (r: Fields)
        ensures
            r == self.provides(),
    ;

    fn build_map(&mut self, rng: &mut rltk::RandomNumberGenerator, build_data: &mut BuilderMap)
        requires
            old(build_data).wf(),
            old(self).fits_grid(old(build_data).width as int, old(build_data).height as int),
        ensures
            final(build_data).wf(),
            final(build_data).extends(old(build_data)),
            old(self).provides().within(final(build_data).present()),
            old(self).outcome(old(build_data), final(build_data)),
    ;
}

/// A stage that works on what earlier stages left.
pub trait MetaMapBuilder {
    /// Whether the stage can work on a grid of this size.
    spec fn fits_grid(&self, width: int, height: int) -> bool;

    /// The lists that the stage has to find in the context.
    spec fn needs(&self) -> Fields;

    /// The lists that the stage leaves in the context.
    spec fn provides(&self) -> Fields;

    /// What the stage makes of a context: whether `after` is a context
    /// that it can leave when it finds `before`.
    spec fn outcome(&self, before: &BuilderMap, after: &BuilderMap) -> bool;

    fn grid_ok(&self, width: i32, height: i32) -> (r: bool)
        ensures
            r == self.fits_grid(width as int, height as int),
    ;

    fn needed(&self) -> (r: Fields)
        ensures
            r == self.needs(),
    ;

    fn provided(&self) -> (r: Fields)
        ensures
            r == self.provides(),
    ;

    fn build_map(&mut self, rng: &mut rltk::RandomNumberGenerator, build_data: &mut BuilderMap)
        requires
            old(build_data).wf(),
            old(self).fits_grid(old(build_data).width as int, old(build_data).height as int),
            old(self).needs().within(old(build_data).present()),
        ensures
            final(build_data).wf(),
            final(build_data).extends(old(build_data)),
            old(self).provides().within(final(build_data).present()),
            old(self).outcome(old(build_data), final(build_data)),
    ;
}

/// A later stage as the chain holds it.
pub struct MetaStage {
    pub stage: Box<dyn MetaMapBuilder>,
}

/// An initial stage as it is handed to a chain by a caller that wants to
/// know afterwards which stage the chain holds.
pub struct InitialStage {
    pub stage: Box<dyn InitialMapBuilder>,
}

/// The lists that are in the context once the initial stage and the first
/// `n` later stages have run.
pub open spec fn available_after(
    initial: Fields,
    stages: Seq<MetaStage>,
    n: int,
) -> Fields
    decreases n,
{
    if n <= 0 {
        initial
    } else {
        available_after(initial, stages, n - 1).or(stages[n - 1].stage.provides())
    }
}

/// Whether every one of the stages fits the grid and finds, when its turn
/// comes, the lists that it needs.
pub open spec fn stages_composed(
    initial: Fields,
    stages: Seq<MetaStage>,
    width: int,
    height: int,
) -> bool {
    forall|i: int|
        0 <= i < stages.len() ==> {
            &&& (#[trigger] stages[i]).stage.fits_grid(width, height)
            &&& stages[i].stage.needs().within(available_after(initial, stages, i))
        }
}

/// Whether the stages, run one after the other in their order, each on
/// what the one before it left, can make the contexts given: the first of
/// the contexts is what the first stage finds, and each of the others is
/// what a stage leaves.
pub open spec fn run_through(stages: Seq<MetaStage>, contexts: Seq<BuilderMap>) -> bool {
    &&& contexts.len() == stages.len() + 1
    &&& forall|i: int|
        0 <= i < stages.len() ==> (#[trigger] stages[i]).stage.outcome(
            &contexts[i],
            &contexts[i + 1],
        )
}

fn push_stage(stages: &mut Vec<MetaStage>, stage: MetaStage)
    ensures
        final(stages)@ == old(stages)@.push(stage),
        final(stages)@.len() == old(stages)@.len() + 1,
        forall|i: int|
            0 <= i < old(stages)@.len() ==> #[trigger] final(stages)@[i] == old(stages)@[i],
        final(stages)@[old(stages)@.len() as int] == stage,
{
    stages.push(stage);
}

/// A spawn request with the cell written as column and row.
pub struct SpawnRequest {
    pub x: i32,
    pub y: i32,
    pub tag: String,
}

/// An initial stage, an ordered list of later stages, and the context that
/// they all work on.
pub struct BuilderChain {
    pub starter: Option<Box<dyn InitialMapBuilder>>,
    pub builders: Vec<MetaStage>,
    pub build_data: BuilderMap,
}

impl BuilderChain {
    /// Whether an initial stage has been registered.
    pub open spec fn has_starter(&self) -> bool {
        self.starter is Some
    }

    /// The number of later stages registered.
    pub open spec fn stage_count(&self) -> nat {
        self.builders@.len()
    }

    /// Whether the chain can be run: it has an initial stage, every stage
    /// fits the grid, and every later stage finds the lists it needs, left
    /// by the stages before it or already in the context.
    pub open spec fn composed(&self) -> bool {
        &&& self.starter is Some
        &&& self.starter->0.fits_grid(self.build_data.width as int, self.build_data.height as int)
        &&& stages_composed(
            self.build_data.present().or(self.starter->0.provides()),
            self.builders@,
            self.build_data.width as int,
            self.build_data.height as int,
        )
    }

    /// A chain without stages for a grid of the given size.
    pub fn new(width: i32, height: i32) -> (chain: BuilderChain)
        requires
            0 < width,
            0 < height,
            width * height <= i32::MAX,
        ensures
            !chain.has_starter(),
            chain.stage_count() == 0,
            chain.build_data.wf(),
            chain.build_data.width == width,
            chain.build_data.height == height,
            chain.build_data.list_spawns@.len() == 0,
            chain.build_data.history@.len() == 0,
            chain.build_data.starting_position is None,
            chain.build_data.present() == Fields::none(),
            forall|i: int|
                0 <= i < chain.build_data.map.cells() ==> chain.build_data.map.tiles@[i]
                    == crate::map::TileType::Wall,
            forall|i: int|
                0 <= i < chain.build_data.map.cells() ==> !chain.build_data.map.revealed_tiles@[i],
            forall|i: int|
                0 <= i < chain.build_data.map.cells() ==> !chain.build_data.map.blocked@[i],
    {
        BuilderChain {
            starter: None,
            builders: Vec::new(),
            build_data: BuilderMap::new(width, height),
        }
    }

    /// Tells whether an initial stage has been registered.
    pub fn is_started(&self) -> (r: bool)
        ensures
            r == self.has_starter(),
    {
        self.starter.is_some()
    }

    /// Registers the initial stage. There can be one only. The stage is
    /// the one given, and the later stages and the context stay as they
    /// are.
    pub fn start_with(&mut self, starter: Box<dyn InitialMapBuilder>)
        requires
            !old(self).has_starter(),
        ensures
            final(self).has_starter(),
            final(self).starter == Some(starter),
            final(self).builders == old(self).builders,
            final(self).stage_count() == old(self).stage_count(),
            final(self).build_data == old(self).build_data,
    {
        let first = Some(starter);
        assert(first->0 == starter);
        self.starter = first;
    }

    /// Registers the initial stage, as `start_with` does, for a caller
    /// that wants to know afterwards which stage the chain holds.
    pub fn start_with_stage(&mut self, starter: InitialStage)
        requires
            !old(self).has_starter(),
        ensures
            final(self).has_starter(),
            final(self).starter->0 == starter.stage,
            final(self).builders == old(self).builders,
            final(self).build_data == old(self).build_data,
    {
        let first = Some(starter.stage);
        assert(first->0 == starter.stage);
        self.starter = first;
    }

    /// Adds a stage at the end of the chain: the stages that were there
    /// keep their places, and the new one comes last. The initial stage
    /// and the context stay as they are.
    pub fn with(&mut self, metabuilder: Box<dyn MetaMapBuilder>)
        ensures
            final(self).has_starter() == old(self).has_starter(),
            final(self).stage_count() == old(self).stage_count() + 1,
            final(self).build_data == old(self).build_data,
            final(self).builders@ == old(self).builders@.push(MetaStage { stage: metabuilder }),
            forall|i: int|
                0 <= i < old(self).builders@.len() ==> #[trigger] final(self).builders@[i] == old(
                    self,
                ).builders@[i],
            final(self).builders@[old(self).builders@.len() as int] == (MetaStage {
                stage: metabuilder,
            }),
            final(self).starter == old(self).starter,
    {
        push_stage(&mut self.builders, MetaStage { stage: metabuilder });
    }

    /// Adds a stage at the end of the chain, as `with` does, for a caller
    /// that wants to know afterwards which stages the chain holds.
    pub fn with_stage(&mut self, stage: MetaStage)
        ensures
            final(self).builders@ == old(self).builders@.push(stage),
            final(self).builders@.len() == old(self).builders@.len() + 1,
            forall|i: int|
                0 <= i < old(self).builders@.len() ==> #[trigger] final(self).builders@[i] == old(
                    self,
                ).builders@[i],
            final(self).builders@[old(self).builders@.len() as int] == stage,
            final(self).starter == old(self).starter,
            final(self).build_data == old(self).build_data,
    {
        push_stage(&mut self.builders, stage);
    }

    /// Tells whether the chain can be run.
    #[verifier::rlimit(50)]
    pub fn is_composed(&self) -> (r: bool)
        ensures
            r == self.composed(),
    {
        let width = self.build_data.width;
        let height = self.build_data.height;
        let mut available = Fields {
            rooms: self.build_data.rooms.is_some(),
            corridors: self.build_data.corridors.is_some(),
            submaps: self.build_data.submaps.is_some(),
        };
        match &self.starter {
            None => {
                return false;
            },
            Some(starter) => {
                if !starter.grid_ok(width, height) {
                    return false;
                }
                available = available.union(&starter.provided());
            },
        }
        let ghost initial = available;
        let n = self.builders.len();
        let mut i: usize = 0;
        while i < n
            invariant
                i <= n,
                n == self.builders@.len(),
                width == self.build_data.width,
                height == self.build_data.height,
                self.starter is Some,
                self.starter->0.fits_grid(width as int, height as int),
                initial == self.build_data.present().or(self.starter->0.provides()),
                available == available_after(initial, self.builders@, i as int),
                forall|j: int|
                    0 <= j < i ==> {
                        &&& (#[trigger] self.builders@[j]).stage.fits_grid(
                            width as int,
                            height as int,
                        )
                        &&& self.builders@[j].stage.needs().within(
                            available_after(initial, self.builders@, j),
                        )
                    },
            decreases n - i,
        {
            if !self.builders[i].stage.grid_ok(width, height) {
                return false;
            }
            if !available.contains(&self.builders[i].stage.needed()) {
                return false;
            }
            available = available.union(&self.builders[i].stage.provided());
            i += 1;
        }
        true
    }

    /// Runs the initial stage and then every later stage in the order of
    /// registration, all on the one context and with the one generator.
    #[verifier::rlimit(50)]
    pub fn build_map(&mut self, rng: &mut rltk::RandomNumberGenerator)
        requires
            old(self).build_data.wf(),
            old(self).composed(),
        ensures
            final(self).build_data.wf(),
            final(self).build_data.extends(&old(self).build_data),
            final(self).has_starter(),
            final(self).stage_count() == old(self).stage_count(),
            available_after(
                old(self).build_data.present().or(old(self).starter->0.provides()),
                old(self).builders@,
                old(self).builders@.len() as int,
            ).within(final(self).build_data.present()),
            exists|contexts: Seq<BuilderMap>|
                {
                    &&& #[trigger] run_through(old(self).builders@, contexts)
                    &&& old(self).starter->0.outcome(&old(self).build_data, &contexts[0])
                    &&& contexts.last() == final(self).build_data
                },
    {
        let ghost before = self.build_data;
        let ghost stages = self.builders@;
        let ghost initial = self.build_data.present().or(self.starter->0.provides());
        let ghost starter_before = self.starter->0;
        match &mut self.starter {
            None => {},
            Some(starter) => {
                starter.build_map(rng, &mut self.build_data);
            },
        }
        let ghost first = self.build_data;
        let ghost mut contexts: Seq<BuilderMap> = seq![first];
        let n = self.builders.len();
        let mut i: usize = 0;
        while i < n
            invariant
                i <= n,
                n == stages.len(),
                contexts.len() == i + 1,
                contexts[0] == first,
                contexts.last() == self.build_data,
                forall|k: int|
                    0 <= k < i ==> (#[trigger] stages[k]).stage.outcome(
                        &contexts[k],
                        &contexts[k + 1],
                    ),
                self.starter is Some,
                self.builders@.len() == n,
                forall|j: int| i <= j < n ==> self.builders@[j] == stages[j],
                stages_composed(initial, stages, before.width as int, before.height as int),
                self.build_data.wf(),
                self.build_data.extends(&before),
                available_after(initial, stages, i as int).within(self.build_data.present()),
            decreases n - i,
        {
            assert(self.builders@[i as int] == stages[i as int]);
            let ghost prev = self.build_data;
            self.builders[i].stage.build_map(rng, &mut self.build_data);
            proof {
                let earlier = contexts;
                contexts = contexts.push(self.build_data);
                assert forall|k: int| 0 <= k < i + 1 implies (#[trigger] stages[k]).stage.outcome(
                    &contexts[k],
                    &contexts[k + 1],
                ) by {
                    if k < i {
                        assert(contexts[k] == earlier[k]);
                        assert(contexts[k + 1] == earlier[k + 1]);
                    } else {
                        assert(contexts[k] == prev);
                    }
                }
            }
            i += 1;
        }
        proof {
            assert(starter_before.outcome(&before, &contexts[0]));
            assert(run_through(stages, contexts));
        }
    }

    /// The spawn requests in order, each with its cell as column and row,
    /// for whoever makes the entities.
    pub fn spawn_entities(&self) -> (requests: Vec<SpawnRequest>)
        requires
            self.build_data.wf(),
        ensures
            requests@.len() == self.build_data.list_spawns@.len(),
            forall|i: int|
                0 <= i < requests@.len() ==> {
                    let entry = self.build_data.list_spawns@[i];
                    &&& (#[trigger] requests@[i]).x == entry.0 as int % (
                    self.build_data.width as int)
                    &&& requests@[i].y == entry.0 as int / (self.build_data.width as int)
                    &&& requests@[i].tag == entry.1
                },
    {
        let mut requests: Vec<SpawnRequest> = Vec::new();
        let n = self.build_data.list_spawns.len();
        let mut i: usize = 0;
        while i < n
            invariant
                i <= n,
                n == self.build_data.list_spawns@.len(),
                self.build_data.wf(),
                requests@.len() == i,
                forall|j: int|
                    0 <= j < i ==> {
                        let entry = self.build_data.list_spawns@[j];
                        &&& (#[trigger] requests@[j]).x == entry.0 as int % (
                        self.build_data.width as int)
                        &&& requests@[j].y == entry.0 as int / (self.build_data.width as int)
                        &&& requests@[j].tag == entry.1
                    },
            decreases n - i,
        {
            let idx = self.build_data.list_spawns[i].0;
            let xy = self.build_data.map.idx_xy(idx);
            let tag = self.build_data.list_spawns[i].1.clone();
            requests.push(SpawnRequest { x: xy.0, y: xy.1, tag });
            i += 1;
        }
        requests
    }
}

/// Puts together the chain for a level above ground: open land and trees
/// from a noise field, something in every region of the land, a town with
/// a pub in the middle of the grid, and doors. `negative` tells, cell by
/// cell, where the noise field of the land is negative; `regions` gives
/// the number of the region of every cell.
pub fn random_builder(
    rng: &mut rltk::RandomNumberGenerator,
    width: i32,
    height: i32,
    negative: Vec<bool>,
    regions: Vec<i32>,
) -> (chain: BuilderChain)
    requires
        0 < width,
        0 < height,
        width * height <= i32::MAX,
    ensures
        chain.has_starter(),
        chain.stage_count() == 4,
        chain.build_data.wf(),
        chain.build_data.width == width,
        chain.build_data.height == height,
        chain.build_data.list_spawns@.len() == 0,
        chain.build_data.history@.len() == 0,
        chain.build_data.starting_position is None,
        chain.build_data.present() == Fields::none(),
{
    let mut builder = BuilderChain::new(width, height);
    builder.start_with(perlin_noise::NoiseMapBuilder::with_samples(negative));
    builder.with(voronoi_spawning::VoronoiSpawning::with_regions(regions));
    builder.with(rectangle_builder::RectBuilder::new());
    builder.with(bsp_town::BSPTownBuilder::new());
    builder.with(door_placement::DoorPlacement::new());
    builder
}

} // verus!
