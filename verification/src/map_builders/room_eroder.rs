use crate::map::{Grid, TileType};
use crate::map_builders::common::{stroke_on_grid, Symmetry};
use crate::map_builders::drunkard_walk::{
    lemma_strokes_by_shape,
    lemma_strokes_joined,
    one_step,
    steps_on,
    strokes_hit,
    walkable_ground,
    walked,
    DrunkSpawnMode,
    DrunkardSettings,
    DrunkardsWalkBuilder,
};
use crate::map_builders::{BuilderMap, Fields, MetaMapBuilder};
use crate::rect::{half, Rect};
use crate::rng::roll_dice;
use vstd::prelude::*;

verus! {

/// The stage that wears away the walls of the rooms of the context by
/// walkers that set out from the middle of each room.
pub struct RoomEroder {}

/// How many steps a walker takes.
pub const EROSION_LIFETIME: i32 = 20;

/// The most walkers that set out from one room.
pub const MOST_WALKERS: i32 = 15;

/// The walker that wears the rooms away: it sets out from a given cell,
/// takes twenty steps and paints one cell at a time.
pub open spec fn erosion_settings() -> DrunkardSettings {
    DrunkardSettings {
        spawn_mode: DrunkSpawnMode::StartingPoint,
        drunken_lifetime: EROSION_LIFETIME,
        floor_percent: 0,
        brush_size: 1,
        symmetry: Symmetry::Off,
    }
}

/// The middle of a room.
pub open spec fn middle(room: Rect) -> (int, int) {
    (half(room.x1 + room.x2), half(room.y1 + room.y2))
}

/// As many walkers as `count` says, all of the room at place `room`.
pub open spec fn all_from(room: int, count: int) -> Seq<int> {
    Seq::new(
        if count > 0 {
            count as nat
        } else {
            0nat
        },
        |w: int| room,
    )
}

/// Whether `after` is what walkers make of `before` that set out from the
/// middles of rooms and stood on the cells `strokes`, one walker after the
/// other. `walkers` names the room of each walker: the walkers take the
/// rooms in their order, each stands on twenty cells, the first of them
/// the middle of its room and each of the others a step from the one
/// before. A cell that a walker changed is floor, and so is a cell that
/// bore the mark of a walker before, if a walker was sent at all; every
/// other cell is as it was.
pub open spec fn eroded_by(
    before: &Grid,
    after: &Grid,
    rooms: Seq<Rect>,
    walkers: Seq<int>,
    strokes: Seq<(int, int)>,
) -> bool {
    &&& strokes.len() == EROSION_LIFETIME * walkers.len()
    &&& forall|w: int|
        0 <= w < walkers.len() ==> {
            &&& 0 <= #[trigger] walkers[w] < rooms.len()
            &&& strokes[EROSION_LIFETIME * w] == middle(rooms[walkers[w]])
        }
    &&& forall|v: int, w: int|
        0 <= v <= w < walkers.len() ==> #[trigger] walkers[v] <= #[trigger] walkers[w]
    &&& forall|k: int|
        0 <= k < strokes.len() ==> walkable_ground(
            before,
            Symmetry::Off,
            (#[trigger] strokes[k]).0,
            strokes[k].1,
        )
    &&& forall|k: int|
        0 <= k && k + 1 < strokes.len() && (k + 1) % (EROSION_LIFETIME as int) != 0
            ==> #[trigger] steps_on(before, strokes, k)
    &&& forall|a: int, b: int|
        before.in_bounds(a, b) ==> #[trigger] after.tile_at(a, b) == if strokes_hit(
            before,
            erosion_settings(),
            strokes,
            strokes.len() as int,
            a,
            b,
        ) || (walkers.len() > 0 && before.tile_at(a, b) == TileType::DownStairs) {
            TileType::Floor
        } else {
            before.tile_at(a, b)
        }
}

/// Whether the context `after` is what the walkers `walkers`, standing on
/// the cells `strokes`, make of the context `before`: the grid is worn
/// away by them, at most fifteen of them set out from one room, and the
/// history has a snapshot more for each walker at most.
pub open spec fn erosion_plan(
    before: &BuilderMap,
    after: &BuilderMap,
    walkers: Seq<int>,
    strokes: Seq<(int, int)>,
) -> bool {
    &&& eroded_by(&before.map, &after.map, before.rooms->0@, walkers, strokes)
    &&& forall|v: int, w: int|
        0 <= v && v + MOST_WALKERS <= w < walkers.len() ==> #[trigger] walkers[v]
            < #[trigger] walkers[w]
    &&& after.history@.len() <= before.history@.len() + walkers.len()
}

/// The walkers and the cells they stood on decide what is worn away: two
/// grids that the same walkers make of one grid hold the same tiles.
pub proof fn lemma_erosion_determined(
    before: &Grid,
    one: &Grid,
    other: &Grid,
    rooms: Seq<Rect>,
    walkers: Seq<int>,
    strokes: Seq<(int, int)>,
)
    requires
        before.wf(),
        one.wf(),
        other.wf(),
        one.same_shape(before),
        other.same_shape(before),
        eroded_by(before, one, rooms, walkers, strokes),
        eroded_by(before, other, rooms, walkers, strokes),
    ensures
        one.tiles@ == other.tiles@,
{
    assert forall|x: int, y: int| one.in_bounds(x, y) implies #[trigger] one.tile_at(x, y)
        == other.tile_at(x, y) by {
        assert(before.in_bounds(x, y));
    }
    Grid::lemma_same_tiles(one, other);
}

/// A cell that a walker stood on is one that it changed.
pub proof fn lemma_stood_on_is_hit(
    map: &Grid,
    settings: DrunkardSettings,
    strokes: Seq<(int, int)>,
    n: int,
    k: int,
)
    requires
        0 <= k < n <= strokes.len(),
    ensures
        strokes_hit(map, settings, strokes, n, strokes[k].0, strokes[k].1),
    decreases n,
{
    if k < n - 1 {
        lemma_stood_on_is_hit(map, settings, strokes, n - 1, k);
    }
}

impl RoomEroder {
    /// The stage; it has nothing to set.
    pub fn new() -> (r: Box<RoomEroder>)
        ensures
            *r == (RoomEroder {  }),
    {
        Box::new(RoomEroder {  })
    }

    /// The number of walkers for a roll of a die with twenty faces: five
    /// less than the roll, and none where that is below one.
    pub fn walkers_for(roll: i32) -> (n: i32)
        requires
            i32::MIN + 5 <= roll,
        ensures
            n == if roll - 5 > 0 {
                roll - 5
            } else {
                0
            },
    {
        if roll - 5 > 0 {
            roll - 5
        } else {
            0
        }
    }

    /// Sends `count` walkers out from the middle of the room at place
    /// `room`, one after the other, each for twenty steps; what they step
    /// on becomes floor, the middle of the room first. A snapshot is
    /// taken after every walker that stood on a wall.
    #[verifier::rlimit(100)]
    pub fn send_walkers(
        &mut self,
        rng: &mut rltk::RandomNumberGenerator,
        build_data: &mut BuilderMap,
        room: usize,
        count: i32,
    )
        requires
            old(build_data).wf(),
            old(build_data).rooms is Some,
            room < old(build_data).rooms->0@.len(),
        ensures
            final(build_data).wf(),
            final(build_data).extends(old(build_data)),
            final(build_data).same_records(old(build_data)),
            final(build_data).history@.len() <= old(build_data).history@.len() + all_from(
                room as int,
                count as int,
            ).len(),
            count > 0 ==> final(build_data).map.tile_at(
                middle(old(build_data).rooms->0@[room as int]).0,
                middle(old(build_data).rooms->0@[room as int]).1,
            ) == TileType::Floor,
            exists|strokes: Seq<(int, int)>| #[trigger]
                eroded_by(
                    &old(build_data).map,
                    &final(build_data).map,
                    old(build_data).rooms->0@,
                    all_from(room as int, count as int),
                    strokes,
                ),
    {
        let ghost before = *build_data;
        let ghost rooms = before.rooms->0@;
        let walker = DrunkardsWalkBuilder::new(
            DrunkardSettings {
                spawn_mode: DrunkSpawnMode::StartingPoint,
                drunken_lifetime: EROSION_LIFETIME,
                floor_percent: 0,
                brush_size: 1,
                symmetry: Symmetry::Off,
            },
        );
        let place = match &build_data.rooms {
            Some(rooms) => rooms[room],
            None => Rect { x1: 0, x2: 0, y1: 0, y2: 0 },
        };
        assert(place == rooms[room as int]);
        assert(place.fits(before.width as int, before.height as int));
        let start = place.center();
        let ghost mut strokes: Seq<(int, int)> = Seq::empty();
        let mut d: i32 = 0;
        proof {
            assert(all_from(room as int, 0) =~= Seq::<int>::empty());
        }
        while d < count
            invariant
                0 <= d,
                d <= count || d == 0,
                before.wf(),
                before.rooms is Some,
                rooms == before.rooms->0@,
                room < rooms.len(),
                place == rooms[room as int],
                (start.0 as int, start.1 as int) == middle(place),
                before.map.in_bounds(start.0 as int, start.1 as int),
                walker.settings == erosion_settings(),
                build_data.wf(),
                build_data.extends(&before),
                build_data.same_records(&before),
                build_data.history@.len() <= before.history@.len() + d,
                d > 0 ==> build_data.map.tile_at(start.0 as int, start.1 as int)
                    == TileType::Floor,
                eroded_by(&before.map, &build_data.map, rooms, all_from(room as int, d as int), strokes),
            decreases count - d,
        {
            let ghost prev = *build_data;
            let did_something = walker.walk(rng, &mut build_data.map, start.0, start.1);
            let ghost roamed = *build_data;
            if did_something {
                build_data.take_snapshot();
            }
            DrunkardsWalkBuilder::settle(&mut build_data.map);
            proof {
                let path = choose|path: Seq<(int, int)>| #[trigger]
                    walked(
                        &prev.map,
                        &roamed.map,
                        walker.settings,
                        start.0 as int,
                        start.1 as int,
                        path,
                    );
                Self::lemma_one_more_walker(
                    &before.map,
                    &prev.map,
                    &roamed.map,
                    &build_data.map,
                    rooms,
                    all_from(room as int, d as int),
                    strokes,
                    room as int,
                    path,
                );
                assert(all_from(room as int, d as int).push(room as int) =~= all_from(
                    room as int,
                    d + 1,
                ));
                lemma_stood_on_is_hit(&prev.map, walker.settings, path, path.len() as int, 0);
                before.map.lemma_index_in_range(start.0 as int, start.1 as int);
                let at = before.map.index_of(start.0 as int, start.1 as int);
                assert(path[0] == (start.0 as int, start.1 as int));
                assert(prev.map.in_bounds(start.0 as int, start.1 as int));
                assert(roamed.map.tile_at(start.0 as int, start.1 as int) == TileType::Floor
                    || roamed.map.tile_at(start.0 as int, start.1 as int)
                    == TileType::DownStairs);
                assert(roamed.map.tile_at(start.0 as int, start.1 as int) == roamed.map.tiles@[at]);
                assert(build_data.map.tile_at(start.0 as int, start.1 as int)
                    == build_data.map.tiles@[at]);
                strokes = strokes + path;
            }
            d += 1;
        }
        proof {
            assert(all_from(room as int, d as int) =~= all_from(room as int, count as int));
        }
    }

    /// Sends walkers out from the middle of every room of the context, as
    /// many as a die says, each for a few steps; what they step on
    /// becomes floor. A snapshot is taken after every walker that stood
    /// on a wall.
    #[verifier::rlimit(100)]
    pub fn build(&mut self, rng: &mut rltk::RandomNumberGenerator, build_data: &mut BuilderMap)
        requires
            old(build_data).wf(),
            old(build_data).rooms is Some,
        ensures
            final(build_data).wf(),
            final(build_data).extends(old(build_data)),
            final(build_data).same_records(old(build_data)),
            forall|a: int, b: int|
                old(build_data).map.in_bounds(a, b) ==> {
                    ||| #[trigger] final(build_data).map.tile_at(a, b) == old(
                        build_data).map.tile_at(a, b)
                    ||| final(build_data).map.tile_at(a, b) == TileType::Floor
                },
            exists|walkers: Seq<int>, strokes: Seq<(int, int)>| #[trigger]
                erosion_plan(old(build_data), final(build_data), walkers, strokes),
    {
        let ghost before = *build_data;
        let ghost rooms = before.rooms->0@;
        let n = match &build_data.rooms {
            Some(rooms) => rooms.len(),
            None => 0,
        };
        let ghost mut walkers: Seq<int> = Seq::empty();
        let ghost mut strokes: Seq<(int, int)> = Seq::empty();
        let mut i: usize = 0;
        while i < n
            invariant
                i <= n,
                before.wf(),
                before.rooms is Some,
                rooms == before.rooms->0@,
                n == rooms.len(),
                build_data.wf(),
                build_data.extends(&before),
                build_data.same_records(&before),
                erosion_plan(&before, build_data, walkers, strokes),
                forall|w: int| 0 <= w < walkers.len() ==> #[trigger] walkers[w] < i,
            decreases n - i,
        {
            let count = Self::walkers_for(roll_dice(rng, 1, 20));
            let ghost prev = *build_data;
            self.send_walkers(rng, build_data, i, count);
            proof {
                let sent = all_from(i as int, count as int);
                let path = choose|path: Seq<(int, int)>| #[trigger]
                    eroded_by(&prev.map, &build_data.map, rooms, sent, path);
                Self::lemma_eroded_again(
                    &before.map,
                    &prev.map,
                    &build_data.map,
                    rooms,
                    walkers,
                    strokes,
                    sent,
                    path,
                );
                let more = walkers + sent;
                assert forall|v: int, w: int|
                    0 <= v && v + MOST_WALKERS <= w < more.len() implies #[trigger] more[v]
                    < #[trigger] more[w] by {
                    if w < walkers.len() {
                        assert(more[w] == walkers[w]);
                        assert(more[v] == walkers[v]);
                    } else {
                        assert(more[w] == sent[w - walkers.len()]);
                        assert(more[v] == walkers[v]);
                    }
                }
                assert forall|w: int| 0 <= w < more.len() implies #[trigger] more[w] < i + 1 by {
                    if w < walkers.len() {
                        assert(more[w] == walkers[w]);
                    } else {
                        assert(more[w] == sent[w - walkers.len()]);
                    }
                }
                walkers = more;
                strokes = strokes + path;
            }
            i += 1;
        }
        proof {
            assert forall|a: int, b: int| before.map.in_bounds(a, b) implies {
                ||| #[trigger] build_data.map.tile_at(a, b) == before.map.tile_at(a, b)
                ||| build_data.map.tile_at(a, b) == TileType::Floor
            } by {}
        }
    }

    /// Where a grid is what some walkers made of another, the grid that
    /// one more walker from the middle of a room makes of it, once the
    /// marks are turned into floor, is what all of them made.
    pub proof fn lemma_one_more_walker(
        before: &Grid,
        prev: &Grid,
        roamed: &Grid,
        after: &Grid,
        rooms: Seq<Rect>,
        walkers: Seq<int>,
        strokes: Seq<(int, int)>,
        room: int,
        path: Seq<(int, int)>,
    )
        requires
            before.wf(),
            prev.wf(),
            prev.same_shape(before),
            roamed.same_shape(before),
            after.same_shape(before),
            0 <= room < rooms.len(),
            eroded_by(before, prev, rooms, walkers, strokes),
            forall|w: int| 0 <= w < walkers.len() ==> #[trigger] walkers[w] <= room,
            walked(
                prev,
                roamed,
                erosion_settings(),
                middle(rooms[room]).0,
                middle(rooms[room]).1,
                path,
            ),
            forall|i: int|
                0 <= i < before.cells() ==> #[trigger] after.tiles@[i] == if roamed.tiles@[i]
                    == TileType::DownStairs {
                    TileType::Floor
                } else {
                    roamed.tiles@[i]
                },
        ensures
            eroded_by(before, after, rooms, walkers.push(room), strokes + path),
    {
        let more = walkers.push(room);
        let joined = strokes + path;
        let settings = erosion_settings();
        assert(path.len() == EROSION_LIFETIME);
        assert forall|w: int| 0 <= w < more.len() implies {
            &&& 0 <= #[trigger] more[w] < rooms.len()
            &&& joined[EROSION_LIFETIME * w] == middle(rooms[more[w]])
        } by {
            if w < walkers.len() {
                assert(more[w] == walkers[w]);
                assert(joined[EROSION_LIFETIME * w] == strokes[EROSION_LIFETIME * w]);
            } else {
                assert(joined[EROSION_LIFETIME * w] == path[0]);
            }
        }
        assert forall|v: int, w: int| 0 <= v <= w < more.len() implies #[trigger] more[v]
            <= #[trigger] more[w] by {
            if w < walkers.len() {
                assert(more[w] == walkers[w]);
                assert(more[v] == walkers[v]);
            } else if v < walkers.len() {
                assert(more[v] == walkers[v]);
            }
        }
        assert forall|k: int| 0 <= k < joined.len() implies walkable_ground(
            before,
            Symmetry::Off,
            (#[trigger] joined[k]).0,
            joined[k].1,
        ) by {
            if k < strokes.len() {
                assert(joined[k] == strokes[k]);
            } else {
                assert(joined[k] == path[k - strokes.len()]);
            }
        }
        assert forall|k: int|
            0 <= k && k + 1 < joined.len() && (k + 1) % (EROSION_LIFETIME as int)
                != 0 implies #[trigger] steps_on(before, joined, k) by {
            if k + 1 < strokes.len() {
                assert(joined[k] == strokes[k]);
                assert(joined[k + 1] == strokes[k + 1]);
                assert(steps_on(before, strokes, k));
            } else {
                let j = k - strokes.len();
                assert(j >= 0);
                assert(joined[k] == path[j]);
                assert(joined[k + 1] == path[j + 1]);
                assert(one_step(prev, path[j].0, path[j].1, path[j + 1].0, path[j + 1].1));
            }
        }
        assert forall|a: int, b: int| before.in_bounds(a, b) implies #[trigger] after.tile_at(a, b)
            == if strokes_hit(before, settings, joined, joined.len() as int, a, b) || (more.len()
            > 0 && before.tile_at(a, b) == TileType::DownStairs) {
            TileType::Floor
        } else {
            before.tile_at(a, b)
        } by {
            lemma_strokes_joined(before, settings, strokes, path, path.len() as int, a, b);
            lemma_strokes_by_shape(prev, before, settings, path, path.len() as int, a, b);
            before.lemma_index_in_range(a, b);
            let i = before.index_of(a, b);
            assert(after.tiles@[i] == if roamed.tiles@[i] == TileType::DownStairs {
                TileType::Floor
            } else {
                roamed.tiles@[i]
            });
            assert(prev.in_bounds(a, b));
            assert(joined.len() == strokes.len() + path.len());
            assert(if strokes_hit(prev, settings, path, path.len() as int, a, b) {
                roamed.tile_at(a, b) == TileType::Floor || roamed.tile_at(a, b)
                    == TileType::DownStairs
            } else {
                roamed.tile_at(a, b) == prev.tile_at(a, b)
            });
            assert(after.tile_at(a, b) == after.tiles@[i]);
            assert(roamed.tile_at(a, b) == roamed.tiles@[i]);
            assert(prev.tile_at(a, b) == if strokes_hit(
                before,
                settings,
                strokes,
                strokes.len() as int,
                a,
                b,
            ) || (walkers.len() > 0 && before.tile_at(a, b) == TileType::DownStairs) {
                TileType::Floor
            } else {
                before.tile_at(a, b)
            });
        }
    }

    /// Where a grid is what some walkers made of another, and a third is
    /// what walkers of later rooms made of it, the third is what all of
    /// them made of the first.
    #[verifier::rlimit(100)]
    pub proof fn lemma_eroded_again(
        before: &Grid,
        prev: &Grid,
        after: &Grid,
        rooms: Seq<Rect>,
        walkers: Seq<int>,
        strokes: Seq<(int, int)>,
        sent: Seq<int>,
        path: Seq<(int, int)>,
    )
        requires
            before.wf(),
            prev.same_shape(before),
            after.same_shape(before),
            eroded_by(before, prev, rooms, walkers, strokes),
            eroded_by(prev, after, rooms, sent, path),
            forall|v: int, w: int|
                0 <= v < walkers.len() && 0 <= w < sent.len() ==> #[trigger] walkers[v]
                    <= #[trigger] sent[w],
        ensures
            eroded_by(before, after, rooms, walkers + sent, strokes + path),
    {
        let more = walkers + sent;
        let joined = strokes + path;
        let settings = erosion_settings();
        assert forall|w: int| 0 <= w < more.len() implies {
            &&& 0 <= #[trigger] more[w] < rooms.len()
            &&& joined[EROSION_LIFETIME * w] == middle(rooms[more[w]])
        } by {
            if w < walkers.len() {
                assert(more[w] == walkers[w]);
                assert(joined[EROSION_LIFETIME * w] == strokes[EROSION_LIFETIME * w]);
            } else {
                let v = w - walkers.len();
                assert(more[w] == sent[v]);
                assert(joined[EROSION_LIFETIME * w] == path[EROSION_LIFETIME * v]);
            }
        }
        assert forall|v: int, w: int| 0 <= v <= w < more.len() implies #[trigger] more[v]
            <= #[trigger] more[w] by {
            if w < walkers.len() {
                assert(more[w] == walkers[w]);
                assert(more[v] == walkers[v]);
            } else if v < walkers.len() {
                assert(more[v] == walkers[v]);
                assert(more[w] == sent[w - walkers.len()]);
            } else {
                assert(more[v] == sent[v - walkers.len()]);
                assert(more[w] == sent[w - walkers.len()]);
            }
        }
        assert forall|k: int| 0 <= k < joined.len() implies walkable_ground(
            before,
            Symmetry::Off,
            (#[trigger] joined[k]).0,
            joined[k].1,
        ) by {
            if k < strokes.len() {
                assert(joined[k] == strokes[k]);
            } else {
                assert(joined[k] == path[k - strokes.len()]);
            }
        }
        assert forall|k: int|
            0 <= k && k + 1 < joined.len() && (k + 1) % (EROSION_LIFETIME as int)
                != 0 implies #[trigger] steps_on(before, joined, k) by {
            if k + 1 < strokes.len() {
                assert(joined[k] == strokes[k]);
                assert(joined[k + 1] == strokes[k + 1]);
                assert(steps_on(before, strokes, k));
            } else {
                let j = k - strokes.len();
                vstd::arithmetic::div_mod::lemma_mod_multiples_vanish(
                    walkers.len() as int,
                    j + 1,
                    EROSION_LIFETIME as int,
                );
                assert(j >= 0);
                assert((j + 1) % (EROSION_LIFETIME as int) != 0);
                assert(joined[k] == path[j]);
                assert(joined[k + 1] == path[j + 1]);
                assert(steps_on(prev, path, j));
            }
        }
        assert forall|a: int, b: int| before.in_bounds(a, b) implies #[trigger] after.tile_at(a, b)
            == if strokes_hit(before, settings, joined, joined.len() as int, a, b) || (more.len()
            > 0 && before.tile_at(a, b) == TileType::DownStairs) {
            TileType::Floor
        } else {
            before.tile_at(a, b)
        } by {
            lemma_strokes_joined(before, settings, strokes, path, path.len() as int, a, b);
            lemma_strokes_by_shape(prev, before, settings, path, path.len() as int, a, b);
            assert(prev.in_bounds(a, b));
            assert(joined.len() == strokes.len() + path.len());
            assert(after.tile_at(a, b) == if strokes_hit(
                prev,
                settings,
                path,
                path.len() as int,
                a,
                b,
            ) || (sent.len() > 0 && prev.tile_at(a, b) == TileType::DownStairs) {
                TileType::Floor
            } else {
                prev.tile_at(a, b)
            });
            assert(prev.tile_at(a, b) == if strokes_hit(
                before,
                settings,
                strokes,
                strokes.len() as int,
                a,
                b,
            ) || (walkers.len() > 0 && before.tile_at(a, b) == TileType::DownStairs) {
                TileType::Floor
            } else {
                before.tile_at(a, b)
            });
        }
    }
}

impl MetaMapBuilder for RoomEroder {
    open spec fn fits_grid(&self, width: int, height: int) -> bool {
        true
    }

    open spec fn needs(&self) -> Fields {
        Fields { rooms: true, corridors: false, submaps: false }
    }

    open spec fn provides(&self) -> Fields {
        Fields::none()
    }

    open spec fn outcome(&self, before: &BuilderMap, after: &BuilderMap) -> bool {
        &&& forall|a: int, b: int|
            before.map.in_bounds(a, b) ==> {
                ||| #[trigger] after.map.tile_at(a, b) == before.map.tile_at(a, b)
                ||| after.map.tile_at(a, b) == TileType::Floor
            }
        &&& exists|walkers: Seq<int>, strokes: Seq<(int, int)>| #[trigger]
            erosion_plan(before, after, walkers, strokes)
    }

    fn grid_ok(&self, width: i32, height: i32) -> (r: bool) {
        true
    }

    fn needed(&self) -> (r: Fields) {
        Fields { rooms: true, corridors: false, submaps: false }
    }

    fn provided(&self) -> (r: Fields) {
        Fields { rooms: false, corridors: false, submaps: false }
    }

    fn build_map(&mut self, rng: &mut rltk::RandomNumberGenerator, build_data: &mut BuilderMap) {
        self.build(rng, build_data);
    }
}

} // verus!
