use crate::map::{Grid, TileType};
use crate::map_builders::common::{
    carved_only,
    draw_corridor,
    fill_box,
    in_box,
    lemma_carved_twice,
    on_corridor,
};
use crate::map_builders::{BuilderMap, Fields, InitialMapBuilder, Position};
use crate::rect::{half, side_of, Rect};
use crate::rng::roll_dice;
use vstd::prelude::*;

verus! {

/// A half is cut up further only while it is longer than this along the
/// axis of the cut.
pub const MIN_ROOM_SIZE: i32 = 8;

/// The stage that cuts the grid in two again and again, along an axis
/// drawn at random each time, makes a room of every piece and joins each
/// room to the next by a corridor.
pub struct BSPInteriorBuilder {
    pub rects: Vec<Rect>,
}

/// The two pieces that a rectangle is cut into. A cut across the
/// horizontal axis leaves a left and a right piece: the left one is half
/// as wide as the rectangle, and the right one takes the rest, so that the
/// two are together as wide as the rectangle. A cut across the vertical
/// axis leaves an upper and a lower piece in the same way.
pub open spec fn halves(rect: Rect, horizontal: bool) -> (Rect, Rect) {
    let width = rect.x2 - rect.x1;
    let height = rect.y2 - rect.y1;
    let half_width = half(width);
    let half_height = half(height);
    if horizontal {
        (
            Rect {
                x1: rect.x1,
                y1: rect.y1,
                x2: (rect.x1 + half_width) as i32,
                y2: (rect.y1 + height) as i32,
            },
            Rect {
                x1: (rect.x1 + half_width) as i32,
                y1: rect.y1,
                x2: (rect.x1 + half_width + (width - half_width)) as i32,
                y2: (rect.y1 + height) as i32,
            },
        )
    } else {
        (
            Rect {
                x1: rect.x1,
                y1: rect.y1,
                x2: (rect.x1 + width) as i32,
                y2: (rect.y1 + half_height) as i32,
            },
            Rect {
                x1: rect.x1,
                y1: (rect.y1 + half_height) as i32,
                x2: (rect.x1 + width) as i32,
                y2: (rect.y1 + half_height + (height - half_height)) as i32,
            },
        )
    }
}

/// Whether a piece whose half along the cut has the given length is cut up
/// further.
pub open spec fn subdivides(half_length: int) -> bool {
    half_length > MIN_ROOM_SIZE
}

/// Half the extent of a rectangle along the axis of a cut.
pub open spec fn half_along(rect: Rect, horizontal: bool) -> int {
    if horizontal {
        half(rect.x2 - rect.x1)
    } else {
        half(rect.y2 - rect.y1)
    }
}

/// The room of a piece: the piece without its last column and its last
/// row, which stay wall between the room and the rooms right of it and
/// below it.
pub open spec fn room_in(piece: Rect) -> Rect {
    Rect { x1: piece.x1, y1: piece.y1, x2: (piece.x2 - 1) as i32, y2: (piece.y2 - 1) as i32 }
}

/// The draws that cut a rectangle up: the axis of its own cut and, where
/// its halves are cut up further, the draws that cut up each of them.
pub enum Cuts {
    Last { horizontal: bool },
    Further { horizontal: bool, first: Box<Cuts>, second: Box<Cuts> },
}

/// Whether the draws cut the rectangle up as the rule says: its halves are
/// cut up further where half its extent along its cut is more than the
/// least size of a room, and only there.
pub open spec fn cut_by_rule(rect: Rect, cuts: Cuts) -> bool
    decreases cuts,
{
    match cuts {
        Cuts::Last { horizontal } => !subdivides(half_along(rect, horizontal)),
        Cuts::Further { horizontal, first, second } => {
            &&& subdivides(half_along(rect, horizontal))
            &&& cut_by_rule(halves(rect, horizontal).0, *first)
            &&& cut_by_rule(halves(rect, horizontal).1, *second)
        },
    }
}

/// The pieces that the draws cut a rectangle into, those of its first
/// half before those of its second.
pub open spec fn pieces_of(rect: Rect, cuts: Cuts) -> Seq<Rect>
    decreases cuts,
{
    match cuts {
        Cuts::Last { horizontal } => seq![halves(rect, horizontal).0, halves(rect, horizontal).1],
        Cuts::Further { horizontal, first, second } => pieces_of(
            halves(rect, horizontal).0,
            *first,
        ) + pieces_of(halves(rect, horizontal).1, *second),
    }
}

/// Whether `pieces` is what the draws cut the rectangle into, by the rule.
pub open spec fn cut_up(rect: Rect, cuts: Cuts, pieces: Seq<Rect>) -> bool {
    cut_by_rule(rect, cuts) && pieces == pieces_of(rect, cuts)
}

/// Whether `rooms` holds the rooms of the pieces that the draws cut the
/// rectangle into, by the rule.
pub open spec fn rooms_cut(rect: Rect, cuts: Cuts, rooms: Seq<Rect>) -> bool {
    cut_by_rule(rect, cuts) && rooms == pieces_of(rect, cuts).map_values(|p: Rect| room_in(p))
}

/// The two pieces of a cut take up the extent of the rectangle along the
/// axis of the cut between them, and across the cut each is as long as the
/// rectangle. The first piece starts where the rectangle starts, the
/// second starts where the first ends and ends where the rectangle ends.
pub proof fn lemma_halves_fill_parent(rect: Rect, horizontal: bool)
    requires
        rect.tame(),
        rect.x1 <= rect.x2,
        rect.y1 <= rect.y2,
    ensures
        ({
            let (first, second) = halves(rect, horizontal);
            if horizontal {
                &&& first.span_x() + second.span_x() == rect.span_x()
                &&& first.span_y() == rect.span_y() && second.span_y() == rect.span_y()
                &&& first.x1 == rect.x1 && second.x1 == first.x2 && second.x2 == rect.x2
            } else {
                &&& first.span_y() + second.span_y() == rect.span_y()
                &&& first.span_x() == rect.span_x() && second.span_x() == rect.span_x()
                &&& first.y1 == rect.y1 && second.y1 == first.y2 && second.y2 == rect.y2
            }
        }),
{
}

/// A piece that is cut up further is longer than the least size of a room
/// along the axis of the cut that made it.
pub proof fn lemma_subdivided_not_small(rect: Rect, horizontal: bool)
    requires
        rect.tame(),
        rect.x1 <= rect.x2,
        rect.y1 <= rect.y2,
        subdivides(half_along(rect, horizontal)),
    ensures
        ({
            let (first, second) = halves(rect, horizontal);
            if horizontal {
                first.span_x() > MIN_ROOM_SIZE && second.span_x() > MIN_ROOM_SIZE
            } else {
                first.span_y() > MIN_ROOM_SIZE && second.span_y() > MIN_ROOM_SIZE
            }
        }),
{
}

/// Whether every rectangle that the draws cut, the first one and each
/// half that is cut up further, is at least as wide and as high as the
/// least size of a room.
pub open spec fn cuts_not_small(rect: Rect, cuts: Cuts) -> bool
    decreases cuts,
{
    &&& rect.span_x() >= MIN_ROOM_SIZE
    &&& rect.span_y() >= MIN_ROOM_SIZE
    &&& cuts matches Cuts::Further { horizontal, first, second } ==> {
        &&& cuts_not_small(halves(rect, horizontal).0, *first)
        &&& cuts_not_small(halves(rect, horizontal).1, *second)
    }
}

/// Draws that cut a rectangle up by the rule never cut a rectangle that
/// is less wide or less high than the least size of a room, if the first
/// one is not, and every piece that they leave lies within the first
/// rectangle.
pub proof fn lemma_cut_pieces_not_small(rect: Rect, cuts: Cuts)
    requires
        plot(rect),
        rect.span_x() >= MIN_ROOM_SIZE,
        rect.span_y() >= MIN_ROOM_SIZE,
        cut_by_rule(rect, cuts),
    ensures
        cuts_not_small(rect, cuts),
        forall|i: int|
            0 <= i < pieces_of(rect, cuts).len() ==> piece_of(
                rect,
                #[trigger] pieces_of(rect, cuts)[i],
            ),
    decreases cuts,
{
    match cuts {
        Cuts::Last { horizontal } => {
            lemma_halves_fill_parent(rect, horizontal);
        },
        Cuts::Further { horizontal, first, second } => {
            lemma_halves_fill_parent(rect, horizontal);
            let (a, b) = halves(rect, horizontal);
            lemma_cut_pieces_not_small(a, *first);
            lemma_cut_pieces_not_small(b, *second);
            let pa = pieces_of(a, *first);
            let pb = pieces_of(b, *second);
            assert forall|i: int| 0 <= i < pieces_of(rect, cuts).len() implies piece_of(
                rect,
                #[trigger] pieces_of(rect, cuts)[i],
            ) by {
                if i < pa.len() {
                    assert(piece_of(a, pa[i]));
                } else {
                    assert(piece_of(b, pb[i - pa.len()]));
                }
            }
        },
    }
}

/// Whether a rectangle is a piece that can be cut: its corner is on the
/// grid and it is four cells or more wide and high.
pub open spec fn plot(rect: Rect) -> bool {
    &&& rect.tame()
    &&& 0 <= rect.x1
    &&& 0 <= rect.y1
    &&& rect.x2 - rect.x1 >= 4
    &&& rect.y2 - rect.y1 >= 4
}

/// Whether `piece` lies within `rect` and is a cell or more wide and high.
pub open spec fn piece_of(rect: Rect, piece: Rect) -> bool {
    &&& rect.x1 <= piece.x1 < piece.x2 <= rect.x2
    &&& rect.y1 <= piece.y1 < piece.y2 <= rect.y2
}

/// Whether a piece is two cells or more wide and high, so that it has a
/// room.
pub open spec fn roomy(piece: Rect) -> bool {
    piece.x2 - piece.x1 >= 2 && piece.y2 - piece.y1 >= 2
}

/// Whether two pieces share no cell: one ends where the other starts, or
/// before.
pub open spec fn apart(a: Rect, b: Rect) -> bool {
    a.x2 <= b.x1 || b.x2 <= a.x1 || a.y2 <= b.y1 || b.y2 <= a.y1
}

/// The lots without the last of them.
pub open spec fn without_last(rects: Seq<Rect>) -> Seq<Rect> {
    if rects.len() > 0 {
        rects.drop_last()
    } else {
        rects
    }
}

/// Whether `(x, y)` is a cell of one of the first `n` rooms. The first and
/// the last cell of the grid are cells of no room.
pub open spec fn rooms_cover(map: &Grid, rooms: Seq<Rect>, n: int, x: int, y: int) -> bool
    decreases n,
{
    n > 0 && (rooms_cover(map, rooms, n - 1, x, y) || in_box(
        map,
        rooms[n - 1].x1 as int,
        rooms[n - 1].x2 as int,
        rooms[n - 1].y1 as int,
        rooms[n - 1].y2 as int,
        true,
        true,
        x,
        y,
    ))
}

/// Whether `(x, y)` lies on one of the first `n` corridors, each given by
/// the cell it starts from and the cell it ends on.
pub open spec fn halls_cover(ends: Seq<(int, int, int, int)>, n: int, x: int, y: int) -> bool
    decreases n,
{
    n > 0 && (halls_cover(ends, n - 1, x, y) || on_corridor(
        ends[n - 1].0,
        ends[n - 1].1,
        ends[n - 1].2,
        ends[n - 1].3,
        x,
        y,
    ))
}

/// What the first `n` corridors cover does not depend on the corridors
/// from the `n`-th on.
pub proof fn lemma_halls_cover_prefix(
    ends: Seq<(int, int, int, int)>,
    more: Seq<(int, int, int, int)>,
    n: int,
    x: int,
    y: int,
)
    requires
        0 <= n <= ends.len() <= more.len(),
        forall|i: int| 0 <= i < n ==> more[i] == ends[i],
    ensures
        halls_cover(more, n, x, y) == halls_cover(ends, n, x, y),
    decreases n,
{
    if n > 0 {
        lemma_halls_cover_prefix(ends, more, n - 1, x, y);
    }
}

/// Whether `after` is `before` with the rooms turned into floor and, from
/// each room to the next, a corridor between a cell of the one and a cell
/// of the other, as `ends` gives them.
pub open spec fn interior_plan(
    before: &Grid,
    after: &Grid,
    rooms: Seq<Rect>,
    ends: Seq<(int, int, int, int)>,
) -> bool {
    &&& ends.len() == rooms.len() - 1
    &&& forall|c: int|
        0 <= c < ends.len() ==> {
            &&& rooms[c].x1 <= (#[trigger] ends[c]).0 < rooms[c].x2
            &&& rooms[c].y1 <= ends[c].1 < rooms[c].y2
            &&& rooms[c + 1].x1 <= ends[c].2 < rooms[c + 1].x2
            &&& rooms[c + 1].y1 <= ends[c].3 < rooms[c + 1].y2
        }
    &&& forall|x: int, y: int|
        before.in_bounds(x, y) ==> #[trigger] after.tile_at(x, y) == if rooms_cover(
            before,
            rooms,
            rooms.len() as int,
            x,
            y,
        ) || halls_cover(ends, ends.len() as int, x, y) {
            TileType::Floor
        } else {
            before.tile_at(x, y)
        }
}

/// Whether every cell of every room is floor.
pub open spec fn interior_carved(map: &Grid, rooms: Seq<Rect>) -> bool {
    forall|i: int, x: int, y: int|
        0 <= i < rooms.len() && (#[trigger] rooms[i]).x1 <= x < rooms[i].x2 && rooms[i].y1 <= y
            < rooms[i].y2 ==> #[trigger] map.tile_at(x, y) == TileType::Floor
}

/// The cuts decide the rooms, and the rooms and the ends of the corridors
/// decide the grid: two runs on one grid with the same cuts and the same
/// ends leave the same rooms and the same tiles.
pub proof fn lemma_cuts_determine(
    before: &Grid,
    one: &Grid,
    other: &Grid,
    root: Rect,
    cuts: Cuts,
    rooms_one: Seq<Rect>,
    rooms_other: Seq<Rect>,
    ends: Seq<(int, int, int, int)>,
)
    requires
        before.wf(),
        one.wf(),
        other.wf(),
        one.same_shape(before),
        other.same_shape(before),
        rooms_cut(root, cuts, rooms_one),
        rooms_cut(root, cuts, rooms_other),
        interior_plan(before, one, rooms_one, ends),
        interior_plan(before, other, rooms_other, ends),
    ensures
        rooms_one == rooms_other,
        one.tiles@ == other.tiles@,
{
    assert forall|x: int, y: int| one.in_bounds(x, y) implies #[trigger] one.tile_at(x, y)
        == other.tile_at(x, y) by {
        assert(before.in_bounds(x, y));
    }
    Grid::lemma_same_tiles(one, other);
}

impl BSPInteriorBuilder {
    /// The stage without lots.
    pub fn new() -> (r: BSPInteriorBuilder)
        ensures
            r.rects@.len() == 0,
    {
        BSPInteriorBuilder { rects: Vec::new() }
    }

    /// Cuts a rectangle in two.
    pub fn split(rect: Rect, horizontal: bool) -> (pieces: (Rect, Rect))
        requires
            rect.tame(),
        ensures
            pieces == halves(rect, horizontal),
    {
        let width = rect.x2 - rect.x1;
        let height = rect.y2 - rect.y1;
        let half_width = width / 2;
        let half_height = height / 2;
        if horizontal {
            (
                Rect::new(rect.x1, rect.y1, half_width, height),
                Rect::new(rect.x1 + half_width, rect.y1, width - half_width, height),
            )
        } else {
            (
                Rect::new(rect.x1, rect.y1, width, half_height),
                Rect::new(rect.x1, rect.y1 + half_height, width, height - half_height),
            )
        }
    }

    /// Replaces the last of the lots by the pieces that `rect` is cut into:
    /// `rect` is cut in two along an axis drawn at random, and each of the
    /// halves is cut up in the same way where half the extent of `rect`
    /// along that axis is more than the least size of a room, and only
    /// there. The pieces of the first half come before those of the
    /// second.
    #[verifier::rlimit(50)]
    pub fn add_subrects(&mut self, rect: Rect, rng: &mut rltk::RandomNumberGenerator)
        requires
            plot(rect),
        ensures
            exists|cuts: Cuts| #[trigger]
                cut_up(
                    rect,
                    cuts,
                    final(self).rects@.subrange(
                        without_last(old(self).rects@).len() as int,
                        final(self).rects@.len() as int,
                    ),
                ),
            final(self).rects@.len() >= without_last(old(self).rects@).len() + 2,
            final(self).rects@.subrange(0, without_last(old(self).rects@).len() as int)
                == without_last(old(self).rects@),
            forall|i: int|
                without_last(old(self).rects@).len() <= i < final(self).rects@.len() ==> piece_of(
                    rect,
                    #[trigger] final(self).rects@[i],
                ) && roomy(final(self).rects@[i]),
            forall|i: int, j: int|
                #![trigger final(self).rects@[i], final(self).rects@[j]]
                without_last(old(self).rects@).len() <= i < j < final(self).rects@.len() ==> apart(
                    final(self).rects@[i],
                    final(self).rects@[j],
                ),
        decreases rect.span_x() + rect.span_y(),
    {
        if self.rects.len() > 0 {
            self.rects.pop();
        }
        let ghost kept = self.rects@;
        assert(kept == without_last(old(self).rects@));
        let width = rect.x2 - rect.x1;
        let height = rect.y2 - rect.y1;
        let half_width = width / 2;
        let half_height = height / 2;
        let split = roll_dice(rng, 1, 4);
        let horizontal = split <= 2;
        let (first, second) = Self::split(rect, horizontal);
        let again = if horizontal {
            half_width > MIN_ROOM_SIZE
        } else {
            half_height > MIN_ROOM_SIZE
        };
        assert(again == subdivides(half_along(rect, horizontal)));
        self.rects.push(first);
        if again {
            self.add_subrects(first, rng);
        }
        let ghost mid = self.rects@;
        let ghost first_pieces = mid.subrange(kept.len() as int, mid.len() as int);
        assert(mid.subrange(0, kept.len() as int) =~= kept);
        self.rects.push(second);
        if again {
            self.add_subrects(second, rng);
        }
        let ghost second_pieces = self.rects@.subrange(mid.len() as int, self.rects@.len() as int);
        assert(self.rects@.subrange(0, mid.len() as int) =~= mid);
        assert(self.rects@.subrange(0, kept.len() as int) =~= kept);
        proof {
            let all = self.rects@.subrange(kept.len() as int, self.rects@.len() as int);
            assert(all =~= first_pieces + second_pieces);
            if again {
                let one = choose|cuts: Cuts| #[trigger] cut_up(first, cuts, first_pieces);
                let two = choose|cuts: Cuts| #[trigger] cut_up(second, cuts, second_pieces);
                let cuts = Cuts::Further {
                    horizontal,
                    first: Box::new(one),
                    second: Box::new(two),
                };
                assert(cut_up(rect, cuts, all));
            } else {
                let cuts = Cuts::Last { horizontal };
                assert(first_pieces =~= seq![first]);
                assert(second_pieces =~= seq![second]);
                assert(all =~= seq![first, second]);
                assert(cut_up(rect, cuts, all));
            }
        }
        assert forall|i: int| kept.len() <= i < self.rects@.len() implies piece_of(
            rect,
            #[trigger] self.rects@[i],
        ) && roomy(self.rects@[i]) by {
            if i < mid.len() {
                assert(self.rects@.subrange(0, mid.len() as int)[i] == mid[i]);
                assert((piece_of(first, mid[i]) && roomy(mid[i])) || mid[i] == first);
            } else {
                assert((piece_of(second, self.rects@[i]) && roomy(self.rects@[i]))
                    || self.rects@[i] == second);
            }
        }
        assert forall|i: int, j: int|
            #![trigger self.rects@[i], self.rects@[j]]
            kept.len() <= i < j < self.rects@.len() implies apart(
            self.rects@[i],
            self.rects@[j],
        ) by {
            if i < mid.len() {
                assert(self.rects@.subrange(0, mid.len() as int)[i] == mid[i]);
                assert(piece_of(first, mid[i]) || mid[i] == first);
            } else {
                assert(piece_of(second, self.rects@[i]) || self.rects@[i] == second);
            }
            if j < mid.len() {
                assert(self.rects@.subrange(0, mid.len() as int)[j] == mid[j]);
                assert(apart(mid[i], mid[j]));
            } else {
                assert(piece_of(second, self.rects@[j]) || self.rects@[j] == second);
            }
        }
    }

    /// The room of a piece: the piece without its last column and its
    /// last row.
    pub fn room_of(piece: Rect) -> (room: Rect)
        requires
            piece.tame(),
        ensures
            room == room_in(piece),
    {
        Rect { x1: piece.x1, y1: piece.y1, x2: piece.x2 - 1, y2: piece.y2 - 1 }
    }

    /// Makes the rooms and the corridors between them. The grid but for
    /// its border is cut into pieces, each piece but for its last column
    /// and row becomes a room, and each room is joined to the next. The
    /// rooms are recorded in the context, and the middle of the first
    /// becomes the starting position.
    #[verifier::rlimit(50)]
    pub fn build(&mut self, rng: &mut rltk::RandomNumberGenerator, build_data: &mut BuilderMap)
        requires
            old(build_data).wf(),
            6 <= old(build_data).width <= 0x2000_0000,
            6 <= old(build_data).height <= 0x2000_0000,
        ensures
            final(build_data).wf(),
            final(build_data).extends(old(build_data)),
            final(build_data).list_spawns == old(build_data).list_spawns,
            final(build_data).corridors == old(build_data).corridors,
            final(build_data).submaps == old(build_data).submaps,
            carved_only(&old(build_data).map, &final(build_data).map),
            final(build_data).start_walkable(),
            final(build_data).rooms matches Some(rooms) && {
                &&& rooms@.len() >= 2
                &&& forall|i: int|
                    0 <= i < rooms@.len() ==> piece_of(
                        Rect {
                            x1: 1,
                            y1: 1,
                            x2: (old(build_data).width - 1) as i32,
                            y2: (old(build_data).height - 1) as i32,
                        },
                        #[trigger] rooms@[i],
                    )
                &&& forall|i: int, j: int|
                    #![trigger rooms@[i], rooms@[j]]
                    0 <= i < j < rooms@.len() ==> !rooms@[i].overlaps(&rooms@[j])
                &&& exists|cuts: Cuts| #[trigger]
                    rooms_cut(
                        Rect {
                            x1: 1,
                            y1: 1,
                            x2: (old(build_data).width - 1) as i32,
                            y2: (old(build_data).height - 1) as i32,
                        },
                        cuts,
                        rooms@,
                    )
                &&& interior_carved(&final(build_data).map, rooms@)
                &&& exists|ends: Seq<(int, int, int, int)>| #[trigger]
                    interior_plan(&old(build_data).map, &final(build_data).map, rooms@, ends)
                &&& final(build_data).starting_position == Some(
                    Position {
                        x: half(rooms@[0].x1 + rooms@[0].x2) as i32,
                        y: half(rooms@[0].y1 + rooms@[0].y2) as i32,
                    },
                )
                &&& final(build_data).map.tile_at(
                    half(rooms@[0].x1 + rooms@[0].x2),
                    half(rooms@[0].y1 + rooms@[0].y2),
                ) == TileType::Floor
                &&& final(build_data).history@.len() == old(build_data).history@.len() + 2
                    * rooms@.len() - 1
            },
    {
        let ghost before = *build_data;
        let width = build_data.map.width;
        let height = build_data.map.height;
        self.rects.clear();
        self.rects.push(Rect::new(1, 1, width - 2, height - 2));
        let first_room = self.rects[0];
        self.add_subrects(first_room, rng);
        let n = self.rects.len();
        let ghost cuts = choose|cuts: Cuts| #[trigger]
            cut_up(first_room, cuts, self.rects@.subrange(0, self.rects@.len() as int));
        assert(self.rects@.subrange(0, self.rects@.len() as int) =~= self.rects@);
        let mut rooms: Vec<Rect> = Vec::new();
        let mut k: usize = 0;
        while k < n
            invariant
                k <= n,
                n == self.rects@.len(),
                first_room == (Rect { x1: 1, y1: 1, x2: (width - 1) as i32, y2: (height - 1) as i32 }),
                6 <= width <= 0x2000_0000,
                6 <= height <= 0x2000_0000,
                forall|j: int| 0 <= j < n ==> piece_of(first_room, #[trigger] self.rects@[j]),
                rooms@.len() == k,
                forall|j: int| 0 <= j < k ==> #[trigger] rooms@[j] == room_in(self.rects@[j]),
            decreases n - k,
        {
            assert(piece_of(first_room, self.rects@[k as int]));
            rooms.push(Self::room_of(self.rects[k]));
            k += 1;
        }
        proof {
            assert(rooms@ =~= self.rects@.map_values(|p: Rect| room_in(p)));
            assert(rooms_cut(first_room, cuts, rooms@));
            assert forall|j: int| 0 <= j < n implies piece_of(first_room, #[trigger] rooms@[j]) by {
                assert(piece_of(first_room, self.rects@[j]) && roomy(self.rects@[j]));
            }
            assert forall|i: int, j: int|
                #![trigger rooms@[i], rooms@[j]]
                0 <= i < j < rooms@.len() implies !rooms@[i].overlaps(&rooms@[j]) by {
                assert(apart(self.rects@[i], self.rects@[j]));
                assert(piece_of(first_room, self.rects@[i]) && roomy(self.rects@[i]));
                assert(piece_of(first_room, self.rects@[j]) && roomy(self.rects@[j]));
            }
        }
        let mut i: usize = 0;
        while i < n
            invariant
                i <= n,
                n == rooms@.len(),
                n >= 2,
                before.wf(),
                width == before.width,
                height == before.height,
                first_room == (Rect { x1: 1, y1: 1, x2: (width - 1) as i32, y2: (height - 1) as i32 }),
                forall|k: int| 0 <= k < n ==> piece_of(first_room, #[trigger] rooms@[k]),
                build_data.wf(),
                build_data.same_records(&before),
                build_data.history@.len() == before.history@.len() + i,
                carved_only(&before.map, &build_data.map),
                interior_carved(&build_data.map, rooms@.subrange(0, i as int)),
                forall|x: int, y: int|
                    before.map.in_bounds(x, y) ==> #[trigger] build_data.map.tile_at(x, y)
                        == if rooms_cover(&before.map, rooms@, i as int, x, y) {
                        TileType::Floor
                    } else {
                        before.map.tile_at(x, y)
                    },
            decreases n - i,
        {
            let room = rooms[i];
            let ghost prev = *build_data;
            fill_box(
                &mut build_data.map,
                room.x1 as i64,
                room.x2 as i64,
                room.y1 as i64,
                room.y2 as i64,
                true,
                true,
                TileType::Floor,
            );
            proof {
                assert forall|x: int, y: int|
                    before.map.in_bounds(x, y) implies #[trigger] build_data.map.tile_at(x, y)
                    == if rooms_cover(&before.map, rooms@, i + 1, x, y) {
                    TileType::Floor
                } else {
                    before.map.tile_at(x, y)
                } by {
                    assert(prev.map.tile_at(x, y) == if rooms_cover(
                        &before.map,
                        rooms@,
                        i as int,
                        x,
                        y,
                    ) {
                        TileType::Floor
                    } else {
                        before.map.tile_at(x, y)
                    });
                }
                assert(carved_only(&prev.map, &build_data.map));
                lemma_carved_twice(&before.map, &prev.map, &build_data.map);
                lemma_carved_twice(&prev.map, &prev.map, &build_data.map);
                let done = rooms@.subrange(0, i + 1);
                assert forall|k: int, x: int, y: int|
                    0 <= k < done.len() && (#[trigger] done[k]).x1 <= x < done[k].x2 && done[k].y1
                        <= y < done[k].y2 implies #[trigger] build_data.map.tile_at(x, y)
                    == TileType::Floor by {
                    assert(piece_of(first_room, rooms@[k]));
                    if k < i {
                        assert(rooms@.subrange(0, i as int)[k] == rooms@[k]);
                        assert(prev.map.tile_at(x, y) == TileType::Floor);
                    } else {
                        prev.map.lemma_inner_index(x, y);
                    }
                }
            }
            build_data.take_snapshot();
            i += 1;
        }
        assert(rooms@.subrange(0, n as int) =~= rooms@);
        let mut c: usize = 0;
        let ghost mut ends: Seq<(int, int, int, int)> = Seq::empty();
        while c < n - 1
            invariant
                c <= n - 1,
                ends.len() == c,
                forall|k: int|
                    0 <= k < c ==> {
                        &&& rooms@[k].x1 <= (#[trigger] ends[k]).0 < rooms@[k].x2
                        &&& rooms@[k].y1 <= ends[k].1 < rooms@[k].y2
                        &&& rooms@[k + 1].x1 <= ends[k].2 < rooms@[k + 1].x2
                        &&& rooms@[k + 1].y1 <= ends[k].3 < rooms@[k + 1].y2
                    },
                forall|x: int, y: int|
                    before.map.in_bounds(x, y) ==> #[trigger] build_data.map.tile_at(x, y)
                        == if rooms_cover(&before.map, rooms@, n as int, x, y) || halls_cover(
                        ends,
                        c as int,
                        x,
                        y,
                    ) {
                        TileType::Floor
                    } else {
                        before.map.tile_at(x, y)
                    },
                n == rooms@.len(),
                n >= 2,
                before.wf(),
                width == before.width,
                height == before.height,
                first_room == (Rect { x1: 1, y1: 1, x2: (width - 1) as i32, y2: (height - 1) as i32 }),
                forall|k: int| 0 <= k < n ==> piece_of(first_room, #[trigger] rooms@[k]),
                build_data.wf(),
                build_data.same_records(&before),
                build_data.history@.len() == before.history@.len() + n + c,
                carved_only(&before.map, &build_data.map),
                interior_carved(&build_data.map, rooms@),
            decreases n - 1 - c,
        {
            let room = rooms[c];
            let next_room = rooms[c + 1];
            assert(piece_of(first_room, room) && piece_of(first_room, next_room));
            let start_x = room.x1 + (roll_dice(rng, 1, side_of(room.x1, room.x2)) - 1);
            let start_y = room.y1 + (roll_dice(rng, 1, side_of(room.y1, room.y2)) - 1);
            let end_x = next_room.x1 + (roll_dice(rng, 1, side_of(next_room.x1, next_room.x2)) - 1);
            let end_y = next_room.y1 + (roll_dice(rng, 1, side_of(next_room.y1, next_room.y2)) - 1);
            let ghost prev = *build_data;
            let ghost earlier = ends;
            draw_corridor(&mut build_data.map, start_x, start_y, end_x, end_y);
            proof {
                ends = ends.push((start_x as int, start_y as int, end_x as int, end_y as int));
                assert forall|x: int, y: int|
                    before.map.in_bounds(x, y) implies #[trigger] build_data.map.tile_at(x, y)
                    == if rooms_cover(&before.map, rooms@, n as int, x, y) || halls_cover(
                    ends,
                    c + 1,
                    x,
                    y,
                ) {
                    TileType::Floor
                } else {
                    before.map.tile_at(x, y)
                } by {
                    lemma_halls_cover_prefix(earlier, ends, c as int, x, y);
                    assert(prev.map.tile_at(x, y) == if rooms_cover(
                        &before.map,
                        rooms@,
                        n as int,
                        x,
                        y,
                    ) || halls_cover(earlier, c as int, x, y) {
                        TileType::Floor
                    } else {
                        before.map.tile_at(x, y)
                    });
                }
                assert forall|k: int| 0 <= k < c + 1 implies {
                    &&& rooms@[k].x1 <= (#[trigger] ends[k]).0 < rooms@[k].x2
                    &&& rooms@[k].y1 <= ends[k].1 < rooms@[k].y2
                    &&& rooms@[k + 1].x1 <= ends[k].2 < rooms@[k + 1].x2
                    &&& rooms@[k + 1].y1 <= ends[k].3 < rooms@[k + 1].y2
                } by {
                    if k < c {
                        assert(ends[k] == earlier[k]);
                    }
                }
                lemma_carved_twice(&before.map, &prev.map, &build_data.map);
                lemma_carved_twice(&prev.map, &prev.map, &build_data.map);
                assert forall|k: int, x: int, y: int|
                    0 <= k < rooms@.len() && (#[trigger] rooms@[k]).x1 <= x < rooms@[k].x2
                        && rooms@[k].y1 <= y < rooms@[k].y2 implies #[trigger] build_data.map.tile_at(
                    x,
                    y,
                ) == TileType::Floor by {
                    assert(piece_of(first_room, rooms@[k]));
                    assert(prev.map.tile_at(x, y) == TileType::Floor);
                }
            }
            build_data.take_snapshot();
            c += 1;
        }
        let start = rooms[0].center();
        proof {
            assert(piece_of(first_room, rooms@[0]));
        }
        build_data.starting_position = Some(Position { x: start.0, y: start.1 });
        proof {
            assert(interior_plan(&before.map, &build_data.map, rooms@, ends));
        }
        build_data.rooms = Some(rooms);
    }
}

impl InitialMapBuilder for BSPInteriorBuilder {
    open spec fn fits_grid(&self, width: int, height: int) -> bool {
        6 <= width <= 0x2000_0000 && 6 <= height <= 0x2000_0000
    }

    open spec fn provides(&self) -> Fields {
        Fields { rooms: true, corridors: false, submaps: false }
    }

    open spec fn outcome(&self, before: &BuilderMap, after: &BuilderMap) -> bool {
        after.rooms matches Some(rooms) && {
            &&& rooms@.len() >= 2
            &&& exists|ends: Seq<(int, int, int, int)>| #[trigger]
                interior_plan(&before.map, &after.map, rooms@, ends)
            &&& after.starting_position == Some(
                Position {
                    x: half(rooms@[0].x1 + rooms@[0].x2) as i32,
                    y: half(rooms@[0].y1 + rooms@[0].y2) as i32,
                },
            )
        }
    }

    fn grid_ok(&self, width: i32, height: i32) -> (r: bool) {
        6 <= width && width <= 0x2000_0000 && 6 <= height && height <= 0x2000_0000
    }

    fn provided(&self) -> (r: Fields) {
        Fields { rooms: true, corridors: false, submaps: false }
    }

    fn build_map(&mut self, rng: &mut rltk::RandomNumberGenerator, build_data: &mut BuilderMap) {
        self.build(rng, build_data);
    }
}

} // verus!
