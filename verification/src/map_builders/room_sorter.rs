use crate::map_builders::{BuilderMap, Fields, MetaMapBuilder};
use crate::rect::Rect;
use vstd::prelude::*;

verus! {

/// The stage that puts the rooms in order from left to right.
pub struct RoomSorter {}

/// Whether the room at place `k` is named in the order.
pub open spec fn placed(order: Seq<usize>, k: int) -> bool {
    exists|i: int| 0 <= i < order.len() && #[trigger] order[i] == k
}

/// Whether `order` names the places of all rooms, those of the rooms
/// further left first, and of rooms that start in the same column the one
/// that comes first among the rooms first.
pub open spec fn left_to_right(rooms: Seq<Rect>, order: Seq<usize>) -> bool {
    &&& order.len() == rooms.len()
    &&& forall|i: int| 0 <= i < order.len() ==> #[trigger] order[i] < rooms.len()
    &&& forall|k: int| 0 <= k < rooms.len() ==> #[trigger] placed(order, k)
    &&& forall|i: int, j: int|
        #![trigger order[i], order[j]]
        0 <= i < j < order.len() ==> rooms[order[i] as int].x1 < rooms[order[j] as int].x1 || (
        rooms[order[i] as int].x1 == rooms[order[j] as int].x1 && order[i] < order[j])
}

/// The rooms in the order given.
pub open spec fn arranged(rooms: Seq<Rect>, order: Seq<usize>) -> Seq<Rect> {
    Seq::new(order.len(), |i: int| rooms[order[i] as int])
}

impl RoomSorter {
    /// The stage; it has nothing to set.
    pub fn new() -> (r: Box<RoomSorter>)
        ensures
            *r == (RoomSorter {  }),
    {
        Box::new(RoomSorter {  })
    }

    /// Finds the order of the rooms from left to right.
    #[verifier::rlimit(50)]
    pub fn room_order(rooms: &Vec<Rect>) -> (order: Vec<usize>)
        ensures
            left_to_right(rooms@, order@),
    {
        let n = rooms.len();
        let mut order: Vec<usize> = Vec::new();
        let mut m: usize = 0;
        while m < n
            invariant
                m <= n,
                n == rooms@.len(),
                order@.len() == m,
                forall|i: int| 0 <= i < m ==> #[trigger] order@[i] < m,
                forall|k: int| 0 <= k < m ==> #[trigger] placed(order@, k),
                forall|i: int, j: int|
                    #![trigger order@[i], order@[j]]
                    0 <= i < j < m ==> rooms@[order@[i] as int].x1 < rooms@[order@[j] as int].x1
                        || (rooms@[order@[i] as int].x1 == rooms@[order@[j] as int].x1 && order@[i]
                        < order@[j]),
            decreases n - m,
        {
            let ghost sorted = order@;
            order.push(m);
            let mut j: usize = m;
            proof {
                assert forall|k: int| 0 <= k < m + 1 implies #[trigger] placed(order@, k) by {
                    if k < m {
                        assert(placed(sorted, k));
                        let i = choose|i: int| 0 <= i < sorted.len() && #[trigger] sorted[i] == k;
                        assert(order@[i] == k);
                    } else {
                        assert(order@[m as int] == k);
                    }
                }
            }
            while j > 0 && rooms[order[j - 1]].x1 > rooms[order[j]].x1
                invariant
                    j <= m < n,
                    n == rooms@.len(),
                    order@.len() == m + 1,
                    order@[j as int] == m,
                    forall|i: int| 0 <= i < m + 1 ==> #[trigger] order@[i] < m + 1,
                    forall|i: int| 0 <= i < m + 1 && i != j ==> #[trigger] order@[i] < m,
                    forall|k: int| 0 <= k < m + 1 ==> #[trigger] placed(order@, k),
                    forall|a: int, b: int|
                        #![trigger order@[a], order@[b]]
                        0 <= a < b < m + 1 && a != j && b != j ==> rooms@[order@[a] as int].x1
                            < rooms@[order@[b] as int].x1 || (rooms@[order@[a] as int].x1
                            == rooms@[order@[b] as int].x1 && order@[a] < order@[b]),
                    forall|b: int|
                        j < b < m + 1 ==> rooms@[m as int].x1 < rooms@[#[trigger] order@[b] as int].x1,
                decreases j,
            {
                let ghost prev = order@;
                let left = order[j - 1];
                let right = order[j];
                order[j - 1] = right;
                order[j] = left;
                proof {
                    assert forall|k: int| 0 <= k < m + 1 implies #[trigger] placed(order@, k) by {
                        assert(placed(prev, k));
                        let i = choose|i: int| 0 <= i < prev.len() && #[trigger] prev[i] == k;
                        let i2 = if i == j {
                            j - 1
                        } else if i == j - 1 {
                            j as int
                        } else {
                            i
                        };
                        assert(order@[i2] == k);
                    }
                    assert forall|a: int, b: int|
                        #![trigger order@[a], order@[b]]
                        0 <= a < b < m + 1 && a != j - 1 && b != j - 1 implies rooms@[order@[a] as int].x1
                        < rooms@[order@[b] as int].x1 || (rooms@[order@[a] as int].x1
                        == rooms@[order@[b] as int].x1 && order@[a] < order@[b]) by {
                        let a0 = if a == j {
                            j - 1
                        } else {
                            a
                        };
                        let b0 = if b == j {
                            j - 1
                        } else {
                            b
                        };
                        assert(order@[a] == prev[a0]);
                        assert(order@[b] == prev[b0]);
                    }
                }
                j -= 1;
            }
            proof {
                assert forall|a: int, b: int|
                    #![trigger order@[a], order@[b]]
                    0 <= a < b < m + 1 implies rooms@[order@[a] as int].x1 < rooms@[order@[b] as int].x1
                    || (rooms@[order@[a] as int].x1 == rooms@[order@[b] as int].x1 && order@[a]
                    < order@[b]) by {
                    if b == j && j > 0 {
                        if a < j - 1 {
                            assert(rooms@[order@[a] as int].x1 < rooms@[order@[j - 1] as int].x1 || (
                            rooms@[order@[a] as int].x1 == rooms@[order@[j - 1] as int].x1
                                && order@[a] < order@[j - 1]));
                        }
                    }
                }
            }
            m += 1;
        }
        order
    }

    /// Puts the rooms of the context in order from left to right; rooms
    /// that start in the same column keep their order.
    #[verifier::rlimit(50)]
    pub fn sorter(&mut self, build_data: &mut BuilderMap)
        requires
            old(build_data).wf(),
            old(build_data).rooms is Some,
        ensures
            final(build_data).wf(),
            final(build_data).extends(old(build_data)),
            final(build_data).map == old(build_data).map,
            final(build_data).list_spawns == old(build_data).list_spawns,
            final(build_data).history == old(build_data).history,
            final(build_data).starting_position == old(build_data).starting_position,
            final(build_data).corridors == old(build_data).corridors,
            final(build_data).submaps == old(build_data).submaps,
            final(build_data).rooms is Some,
            exists|order: Seq<usize>|
                #![trigger left_to_right(old(build_data).rooms->0@, order)]
                left_to_right(old(build_data).rooms->0@, order) && final(build_data).rooms->0@
                    == arranged(old(build_data).rooms->0@, order),
    {
        let ghost before = *build_data;
        let mut sorted: Vec<Rect> = Vec::new();
        let ghost order_seq: Seq<usize>;
        match &build_data.rooms {
            Some(rooms) => {
                let order = Self::room_order(rooms);
                let n = order.len();
                let mut i: usize = 0;
                while i < n
                    invariant
                        i <= n,
                        n == order@.len(),
                        left_to_right(rooms@, order@),
                        sorted@.len() == i,
                        forall|k: int| 0 <= k < i ==> #[trigger] sorted@[k] == rooms@[order@[k] as int],
                    decreases n - i,
                {
                    sorted.push(rooms[order[i]]);
                    i += 1;
                }
                proof {
                    order_seq = order@;
                    assert(sorted@ =~= arranged(rooms@, order@));
                }
            },
            None => {
                proof {
                    order_seq = Seq::empty();
                }
            },
        }
        build_data.rooms = Some(sorted);
        proof {
            assert(left_to_right(before.rooms->0@, order_seq));
        }
    }
}

impl MetaMapBuilder for RoomSorter {
    open spec fn fits_grid(&self, width: int, height: int) -> bool {
        true
    }

    open spec fn needs(&self) -> Fields {
        Fields { rooms: true, corridors: false, submaps: false }
    }

    open spec fn provides(&self) -> Fields {
        Fields { rooms: true, corridors: false, submaps: false }
    }

    open spec fn outcome(&self, before: &BuilderMap, after: &BuilderMap) -> bool {
        &&& after.map == before.map
        &&& after.rooms is Some
        &&& exists|order: Seq<usize>|
            #![trigger left_to_right(before.rooms->0@, order)]
            left_to_right(before.rooms->0@, order) && after.rooms->0@ == arranged(
                before.rooms->0@,
                order,
            )
    }

    fn grid_ok(&self, width: i32, height: i32) -> (r: bool) {
        true
    }

    fn needed(&self) -> (r: Fields) {
        Fields { rooms: true, corridors: false, submaps: false }
    }

    fn provided(&self) -> (r: Fields) {
        Fields { rooms: true, corridors: false, submaps: false }
    }

    fn build_map(&mut self, rng: &mut rltk::RandomNumberGenerator, build_data: &mut BuilderMap) {
        self.sorter(build_data);
    }
}

} // verus!
