use crate::map_builders::{BuilderMap, Fields, MetaMapBuilder};
use crate::spawner::{can_roll, spawn_region};
use vstd::prelude::*;

verus! {

/// The stage that asks for something in every corridor.
pub struct CorridorSpawner {}

/// Whether a spawn request is one that the stage makes for a context: the
/// name can come out of the weighted table of the context, and the cell is
/// one of a corridor.
pub open spec fn corridor_spawn(before: &BuilderMap, entry: (usize, String)) -> bool {
    &&& can_roll(&before.spawn_table, entry.1)
    &&& exists|q: int|
        0 <= q < before.corridors->0@.len() && (#[trigger] before.corridors->0@[q])@.contains(
            entry.0,
        )
}

/// The corridors that get a request among the first `n`, in their order:
/// those with a cell, and with fewer cells than a die can have faces.
pub open spec fn corridors_with_cells(halls: Seq<Vec<usize>>, n: int) -> Seq<int>
    decreases n,
{
    if n <= 0 {
        Seq::empty()
    } else if 0 < halls[n - 1]@.len() < i32::MAX {
        corridors_with_cells(halls, n - 1).push(n - 1)
    } else {
        corridors_with_cells(halls, n - 1)
    }
}

/// Whether a spawn request is one for the corridor of index `q`: the name
/// can come out of the weighted table of the context, and the cell is one
/// of that corridor.
pub open spec fn asked_in_corridor(before: &BuilderMap, q: int, entry: (usize, String)) -> bool {
    &&& can_roll(&before.spawn_table, entry.1)
    &&& before.corridors->0@[q]@.contains(entry.0)
}

/// Whether `requests` is the list of the context followed by one request
/// for each corridor of `asked`, in that order, and nothing more.
pub open spec fn one_per_corridor(
    before: &BuilderMap,
    asked: Seq<int>,
    requests: Seq<(usize, String)>,
) -> bool {
    &&& requests.len() == before.list_spawns@.len() + asked.len()
    &&& before.list_spawns@.is_prefix_of(requests)
    &&& forall|k: int|
        0 <= k < asked.len() ==> asked_in_corridor(
            before,
            #[trigger] asked[k],
            requests[before.list_spawns@.len() + k],
        )
}

impl CorridorSpawner {
    /// The stage; it has nothing to set.
    pub fn new() -> (r: Box<CorridorSpawner>)
        ensures
            *r == (CorridorSpawner {  }),
    {
        Box::new(CorridorSpawner {  })
    }

    /// Asks, for every corridor, for one thing drawn from the weighted
    /// table of the context on one of the cells of the corridor; a
    /// corridor without cells gets nothing, nor does one of more cells
    /// than a die has faces. The requests are added in the order of the
    /// corridors, one for each of the others.
    #[verifier::rlimit(50)]
    pub fn build(&mut self, rng: &mut rltk::RandomNumberGenerator, build_data: &mut BuilderMap)
        requires
            old(build_data).wf(),
            old(build_data).corridors is Some,
        ensures
            final(build_data).wf(),
            final(build_data).extends(old(build_data)),
            final(build_data).map == old(build_data).map,
            final(build_data).history == old(build_data).history,
            final(build_data).starting_position == old(build_data).starting_position,
            final(build_data).rooms == old(build_data).rooms,
            final(build_data).corridors == old(build_data).corridors,
            final(build_data).submaps == old(build_data).submaps,
            one_per_corridor(
                old(build_data),
                corridors_with_cells(
                    old(build_data).corridors->0@,
                    old(build_data).corridors->0@.len() as int,
                ),
                final(build_data).list_spawns@,
            ),
            forall|i: int|
                old(build_data).list_spawns@.len() <= i < final(build_data).list_spawns@.len()
                    ==> corridor_spawn(old(build_data), #[trigger] final(build_data).list_spawns@[i]),
    {
        let ghost before = *build_data;
        let n = match &build_data.corridors {
            Some(halls) => halls.len(),
            None => 0,
        };
        let mut c: usize = 0;
        while c < n
            invariant
                c <= n,
                before.wf(),
                before.corridors is Some,
                n == before.corridors->0@.len(),
                build_data.wf(),
                build_data.extends(&before),
                build_data.map == before.map,
                build_data.history == before.history,
                build_data.starting_position == before.starting_position,
                build_data.rooms == before.rooms,
                build_data.corridors == before.corridors,
                build_data.submaps == before.submaps,
                build_data.spawn_table == before.spawn_table,
                one_per_corridor(
                    &before,
                    corridors_with_cells(before.corridors->0@, c as int),
                    build_data.list_spawns@,
                ),
                forall|i: int|
                    before.list_spawns@.len() <= i < build_data.list_spawns@.len()
                        ==> corridor_spawn(&before, #[trigger] build_data.list_spawns@[i]),
            decreases n - c,
        {
            let ghost prev = build_data.list_spawns@;
            let ghost asked = corridors_with_cells(before.corridors->0@, c as int);
            match &build_data.corridors {
                Some(halls) => {
                    if halls[c].len() < 0x7fff_ffff {
                        spawn_region(
                            rng,
                            &halls[c],
                            &build_data.spawn_table,
                            &mut build_data.list_spawns,
                        );
                    }
                },
                None => {},
            }
            proof {
                if build_data.list_spawns@ != prev {
                    let last = build_data.list_spawns@.last();
                    assert(build_data.list_spawns@.drop_last() == prev);
                    let hall = before.corridors->0@[c as int]@;
                    let k = choose|k: int| 0 <= k < hall.len() && hall[k] == last.0;
                    assert(before.corridors->0@[c as int]@[k] < before.map.cells());
                    assert forall|i: int|
                        before.list_spawns@.len() <= i < build_data.list_spawns@.len() implies corridor_spawn(
                        &before,
                        #[trigger] build_data.list_spawns@[i],
                    ) by {
                        if i < prev.len() {
                            assert(build_data.list_spawns@[i] == prev[i]);
                        }
                    }
                    assert forall|i: int| 0 <= i < build_data.list_spawns@.len() implies (
                    #[trigger] build_data.list_spawns@[i]).0 < before.map.cells() by {
                        if i < prev.len() {
                            assert(build_data.list_spawns@[i] == prev[i]);
                        }
                    }
                    assert(prev.is_prefix_of(build_data.list_spawns@));
                }
                let now = corridors_with_cells(before.corridors->0@, c + 1);
                assert forall|k: int| 0 <= k < now.len() implies asked_in_corridor(
                    &before,
                    #[trigger] now[k],
                    build_data.list_spawns@[before.list_spawns@.len() + k],
                ) by {
                    if k < asked.len() {
                        assert(now[k] == asked[k]);
                        assert(build_data.list_spawns@[before.list_spawns@.len() + k]
                            == prev[before.list_spawns@.len() + k]);
                    }
                }
            }
            c += 1;
        }
    }
}

impl MetaMapBuilder for CorridorSpawner {
    open spec fn fits_grid(&self, width: int, height: int) -> bool {
        true
    }

    open spec fn needs(&self) -> Fields {
        Fields { rooms: false, corridors: true, submaps: false }
    }

    open spec fn provides(&self) -> Fields {
        Fields::none()
    }

    open spec fn outcome(&self, before: &BuilderMap, after: &BuilderMap) -> bool {
        &&& after.map == before.map
        &&& one_per_corridor(
            before,
            corridors_with_cells(before.corridors->0@, before.corridors->0@.len() as int),
            after.list_spawns@,
        )
        &&& forall|i: int|
            before.list_spawns@.len() <= i < after.list_spawns@.len() ==> corridor_spawn(
                before,
                #[trigger] after.list_spawns@[i],
            )
    }

    fn grid_ok(&self, width: i32, height: i32) -> (r: bool) {
        true
    }

    fn needed(&self) -> (r: Fields) {
        Fields { rooms: false, corridors: true, submaps: false }
    }

    fn provided(&self) -> (r: Fields) {
        Fields { rooms: false, corridors: false, submaps: false }
    }

    fn build_map(&mut self, rng: &mut rltk::RandomNumberGenerator, build_data: &mut BuilderMap) {
        self.build(rng, build_data);
    }
}

} // verus!
