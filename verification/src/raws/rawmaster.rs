use crate::random_table::{RandomEntry, RandomTable};
use crate::raws::spawn_table_structs::SpawnTableEntry;
use vstd::prelude::*;

verus! {

/// The sum of the positive weights among the first `n` rows.
pub open spec fn positive_weight(rows: Seq<SpawnTableEntry>, n: int) -> int
    decreases n,
{
    if n <= 0 {
        0
    } else {
        positive_weight(rows, n - 1) + if rows[n - 1].weight > 0 {
            rows[n - 1].weight as int
        } else {
            0
        }
    }
}

/// The names and weights of the first `n` rows, those without a positive
/// weight left out.
pub open spec fn weighted_rows(rows: Seq<SpawnTableEntry>, n: int) -> Seq<(Seq<char>, i32)>
    decreases n,
{
    if n <= 0 {
        Seq::empty()
    } else if rows[n - 1].weight > 0 {
        weighted_rows(rows, n - 1).push((rows[n - 1].name@, rows[n - 1].weight))
    } else {
        weighted_rows(rows, n - 1)
    }
}

/// The names and weights of the entries of a table.
pub open spec fn table_rows(entries: Seq<RandomEntry>) -> Seq<(Seq<char>, i32)> {
    Seq::new(entries.len(), |i: int| (entries[i].name@, entries[i].weight))
}

/// The running sum of positive weights never goes down.
pub proof fn lemma_positive_weight_grows(rows: Seq<SpawnTableEntry>, i: int, j: int)
    requires
        0 <= i <= j,
    ensures
        0 <= positive_weight(rows, i) <= positive_weight(rows, j),
    decreases j,
{
    if i < j {
        lemma_positive_weight_grows(rows, i, j - 1);
    } else if i > 0 {
        lemma_positive_weight_grows(rows, i - 1, i - 1);
    }
}

/// Makes the weighted table of the rows of the spawn table, in their
/// order; a row without a positive weight is left out.
pub fn get_spawn_table(rows: &Vec<SpawnTableEntry>) -> (table: RandomTable)
    requires
        positive_weight(rows@, rows@.len() as int) < i32::MAX,
    ensures
        table.wf(),
        table.total_weight == positive_weight(rows@, rows@.len() as int),
        table_rows(table.entries@) == weighted_rows(rows@, rows@.len() as int),
{
    let mut rt = RandomTable::new();
    let n = rows.len();
    let mut i: usize = 0;
    assert(table_rows(rt.entries@) =~= weighted_rows(rows@, 0));
    while i < n
        invariant
            i <= n,
            n == rows@.len(),
            positive_weight(rows@, n as int) < i32::MAX,
            rt.wf(),
            rt.total_weight == positive_weight(rows@, i as int),
            table_rows(rt.entries@) == weighted_rows(rows@, i as int),
        decreases n - i,
    {
        let weight = rows[i].weight;
        proof {
            lemma_positive_weight_grows(rows@, i + 1, n as int);
        }
        let ghost before = rt.entries@;
        rt = rt.add(rows[i].name.as_str(), weight);
        proof {
            if weight > 0 {
                assert(rt.entries@.subrange(0, before.len() as int) == before);
                assert forall|k: int| 0 <= k < before.len() implies rt.entries@[k] == before[k] by {
                    assert(rt.entries@.subrange(0, before.len() as int)[k] == rt.entries@[k]);
                }
                assert(table_rows(rt.entries@) =~= weighted_rows(rows@, i + 1));
            }
        }
        i += 1;
    }
    rt
}

} // verus!
