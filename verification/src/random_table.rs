use crate::rng::roll_dice;
use vstd::prelude::*;
use vstd::string::*;

verus! {

/// One row of a weighted table.
pub struct RandomEntry {
    pub name: String,
    pub weight: i32,
}

/// A list of names, each with a positive weight, to draw from in
/// proportion to the weights.
pub struct RandomTable {
    pub entries: Vec<RandomEntry>,
    pub total_weight: i32,
}

/// The sum of the weights of the first `n` entries.
pub open spec fn weight_before(entries: Seq<RandomEntry>, n: int) -> int
    decreases n,
{
    if n <= 0 {
        0
    } else {
        weight_before(entries, n - 1) + entries[n - 1].weight
    }
}

/// With positive weights the running sum grows strictly with every entry.
pub proof fn lemma_weight_before_increases(entries: Seq<RandomEntry>, i: int, j: int)
    requires
        0 <= i < j <= entries.len(),
        forall|k: int| 0 <= k < entries.len() ==> entries[k].weight > 0,
    ensures
        weight_before(entries, i) < weight_before(entries, j),
    decreases j - i,
{
    if i + 1 < j {
        lemma_weight_before_increases(entries, i, j - 1);
    }
}

/// Adding an entry at the end leaves the running sums before it unchanged.
pub proof fn lemma_weight_before_push(entries: Seq<RandomEntry>, e: RandomEntry, n: int)
    requires
        0 <= n <= entries.len(),
    ensures
        weight_before(entries.push(e), n) == weight_before(entries, n),
    decreases n,
{
    if n > 0 {
        lemma_weight_before_push(entries, e, n - 1);
        assert(entries.push(e)[n - 1] == entries[n - 1]);
    }
}

impl RandomEntry {
    /// The row with the name and the weight given.
    pub fn new(name: String, weight: i32) -> (e: RandomEntry)
        ensures
            e.name == name,
            e.weight == weight,
    {
        RandomEntry { name, weight }
    }
}

impl RandomTable {
    /// Every weight is positive and `total_weight` is their sum, which
    /// stays below the largest die that can be rolled.
    pub open spec fn wf(&self) -> bool {
        &&& forall|k: int| 0 <= k < self.entries@.len() ==> self.entries@[k].weight > 0
        &&& self.total_weight == weight_before(self.entries@, self.entries@.len() as int)
        &&& self.total_weight < i32::MAX
    }

    /// Whether the draw `r` falls into the share of entry `i`: the shares
    /// are laid end to end in the order of the entries, each as long as its
    /// weight.
    pub open spec fn selects(&self, r: int, i: int) -> bool {
        &&& 0 <= i < self.entries@.len()
        &&& weight_before(self.entries@, i) <= r < weight_before(self.entries@, i)
            + self.entries@[i].weight
    }

    /// The table without entries.
    pub fn new() -> (t: RandomTable)
        ensures
            t.wf(),
            t.entries@.len() == 0,
            t.total_weight == 0,
    {
        RandomTable { entries: Vec::new(), total_weight: 0 }
    }

    /// Appends an entry; one without a positive weight is left out.
    pub fn add(self, name: &str, weight: i32) -> (t: RandomTable)
        requires
            self.wf(),
            weight > 0 ==> self.total_weight + weight < i32::MAX,
        ensures
            t.wf(),
            weight <= 0 ==> t == self,
            weight > 0 ==> t.entries@.len() == self.entries@.len() + 1,
            weight > 0 ==> t.entries@.subrange(0, self.entries@.len() as int) == self.entries@,
            weight > 0 ==> t.entries@.last().name@ == name@,
            weight > 0 ==> t.entries@.last().weight == weight,
            weight > 0 ==> t.total_weight == self.total_weight + weight,
    {
        let mut table = self;
        if weight > 0 {
            let ghost before = table.entries@;
            let entry = RandomEntry::new(String::from_str(name), weight);
            proof {
                lemma_weight_before_push(before, entry, before.len() as int);
            }
            table.total_weight += weight;
            table.entries.push(entry);
            assert(table.entries@.subrange(0, before.len() as int) =~= before);
        }
        table
    }

    /// The entry whose share holds the draw `r`.
    pub fn index_for(&self, r: i32) -> (index: usize)
        requires
            self.wf(),
            0 <= r < self.total_weight,
        ensures
            self.selects(r as int, index as int),
    {
        let n = self.entries.len();
        let mut left = r;
        let mut index: usize = 0;
        assert(n > 0) by {
            assert(weight_before(self.entries@, 0) == 0);
        }
        while left >= self.entries[index].weight
            invariant
                self.wf(),
                0 <= r < self.total_weight,
                n == self.entries@.len(),
                index < n,
                0 <= left,
                left == r - weight_before(self.entries@, index as int),
            decreases self.entries@.len() - index,
        {
            left -= self.entries[index].weight;
            index += 1;
            assert(index < n) by {
                assert(weight_before(self.entries@, index as int) <= r);
            }
        }
        index
    }

    /// Draws a name with a chance in proportion to its weight; the empty
    /// table gives `"None"`.
    pub fn roll(&self, rng: &mut rltk::RandomNumberGenerator) -> (name: String)
        requires
            self.wf(),
        ensures
            self.total_weight == 0 ==> name@ == "None"@,
            self.total_weight != 0 ==> exists|i: int|
                0 <= i < self.entries@.len() && name == #[trigger] self.entries@[i].name,
    {
        if self.total_weight == 0 {
            return String::from_str("None");
        }
        proof {
            if self.entries@.len() > 0 {
                lemma_weight_before_increases(self.entries@, 0, self.entries@.len() as int);
            }
        }
        let r = roll_dice(rng, 1, self.total_weight) - 1;
        let index = self.index_for(r);
        self.entries[index].name.clone()
    }

    /// Each draw selects one entry only, so an entry is selected by as many
    /// of the `total_weight` equally likely draws as its weight says.
    pub proof fn lemma_selection_unique(&self, r: int, i: int, j: int)
        requires
            self.wf(),
            self.selects(r, i),
            self.selects(r, j),
        ensures
            i == j,
    {
        if i < j {
            if i + 1 < j {
                lemma_weight_before_increases(self.entries@, i + 1, j);
            }
        } else if j < i {
            if j + 1 < i {
                lemma_weight_before_increases(self.entries@, j + 1, i);
            }
        }
    }

    /// Every draw below the total weight selects some entry.
    pub proof fn lemma_selection_total(&self, r: int) -> (i: int)
        requires
            self.wf(),
            0 <= r < self.total_weight,
        ensures
            self.selects(r, i),
    {
        self.lemma_selection_from(r, 0)
    }

    proof fn lemma_selection_from(&self, r: int, start: int) -> (i: int)
        requires
            self.wf(),
            0 <= start <= self.entries@.len(),
            weight_before(self.entries@, start) <= r < self.total_weight,
        ensures
            self.selects(r, i),
        decreases self.entries@.len() - start,
    {
        if start == self.entries@.len() {
            0
        } else if r < weight_before(self.entries@, start) + self.entries@[start].weight {
            start
        } else {
            self.lemma_selection_from(r, start + 1)
        }
    }
}

} // verus!
