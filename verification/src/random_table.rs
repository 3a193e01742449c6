//! Weighted choice: each entry is picked as often as its weight says.

use crate::random::roll_dice;
use vstd::prelude::*;

verus! {

/// Keys with weights. Every weight is above zero, and `total_weight` is
/// their sum.
pub struct RandomTable {
    pub entries: Vec<(usize, i32)>,
    pub total_weight: i32,
}

/// The sum of the weights of the first `n` entries.
pub open spec fn spec_prefix(entries: Seq<(usize, i32)>, n: int) -> int
    decreases n,
{
    if n <= 0 {
        0
    } else {
        spec_prefix(entries, n - 1) + entries[n - 1].1
    }
}

/// Entry `i` is the one that `roll` picks: the weights before it sum to at
/// most `roll`, and with its own weight to more.
pub open spec fn spec_picks(entries: Seq<(usize, i32)>, roll: int, i: int) -> bool {
    0 <= i < entries.len() && spec_prefix(entries, i) <= roll < spec_prefix(entries, i + 1)
}

/// The sums of the weights grow with the number of entries.
pub proof fn lemma_prefix_grows(entries: Seq<(usize, i32)>, a: int, b: int)
    requires
        0 <= a <= b <= entries.len(),
        forall|k: int| 0 <= k < entries.len() ==> (#[trigger] entries[k]).1 > 0,
    ensures
        spec_prefix(entries, a) <= spec_prefix(entries, b),
        a < b ==> spec_prefix(entries, a) < spec_prefix(entries, b),
    decreases b - a,
{
    if a < b {
        lemma_prefix_grows(entries, a, b - 1);
    }
}

/// No roll picks two entries.
pub proof fn lemma_pick_unique(entries: Seq<(usize, i32)>, roll: int, i: int, j: int)
    requires
        forall|k: int| 0 <= k < entries.len() ==> (#[trigger] entries[k]).1 > 0,
        spec_picks(entries, roll, i),
        spec_picks(entries, roll, j),
    ensures
        i == j,
{
    if i < j {
        lemma_prefix_grows(entries, i + 1, j);
    }
    if j < i {
        lemma_prefix_grows(entries, j + 1, i);
    }
}

impl RandomTable {
    pub open spec fn wf(&self) -> bool {
        &&& forall|k: int| 0 <= k < self.entries@.len() ==> (#[trigger] self.entries@[k]).1 > 0
        &&& self.total_weight == spec_prefix(self.entries@, self.entries@.len() as int)
        &&& self.total_weight < i32::MAX
    }

    /// A table without entries.
    pub fn new() -> (table: RandomTable)
        ensures
            table.wf(),
            table.entries@.len() == 0,
            table.total_weight == 0,
    {
        RandomTable { entries: Vec::new(), total_weight: 0 }
    }

    /// Adds `key` with `weight`. A weight that is not above zero, or that
    /// would take the total up to the largest `i32`, adds nothing.
    pub fn push(&mut self, key: usize, weight: i32)
        requires
            old(self).wf(),
        ensures
            final(self).wf(),
            final(self).entries@ == (if weight > 0 && old(self).total_weight + weight < i32::MAX {
                old(self).entries@.push((key, weight))
            } else {
                old(self).entries@
            }),
    {
        proof {
            lemma_prefix_grows(self.entries@, 0, self.entries@.len() as int);
        }
        if weight > 0 && weight < i32::MAX - self.total_weight {
            let ghost before = self.entries@;
            self.entries.push((key, weight));
            self.total_weight = self.total_weight + weight;
            proof {
                lemma_prefix_same(before, self.entries@, before.len() as int);
            }
        }
    }

    /// The key that `roll` picks: that of the entry whose share of the
    /// total weight `roll` falls into, counting from zero. A roll below
    /// zero or not below the total picks nothing.
    pub fn pick(&self, roll: i32) -> (key: Option<usize>)
        requires
            self.wf(),
        ensures
            match key {
                Some(k) => exists|i: int| #[trigger] spec_picks(self.entries@, roll as int, i) && self.entries@[i].0 == k,
                None => roll < 0 || roll >= self.total_weight,
            },
    {
        if roll < 0 || roll >= self.total_weight {
            return None;
        }
        let mut before: i32 = 0;
        let mut i: usize = 0;
        while i < self.entries.len()
            invariant
                i <= self.entries.len(),
                self.wf(),
                0 <= roll < self.total_weight,
                before == spec_prefix(self.entries@, i as int),
                0 <= before <= roll,
            decreases self.entries.len() - i,
        {
            proof {
                lemma_prefix_grows(self.entries@, i + 1, self.entries@.len() as int);
                lemma_prefix_grows(self.entries@, 0, i as int);
            }
            let weight: i32 = self.entries[i].1;
            if roll - before < weight {
                assert(spec_picks(self.entries@, roll as int, i as int));
                return Some(self.entries[i].0);
            }
            before = before + weight;
            i += 1;
        }
        proof {
            assert(false);
        }
        None
    }

    /// Picks a key at random, each as often as its weight says. An empty
    /// table gives nothing; any other table gives one of its keys.
    pub fn roll(&self, rng: &mut rltk::RandomNumberGenerator) -> (key: Option<usize>)
        requires
            self.wf(),
        ensures
            match key {
                Some(k) => exists|i: int| 0 <= i < self.entries@.len() && (#[trigger] self.entries@[i]).0 == k,
                None => self.entries@.len() == 0,
            },
    {
        proof {
            lemma_prefix_grows(self.entries@, 0, self.entries@.len() as int);
        }
        if self.total_weight <= 0 {
            return None;
        }
        let drawn: i32 = roll_dice(rng, 1, self.total_weight);
        self.pick(drawn - 1)
    }
}

/// The sum of the first `n` weights does not depend on what follows them.
pub proof fn lemma_prefix_same(a: Seq<(usize, i32)>, b: Seq<(usize, i32)>, n: int)
    requires
        0 <= n <= a.len(),
        n <= b.len(),
        forall|k: int| 0 <= k < n ==> a[k] == b[k],
    ensures
        spec_prefix(a, n) == spec_prefix(b, n),
    decreases n,
{
    if n > 0 {
        lemma_prefix_same(a, b, n - 1);
    }
}

} // verus!
