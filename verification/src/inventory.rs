//! What an entity carries: gold, and items stacked by name in the order in
//! which the names were first picked up.

use crate::component::Entity;
use indexmap::IndexMap;
use vstd::prelude::*;

verus! {

#[verifier::external_type_specification]
#[verifier::external_body]
#[verifier::reject_recursive_types(K)]
#[verifier::reject_recursive_types(V)]
#[verifier::reject_recursive_types(S)]
pub struct ExIndexMap<K, V, S>(IndexMap<K, V, S>);

/// The key-value pairs that the map holds, in the order of their indices.
pub uninterp spec fn spec_stacks(items: IndexMap<String, Vec<Entity>>) -> Seq<(Seq<char>, Seq<Entity>)>;

/// The index of the first of the first `n` stacks that is called `name`.
pub open spec fn spec_find(stacks: Seq<(Seq<char>, Seq<Entity>)>, name: Seq<char>, n: int) -> Option<int>
    decreases n,
{
    if n <= 0 {
        None
    } else {
        match spec_find(stacks, name, n - 1) {
            Some(i) => Some(i),
            None => if stacks[n - 1].0 == name {
                Some(n - 1)
            } else {
                None
            },
        }
    }
}

/// The index of the stack called `name`.
pub open spec fn spec_index_of(stacks: Seq<(Seq<char>, Seq<Entity>)>, name: Seq<char>) -> Option<int> {
    spec_find(stacks, name, stacks.len() as int)
}

/// No two stacks have the same name.
pub open spec fn spec_names_distinct(stacks: Seq<(Seq<char>, Seq<Entity>)>) -> bool {
    forall|i: int, j: int| 0 <= i < j < stacks.len() ==> (#[trigger] stacks[i]).0 != (#[trigger] stacks[j]).0
}

/// No stack is empty.
pub open spec fn spec_none_empty(stacks: Seq<(Seq<char>, Seq<Entity>)>) -> bool {
    forall|i: int| 0 <= i < stacks.len() ==> (#[trigger] stacks[i]).1.len() > 0
}

/// The stacks once `item` has joined the stack called `name`: at the end of
/// that stack, or as a new stack after all others.
pub open spec fn spec_added(stacks: Seq<(Seq<char>, Seq<Entity>)>, name: Seq<char>, item: Entity) -> Seq<
    (Seq<char>, Seq<Entity>),
> {
    match spec_index_of(stacks, name) {
        Some(i) => stacks.update(i, (name, stacks[i].1.push(item))),
        None => stacks.push((name, seq![item])),
    }
}

/// The stacks once the last item has left the stack called `name`; the
/// stack goes with its last item.
pub open spec fn spec_last_taken(stacks: Seq<(Seq<char>, Seq<Entity>)>, name: Seq<char>) -> Seq<
    (Seq<char>, Seq<Entity>),
> {
    match spec_index_of(stacks, name) {
        Some(i) => if stacks[i].1.len() <= 1 {
            stacks.remove(i)
        } else {
            stacks.update(i, (name, stacks[i].1.drop_last()))
        },
        None => stacks,
    }
}

/// The stacks once the first item has left the stack called `name`; the
/// stack goes with its last item.
pub open spec fn spec_first_taken(stacks: Seq<(Seq<char>, Seq<Entity>)>, name: Seq<char>) -> Seq<
    (Seq<char>, Seq<Entity>),
> {
    match spec_index_of(stacks, name) {
        Some(i) => if stacks[i].1.len() <= 1 {
            stacks.remove(i)
        } else {
            stacks.update(i, (name, stacks[i].1.drop_first()))
        },
        None => stacks,
    }
}

/// Whether taking an item from the stack called `name` leaves no such
/// stack behind.
pub open spec fn spec_stack_ends(stacks: Seq<(Seq<char>, Seq<Entity>)>, name: Seq<char>) -> bool {
    match spec_index_of(stacks, name) {
        Some(i) => stacks[i].1.len() <= 1,
        None => true,
    }
}

/// `IndexMap::new`: a map that holds nothing.
#[verifier::external_body]
fn stacks_new() -> (items: IndexMap<String, Vec<Entity>>)
    ensures
        spec_stacks(items) == Seq::<(Seq<char>, Seq<Entity>)>::empty(),
{
    IndexMap::new()
}

/// `IndexMap::len`: the number of pairs held.
#[verifier::external_body]
fn stacks_len(items: &IndexMap<String, Vec<Entity>>) -> (n: usize)
    ensures
        n == spec_stacks(*items).len(),
{
    items.len()
}

/// `IndexMap::get_index_of`: the index of the pair whose key is `name`, or
/// nothing where no pair has that key.
#[verifier::external_body]
fn stacks_index_of(items: &IndexMap<String, Vec<Entity>>, name: &str) -> (at: Option<usize>)
    ensures
        match at {
            Some(i) => spec_index_of(spec_stacks(*items), name@) == Some(i as int),
            None => spec_index_of(spec_stacks(*items), name@) is None,
        },
{
    items.get_index_of(name)
}

/// `IndexMap::get_index`: a copy of the pair at `index`, or nothing where
/// `index` is not below the number of pairs.
#[verifier::external_body]
fn stacks_get(items: &IndexMap<String, Vec<Entity>>, index: usize) -> (pair: Option<(String, Vec<Entity>)>)
    ensures
        match pair {
            Some(p) => index < spec_stacks(*items).len() && p.0@ == spec_stacks(*items)[index as int].0 && p.1@
                == spec_stacks(*items)[index as int].1,
            None => index >= spec_stacks(*items).len(),
        },
{
    items.get_index(index).map(|(k, v)| (k.clone(), v.clone()))
}

/// `IndexMap::insert`: where a pair has the key `name`, its value becomes
/// `stack`, its place stays and the old value is returned; otherwise the
/// pair is added after all others and nothing is returned.
#[verifier::external_body]
fn stacks_insert(items: &mut IndexMap<String, Vec<Entity>>, name: String, stack: Vec<Entity>) -> (old_stack: Option<
    Vec<Entity>,
>)
    ensures
        match spec_index_of(spec_stacks(*old(items)), name@) {
            Some(i) => spec_stacks(*final(items)) == spec_stacks(*old(items)).update(i, (name@, stack@)) && (
            old_stack matches Some(v) && v@ == spec_stacks(*old(items))[i].1),
            None => spec_stacks(*final(items)) == spec_stacks(*old(items)).push((name@, stack@)) && old_stack is None,
        },
{
    items.insert(name, stack)
}

/// `IndexMap::shift_remove`: where a pair has the key `name`, it is taken
/// out, the pairs after it move up by one, and its value is returned;
/// otherwise nothing changes and nothing is returned.
#[verifier::external_body]
fn stacks_shift_remove(items: &mut IndexMap<String, Vec<Entity>>, name: &str) -> (old_stack: Option<Vec<Entity>>)
    ensures
        match spec_index_of(spec_stacks(*old(items)), name@) {
            Some(i) => spec_stacks(*final(items)) == spec_stacks(*old(items)).remove(i) && (
            old_stack matches Some(v) && v@ == spec_stacks(*old(items))[i].1),
            None => spec_stacks(*final(items)) == spec_stacks(*old(items)) && old_stack is None,
        },
{
    items.shift_remove(name)
}

/// Where a stack is found it is called `name`, and where none is found no
/// stack is called `name`.
pub proof fn lemma_find(stacks: Seq<(Seq<char>, Seq<Entity>)>, name: Seq<char>, n: int)
    requires
        0 <= n <= stacks.len(),
    ensures
        match spec_find(stacks, name, n) {
            Some(i) => 0 <= i < n && stacks[i].0 == name && forall|j: int| 0 <= j < i ==> stacks[j].0 != name,
            None => forall|j: int| 0 <= j < n ==> stacks[j].0 != name,
        },
    decreases n,
{
    if n > 0 {
        lemma_find(stacks, name, n - 1);
    }
}

/// Gold and stacks of items, with the stack that is selected in a listing.
pub struct Inventory {
    pub gold: i32,
    pub items: IndexMap<String, Vec<Entity>>,
    pub index: usize,
}

impl View for Inventory {
    type V = Seq<(Seq<char>, Seq<Entity>)>;

    /// The stacks: each a name and the items of that name, in the order in
    /// which the names came into the inventory.
    open spec fn view(&self) -> Seq<(Seq<char>, Seq<Entity>)> {
        spec_stacks(self.items)
    }
}

impl Inventory {
    /// No two stacks share a name, and no stack is empty.
    pub open spec fn wf(&self) -> bool {
        spec_names_distinct(self@) && spec_none_empty(self@)
    }

    /// An inventory without gold or items.
    pub fn new() -> (inventory: Inventory)
        ensures
            inventory@.len() == 0,
            inventory.gold == 0,
            inventory.index == 0,
            inventory.wf(),
    {
        Inventory { gold: 0, items: stacks_new(), index: 0 }
    }

    /// Whether no two stacks share a name and no stack is empty.
    pub fn is_wf(&self) -> (ok: bool)
        ensures
            ok == self.wf(),
    {
        let n: usize = stacks_len(&self.items);
        let mut i: usize = 0;
        while i < n
            invariant
                i <= n,
                n == self@.len(),
                forall|a: int| 0 <= a < i ==> (#[trigger] self@[a]).1.len() > 0,
                forall|a: int| 0 <= a < i ==> spec_index_of(self@, (#[trigger] self@[a]).0) == Some(a),
            decreases n - i,
        {
            match stacks_get(&self.items, i) {
                Some(stack) => {
                    if stack.1.len() == 0 {
                        assert(self@[i as int].1.len() == 0);
                        return false;
                    }
                    let at: Option<usize> = stacks_index_of(&self.items, stack.0.as_str());
                    proof {
                        lemma_find(self@, stack.0@, self@.len() as int);
                        assert(self@[i as int].0 == stack.0@);
                    }
                    match at {
                        Some(first) => {
                            if first != i {
                                assert(self@[first as int].0 == self@[i as int].0);
                                return false;
                            }
                        },
                        None => {
                            return false;
                        },
                    }
                },
                None => {
                    return false;
                },
            }
            i += 1;
        }
        proof {
            assert forall|a: int, b: int| 0 <= a < b < self@.len() implies (#[trigger] self@[a]).0 != (
            #[trigger] self@[b]).0 by {
                lemma_find(self@, self@[b].0, self@.len() as int);
            }
        }
        true
    }

    /// Number of stacks.
    pub fn len(&self) -> (n: usize)
        ensures
            n == self@.len(),
    {
        stacks_len(&self.items)
    }

    /// The name and the items of the stack at `index`.
    pub fn stack_at(&self, index: usize) -> (stack: Option<(String, Vec<Entity>)>)
        ensures
            match stack {
                Some(s) => index < self@.len() && s.0@ == self@[index as int].0 && s.1@ == self@[index as int].1,
                None => index >= self@.len(),
            },
    {
        stacks_get(&self.items, index)
    }

    /// The first item of the stack at `index`.
    pub fn first_at(&self, index: usize) -> (item: Option<Entity>)
        ensures
            item == (if index < self@.len() && self@[index as int].1.len() > 0 {
                Some(self@[index as int].1[0])
            } else {
                None
            }),
    {
        match stacks_get(&self.items, index) {
            Some(pair) => {
                if pair.1.len() > 0 {
                    Some(pair.1[0])
                } else {
                    None
                }
            },
            None => None,
        }
    }

    /// Puts `item` on the stack called `name`, which is started after all
    /// other stacks where there is none yet.
    pub fn add(&mut self, name: &str, item: Entity)
        requires
            old(self).wf(),
        ensures
            final(self)@ == spec_added(old(self)@, name@, item),
            final(self).wf(),
            final(self).gold == old(self).gold,
            final(self).index == old(self).index,
    {
        proof {
            lemma_find(self@, name@, self@.len() as int);
        }
        let mut stack: Vec<Entity> = match stacks_index_of(&self.items, name) {
            Some(i) => {
                match stacks_get(&self.items, i) {
                    Some(pair) => pair.1,
                    None => Vec::new(),
                }
            },
            None => Vec::new(),
        };
        stack.push(item);
        let _ = stacks_insert(&mut self.items, String::from_str(name), stack);
        proof {
            let before = old(self)@;
            let after = self@;
            match spec_index_of(before, name@) {
                Some(i) => {
                    assert(after =~= before.update(i, (name@, before[i].1.push(item))));
                },
                None => {
                    assert(Seq::<Entity>::empty().push(item) =~= seq![item]);
                },
            }
        }
    }

    /// Takes the last item off the stack called `name` and hands it back.
    /// A stack left empty is removed at once. Where that ends the stack, or
    /// there was none, the selection moves up by one unless it is at the top.
    pub fn take_last(&mut self, name: &str) -> (item: Option<Entity>)
        requires
            old(self).wf(),
        ensures
            final(self)@ == spec_last_taken(old(self)@, name@),
            final(self).wf(),
            final(self).gold == old(self).gold,
            final(self).index == (if spec_stack_ends(old(self)@, name@) && old(self).index > 0 {
                (old(self).index - 1) as usize
            } else {
                old(self).index
            }),
            item == (match spec_index_of(old(self)@, name@) {
                Some(i) => Some(old(self)@[i].1.last()),
                None => None,
            }),
    {
        proof {
            lemma_find(self@, name@, self@.len() as int);
        }
        let mut taken: Option<Entity> = None;
        let mut ends: bool = true;
        match stacks_index_of(&self.items, name) {
            Some(i) => {
                match stacks_get(&self.items, i) {
                    Some(pair) => {
                        let mut stack: Vec<Entity> = pair.1;
                        taken = stack.pop();
                        if stack.len() > 0 {
                            ends = false;
                            let _ = stacks_insert(&mut self.items, String::from_str(name), stack);
                        } else {
                            let _ = stacks_shift_remove(&mut self.items, name);
                        }
                    },
                    None => {},
                }
            },
            None => {},
        }
        if ends && self.index > 0 {
            self.index = self.index - 1;
        }
        taken
    }

    /// Takes the first item off the stack called `name` and hands it back.
    /// A stack left empty is removed at once.
    pub fn take_first(&mut self, name: &str) -> (item: Option<Entity>)
        requires
            old(self).wf(),
        ensures
            final(self)@ == spec_first_taken(old(self)@, name@),
            final(self).wf(),
            final(self).gold == old(self).gold,
            final(self).index == old(self).index,
            item == (match spec_index_of(old(self)@, name@) {
                Some(i) => Some(old(self)@[i].1[0]),
                None => None,
            }),
    {
        proof {
            lemma_find(self@, name@, self@.len() as int);
        }
        match stacks_index_of(&self.items, name) {
            Some(i) => {
                match stacks_get(&self.items, i) {
                    Some(pair) => {
                        let mut stack: Vec<Entity> = pair.1;
                        let first: Entity = stack.remove(0);
                        assert(stack@ =~= old(self)@[i as int].1.drop_first());
                        if stack.len() > 0 {
                            let _ = stacks_insert(&mut self.items, String::from_str(name), stack);
                        } else {
                            let _ = stacks_shift_remove(&mut self.items, name);
                        }
                        Some(first)
                    },
                    None => None,
                }
            },
            None => None,
        }
    }

    /// Moves the selection up by one stack, unless it is at the top.
    pub fn select_previous(&mut self)
        ensures
            final(self)@ == old(self)@,
            final(self).gold == old(self).gold,
            final(self).index == (if old(self).index > 0 {
                (old(self).index - 1) as usize
            } else {
                old(self).index
            }),
    {
        if self.index > 0 {
            self.index = self.index - 1;
        }
    }

    /// Moves the selection down by one stack, unless it is at the bottom.
    pub fn select_next(&mut self)
        ensures
            final(self)@ == old(self)@,
            final(self).gold == old(self).gold,
            final(self).index == (if old(self).index + 1 < old(self)@.len() {
                (old(self).index + 1) as usize
            } else {
                old(self).index
            }),
    {
        let n: usize = self.len();
        if self.index < n && self.index + 1 < n {
            self.index = self.index + 1;
        }
    }
}

} // verus!
