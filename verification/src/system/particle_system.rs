//! The sweep that ends short-lived visuals once their time is up.

use crate::component::{Entity, Lifetime, Table};
use vstd::prelude::*;

verus! {

/// The lifetime has run out at `now_ms`: more than its duration has passed
/// since it began.
pub open spec fn spec_expired(lifetime: Lifetime, now_ms: int) -> bool {
    now_ms - lifetime.created_at > lifetime.lifetime_ms
}

/// Entity `e` has a lifetime and it has run out.
pub open spec fn spec_expires(lifetimes: Seq<Option<Lifetime>>, now_ms: int, e: int) -> bool {
    0 <= e < lifetimes.len() && (lifetimes[e] matches Some(l) && spec_expired(l, now_ms))
}

pub struct ParticleSystem {}

impl ParticleSystem {
    /// The entities whose lifetime has run out at `now_ms`, in the order of
    /// their identifiers: those that the caller has to remove. A lifetime
    /// that begins after `now_ms` has not run out.
    pub fn run(&self, lifetimes: &Table<Lifetime>, now_ms: u128) -> (expired: Vec<Entity>)
        ensures
            forall|a: int, b: int| 0 <= a < b < expired@.len() ==> expired@[a].id < expired@[b].id,
            forall|k: int| 0 <= k < expired@.len() ==> spec_expires(lifetimes@, now_ms as int, (#[trigger] expired@[k]).id as int),
            forall|e: int|
                #[trigger] spec_expires(lifetimes@, now_ms as int, e) ==> expired@.contains(Entity { id: e as usize }),
    {
        let mut expired: Vec<Entity> = Vec::new();
        let mut i: usize = 0;
        while i < lifetimes.len()
            invariant
                i <= lifetimes.len(),
                forall|a: int, b: int| 0 <= a < b < expired@.len() ==> expired@[a].id < expired@[b].id,
                forall|k: int|
                    0 <= k < expired@.len() ==> spec_expires(
                        lifetimes@,
                        now_ms as int,
                        (#[trigger] expired@[k]).id as int,
                    ) && expired@[k].id < i,
                forall|e: int|
                    e < i && #[trigger] spec_expires(lifetimes@, now_ms as int, e) ==> expired@.contains(
                        Entity { id: e as usize },
                    ),
            decreases lifetimes.len() - i,
        {
            let ghost before = expired@;
            let mut over: bool = false;
            match lifetimes[i] {
                Some(l) => {
                    if now_ms >= l.created_at {
                        over = now_ms - l.created_at > l.lifetime_ms;
                    }
                },
                None => {},
            }
            if over {
                expired.push(Entity { id: i });
                assert(expired@[before.len() as int] == Entity { id: i });
            }
            proof {
                assert forall|e: int|
                    e < i + 1 && #[trigger] spec_expires(lifetimes@, now_ms as int, e) implies expired@.contains(
                    Entity { id: e as usize },
                ) by {
                    if e < i {
                        let k = choose|k: int| 0 <= k < before.len() && before[k] == Entity { id: e as usize };
                        assert(expired@[k] == Entity { id: e as usize });
                    }
                }
            }
            i += 1;
        }
        expired
    }
}

} // verus!
