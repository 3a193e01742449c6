//! The floors generated so far, kept so that a floor revisited is the floor
//! that was left.

use crate::map::GameMap;
use std::collections::HashMap;
use vstd::prelude::*;

verus! {

/// The floors generated so far, each under its index.
pub struct Dungeon {
    pub maps: HashMap<u32, GameMap>,
}

impl Dungeon {
    /// The floor kept under `index`, if there is one.
    pub open spec fn spec_get(&self, index: u32) -> Option<GameMap> {
        if self.maps@.contains_key(index) {
            Some(self.maps@[index])
        } else {
            None
        }
    }

    /// Every floor kept is well-formed and is kept under its own index.
    pub open spec fn wf(&self) -> bool {
        forall|index: u32| #[trigger]
            self.maps@.contains_key(index) ==> self.maps@[index].wf() && self.maps@[index].index == index
    }

    /// A dungeon in which no floor has been generated yet.
    pub fn new() -> (dungeon: Dungeon)
        ensures
            dungeon.maps@.len() == 0,
            dungeon.wf(),
            forall|index: u32| dungeon.spec_get(index) is None,
    {
        Dungeon { maps: HashMap::new() }
    }

    /// Keeps a copy of `map` under its index, in place of the floor kept
    /// under that index before, if there was one.
    pub fn add_map(&mut self, map: &GameMap)
        requires
            old(self).wf(),
            map.wf(),
        ensures
            final(self).wf(),
            final(self).spec_get(map.index) matches Some(kept) && kept.spec_equal(map),
            forall|index: u32| index != map.index ==> final(self).spec_get(index) == old(self).spec_get(index),
    {
        let copy: GameMap = map.clone();
        let _ = self.maps.insert(map.index, copy);
    }

    /// A copy of the floor kept under `index`, if there is one.
    pub fn get_map(&self, index: u32) -> (map: Option<GameMap>)
        requires
            self.wf(),
        ensures
            match map {
                Some(m) => self.spec_get(index) matches Some(kept) && m.spec_equal(&kept) && m.wf() && m.index
                    == index,
                None => self.spec_get(index) is None,
            },
    {
        match self.maps.get(&index) {
            Some(kept) => Some(kept.clone()),
            None => None,
        }
    }
}

} // verus!
