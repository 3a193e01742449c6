//! The systems that make up one tick of the simulation, each a function over
//! the component tables it reads and writes.

pub mod map_indexing_system;
pub mod melee_combat_system;
pub mod damage_system;
pub mod experience_system;
pub mod visibility_system;
pub mod monster_system;
pub mod ranged_combat_system;
pub mod particle_system;
pub mod trigger_system;
pub mod inventory_system;
