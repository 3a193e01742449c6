//! The simulation engine of a turn-based roguelike: dungeon generation,
//! spatial indexing, visibility, pursuit, targeting, combat and levelling,
//! as functions over explicit component tables.

pub mod combat;
pub mod component;
pub mod config;
pub mod dice;
pub mod dungeon;
pub mod floor;
pub mod generate;
pub mod logbook;
pub mod geometry;
pub mod inventory;
pub mod map;
pub mod player;
pub mod random;
pub mod readiness;
pub mod random_table;
pub mod sight;
pub mod spawn;
pub mod stage;
pub mod system;
pub mod tick;
pub mod trading;
pub mod turn;
pub mod world;
