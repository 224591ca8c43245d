//! Discrete rules of the Gaia Maker planet game.
pub mod animal_id;
pub mod defs;
pub mod tutorial;
pub mod war;
pub mod start_planet;
pub mod exodus;
pub mod plague;
pub mod savefile;
pub mod geom;
pub mod reports;
pub mod events;
pub mod tile_events;
pub mod planet;
pub mod requirement;
pub mod achivement;
pub mod achivement_save;
pub mod platform;
pub mod assets;
pub mod sim_control;
pub mod text;
