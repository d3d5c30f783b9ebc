//! Terrain streaming and combat rules for a tractor-defence game, with
//! machine-checked contracts.

pub mod bullet;
pub mod health;
pub mod level;
pub mod saw;
pub mod scatter;
pub mod score;
pub mod terrain;
pub mod timer;
pub mod turret;
pub mod turret_aiming;
pub mod upgrades;
