//! Instanced drawing core of a small 2D engine.
//!
//! Every quantity that the graphics card later reads as a real number is held
//! here as a fixed-point `i64` that counts millionths (see [`scalar`]).

pub mod scalar;
pub mod color;
pub mod data;
pub mod collision;
pub mod transform;
pub mod image;
pub mod backend;
pub mod instanced;
pub mod container;
pub mod seed;
pub mod pathfinding;
pub mod event;
pub mod mouse;
pub mod tilemap;
pub mod layer;
pub mod csv;
pub mod file;
pub mod installation;
pub mod shader;
pub mod text;
pub mod font;
