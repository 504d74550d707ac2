pub mod ai;
pub mod fov;
pub mod game;
pub mod map_gen;
pub mod num;
pub mod object;
pub mod object_gen;
pub mod rng;
pub mod tile;
