pub mod direction;
pub mod fruit;
pub mod input;
pub mod pathfind;
pub mod pos;
pub mod rng;
pub mod snake;
pub mod world;
