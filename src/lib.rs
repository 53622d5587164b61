pub mod map;
pub mod rect;
pub mod rng;
pub mod distance;
pub mod builder;
pub mod drunkard;
pub mod rooms;
pub mod automata;
pub mod components;
pub mod fov;
pub mod spawner;
pub mod turn;
pub mod template;
pub mod movement;
