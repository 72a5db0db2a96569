pub mod components;
pub mod input;
pub mod hierarchy;
pub mod systems;
pub mod renderer;
pub mod world;
