pub mod components;
pub mod constants;
pub mod entities;
pub mod events;
pub mod map;
pub mod resources;
pub mod spatial;
pub mod store;
pub mod systems;
