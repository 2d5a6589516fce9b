pub mod event_system;
pub mod gameplay_state_system;
pub mod input_system;
pub mod rendering_system;
