pub mod commands;
pub mod event_bus;
