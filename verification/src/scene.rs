pub mod components;
pub mod hierarchy;
