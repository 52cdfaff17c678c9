pub mod input;
pub mod screen_size;
