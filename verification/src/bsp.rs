pub mod bounding_box;
pub mod triangle;
