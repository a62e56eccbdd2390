pub mod detector;
pub mod image;
