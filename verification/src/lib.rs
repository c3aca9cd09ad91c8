pub mod color;
pub mod lines;
pub mod materials;
