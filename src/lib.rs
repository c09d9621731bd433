pub mod error;
pub mod vec2;
pub mod bezier;
pub mod transform;
pub mod output_lines;
pub mod interp;
pub mod drawing;
