pub mod heatmap;
pub mod shapes;

pub use heatmap::Heatmap;
pub use shapes::Shape;
