//! The float-free core of a recursive ray tracer: shape identity and the
//! shape hierarchy, hit selection, the refractive-media walk, pattern band
//! selection, the recursion-depth rule and PPM text layout.

pub mod canvas;
pub mod hierarchy;
pub mod ids;
pub mod intersection;
pub mod patterns;
pub mod shading;

pub use canvas::ppm_text;
pub use hierarchy::{ShapeContainer, ShapeNode};
pub use ids::ShapeId;
pub use intersection::{time_key, Intersection};
pub use patterns::TestPattern;
