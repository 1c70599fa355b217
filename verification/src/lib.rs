//! Content-aware image resizing primitives: seam carving.
//!
//! The pipeline works on row-major flat arrays addressed by `y * width + x`:
//! an RGB pixel buffer becomes a fixed-point luminance field, a gradient
//! magnitude (edge energy) field, a bottom-up minimum-cumulative-energy
//! field, and finally vertical seams: per-row column indices of the cheapest
//! top-to-bottom path, extracted repeatedly while the field narrows.
pub mod edge_detect;
pub mod grid;
pub mod seam_find;

pub use edge_detect::edge_detect;
pub use edge_detect::intensity_from_rgb;
pub use edge_detect::rgb_to_intensity;
pub use seam_find::find_all_vert_seams;
pub use seam_find::find_n_vert_seams;
pub use seam_find::find_vert_seam;
pub use seam_find::min_vert_energy;
