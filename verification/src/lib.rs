//! Generates centered crop rectangles for a fixed catalog of aspect ratios,
//! derives painting metadata from image filenames, and accumulates the
//! results into a manifest with a verified JSON encoding.

pub mod aspect_ratio;
pub mod crop;
pub mod filename;
pub mod json;
pub mod painting;
pub mod text;
