//! Boustrophedon coverage planning for simple polygons.
//!
//! Given a polygon and a swath width, the planner lays parallel swath lines
//! across the polygon, intersects each line with the polygon boundary,
//! pairs the crossings into segments and stitches the segments into one
//! back-and-forth path. All arithmetic is exact.
pub mod geometry;
pub mod polygon;
pub mod swath;
pub mod crossing;
pub mod order;
pub mod stitch;
pub mod planner;
pub mod markdown;

pub use markdown::md_to_html;
pub use planner::{compute_shortest_path, DEFAULT_SWATH_WIDTH};
