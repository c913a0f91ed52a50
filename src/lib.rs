//! Block-matching motion estimation between two RGB frames.
//!
//! A frame is cut into square blocks; for each block an exhaustive search over a
//! square window of displacements picks the candidate with the smallest sum of
//! absolute differences, the first one in scan order on ties. The result is a
//! motion-vector field holding one `(dx, dy)` pair per block.
pub mod frame;
pub mod matching;
pub mod field;
pub mod estimate;
pub mod laws;
