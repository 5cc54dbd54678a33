//! Line-level diffing, patch classification, diff planning and theme handling
//! for a code editor's version-control and appearance layers.

pub mod text;
pub mod lcs;
pub mod diff_lines;
pub mod patch;
pub mod changes;
pub mod theme;
