//! Overlays for a uniformly sized, virtualized list: the geometry of indent
//! guides and the pointer handling of a scrollbar.

pub mod guide_vec;
pub mod indent_guides;
pub mod scrollbar;
