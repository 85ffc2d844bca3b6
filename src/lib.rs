//! Articulated actors: a tree of rigid body parts joined by rotational
//! joints, and the compilation of such a tree into the operations that
//! populate a physics world.
//!
//! All quantities are fixed-point integers: one unit is a millionth of a
//! metre, of a radian or of a second (see [`geometry::SCALE`]).
use vstd::prelude::*;

pub mod geometry;
pub mod actor;
pub mod simulate;
