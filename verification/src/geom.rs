//! Geometry on a two-dimensional integer grid: directions and rotations,
//! clipped neighborhoods and beams, distances.

pub mod convert;
pub mod dirns;
pub mod neighbors;
pub mod window;

pub use self::convert::ConvertInto;
pub use self::dirns::{Dirn, Rot, DIRNS, FACINGS};
pub use self::neighbors::{
    manhattan_distance, neighbors4, neighbors8, Beam, GridBox, Neighbors,
};
