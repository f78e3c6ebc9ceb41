//! Geodesic tile indexing and chunked tile storage for maps laid on a
//! subdivided icosahedron.

pub mod geodesic;
pub mod addressing;
pub mod storage;
pub mod cosmos;
pub mod tileset;
