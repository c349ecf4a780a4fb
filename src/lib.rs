//! Drawing meshes through an angle-preserving camera: the topology of
//! meshes whose faces share their edges, the adaptive approximation of an
//! edge's screen curve, the plan of a frame, and the stencil fill of faces.
//! The numeric geometry (positions, projection, distances) comes in as
//! plain functions, so that what is proved here holds for any of them.
pub mod assembly;
pub mod condense;
pub mod curve;
pub mod fill;
pub mod frame;
pub mod mesh;
