//! Hashes of well-known bodies and orientations.
pub mod celestial_objects;
pub mod orientations;
