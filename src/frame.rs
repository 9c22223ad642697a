use vstd::prelude::*;

verus! {

/// A frame: the hash of its ephemeris center and the hash of its orientation.
/// Two frames are equal iff both hashes match.
#[derive(Clone, Copy, Debug, PartialEq, Eq, Structural)]
pub struct Frame {
    pub ephemeris_hash: u32,
    pub orientation_hash: u32,
}

impl Frame {
    /// Builds the frame centered on `ephemeris_hash` with orientation `orientation_hash`.
    pub fn from_ephem_orient(ephemeris_hash: u32, orientation_hash: u32) -> (r: Frame)
        ensures
            r.ephemeris_hash == ephemeris_hash,
            r.orientation_hash == orientation_hash,
    {
        Frame { ephemeris_hash, orientation_hash }
    }
}

} // verus!
