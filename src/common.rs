use vstd::prelude::*;

verus! {

/// The interpolation scheme of a segment, stored as its one-byte tag.
#[derive(Clone, Copy, Debug, PartialEq, Eq, Structural)]
pub struct InterpolationKind(pub u8);

impl InterpolationKind {
    pub const CHEBYSHEV_SERIES: u8 = 0;
    pub const HERMITE_SERIES: u8 = 1;
    pub const LAGRANGE_SERIES: u8 = 2;
    pub const POLYNOMIAL: u8 = 3;
    pub const TRIGONOMETRIC: u8 = 4;
    /// The largest tag that names a kind.
    pub const ENUM_MAX: u8 = 4;

    /// Whether the tag names one of the five kinds.
    pub open spec fn is_known(self) -> bool {
        self.0 <= Self::ENUM_MAX
    }

    /// Returns the variant's name, or `None` if the tag is unknown.
    pub fn variant_name(self) -> (r: Option<&'static str>)
        ensures
            r.is_some() <==> self.is_known(),
            self.0 == Self::CHEBYSHEV_SERIES ==> r == Some("ChebyshevSeries"),
            self.0 == Self::HERMITE_SERIES ==> r == Some("HermiteSeries"),
            self.0 == Self::LAGRANGE_SERIES ==> r == Some("LagrangeSeries"),
            self.0 == Self::POLYNOMIAL ==> r == Some("Polynomial"),
            self.0 == Self::TRIGONOMETRIC ==> r == Some("Trigonometric"),
    {
        match self.0 {
            0 => Some("ChebyshevSeries"),
            1 => Some("HermiteSeries"),
            2 => Some("LagrangeSeries"),
            3 => Some("Polynomial"),
            4 => Some("Trigonometric"),
            _ => None,
        }
    }
}

/// Three little-endian 64-bit floats (x, y, z), kept as their 24 raw bytes.
#[derive(Clone, Copy, Debug)]
pub struct Vector3(pub [u8; 24]);

/// Four little-endian 64-bit floats (w, x, y, z), kept as their 32 raw bytes.
#[derive(Clone, Copy, Debug)]
pub struct Quaternion(pub [u8; 32]);

} // verus!
