use vstd::prelude::*;

use crate::common::InterpolationKind;
use crate::constants::celestial_objects::SOLAR_SYSTEM_BARYCENTER;

verus! {

/// One record of a catalog: its hash, the hash of the parent it is expressed
/// relative to, and the run of segments it owns in the segment table.
#[derive(Clone, Copy, Debug, PartialEq, Eq, Structural)]
pub struct Ephemeris {
    pub hash: u32,
    pub parent_ephemeris_hash: u32,
    pub first_segment: u32,
    pub segment_count: u32,
}

/// A closed epoch interval with the kind and place of its coefficients. Epochs
/// are signed counts of milliseconds past the reference epoch of the store.
#[derive(Clone, Copy, Debug, PartialEq, Eq, Structural)]
pub struct Segment {
    pub start_epoch: i64,
    pub end_epoch: i64,
    pub kind: InterpolationKind,
    pub coeff_offset: u32,
    pub coeff_len: u32,
}

/// Bytes of one coefficient: a little-endian 64-bit float.
pub const COEFF_SIZE: u32 = 8;

/// Whether `len` bytes of coefficients have the shape that `kind` reads:
/// series and polynomials hold three axes of equally many coefficients; Hermite
/// knots hold an epoch, a position and a velocity; Lagrange samples hold an epoch
/// and a position; trigonometric series hold, per axis, an offset and any number
/// of (amplitude, frequency, phase) terms.
pub open spec fn payload_fits(kind: InterpolationKind, len: u32) -> bool {
    if kind.0 == InterpolationKind::CHEBYSHEV_SERIES || kind.0 == InterpolationKind::POLYNOMIAL {
        len > 0 && len as int % (3 * COEFF_SIZE as int) == 0
    } else if kind.0 == InterpolationKind::HERMITE_SERIES {
        len > 0 && len as int % (7 * COEFF_SIZE as int) == 0
    } else if kind.0 == InterpolationKind::LAGRANGE_SERIES {
        len > 0 && len as int % (4 * COEFF_SIZE as int) == 0
    } else if kind.0 == InterpolationKind::TRIGONOMETRIC {
        len >= 3 * COEFF_SIZE && len as int % (9 * COEFF_SIZE as int) == 3 * COEFF_SIZE
    } else {
        false
    }
}

/// Checks the shape of a coefficient payload.
pub fn check_payload(kind: InterpolationKind, len: u32) -> (r: bool)
    ensures
        r == payload_fits(kind, len),
{
    if kind.0 == InterpolationKind::CHEBYSHEV_SERIES || kind.0 == InterpolationKind::POLYNOMIAL {
        len > 0 && len % (3 * COEFF_SIZE) == 0
    } else if kind.0 == InterpolationKind::HERMITE_SERIES {
        len > 0 && len % (7 * COEFF_SIZE) == 0
    } else if kind.0 == InterpolationKind::LAGRANGE_SERIES {
        len > 0 && len % (4 * COEFF_SIZE) == 0
    } else if kind.0 == InterpolationKind::TRIGONOMETRIC {
        len >= 3 * COEFF_SIZE && len % (9 * COEFF_SIZE) == 3 * COEFF_SIZE
    } else {
        false
    }
}

impl Segment {
    /// The interval is not reversed, the kind is known, and the coefficients have
    /// the shape of the kind and lie within a buffer of `buf_len` bytes.
    pub open spec fn valid(self, buf_len: int) -> bool {
        &&& self.start_epoch <= self.end_epoch
        &&& self.kind.is_known()
        &&& payload_fits(self.kind, self.coeff_len)
        &&& self.coeff_offset + self.coeff_len <= buf_len
    }

    /// Whether `epoch` lies in the closed interval of the segment.
    pub open spec fn covers(self, epoch: i64) -> bool {
        self.start_epoch <= epoch <= self.end_epoch
    }
}

impl Ephemeris {
    /// The record does not claim the root's reserved hash, and owns at least one
    /// segment, all inside a table of `n_segments`.
    pub open spec fn valid(self, n_segments: int) -> bool {
        &&& self.hash != SOLAR_SYSTEM_BARYCENTER
        &&& self.segment_count >= 1
        &&& self.first_segment + self.segment_count <= n_segments
    }
}

/// Every segment of `segs` is valid for a buffer of `buf_len` bytes.
pub open spec fn segments_valid(segs: Seq<Segment>, buf_len: int) -> bool {
    forall|i: int| 0 <= i < segs.len() ==> (#[trigger] segs[i]).valid(buf_len)
}

/// Every record of `recs` is valid for a table of `n_segments` segments.
pub open spec fn records_valid(recs: Seq<Ephemeris>, n_segments: int) -> bool {
    forall|i: int| 0 <= i < recs.len() ==> (#[trigger] recs[i]).valid(n_segments)
}

/// Checks every segment against a buffer of `buf_len` bytes.
pub fn check_segments(segs: &Vec<Segment>, buf_len: usize) -> (r: bool)
    ensures
        r == segments_valid(segs@, buf_len as int),
{
    let mut i: usize = 0;
    while i < segs.len()
        invariant
            i <= segs@.len(),
            forall|k: int| 0 <= k < i ==> (#[trigger] segs@[k]).valid(buf_len as int),
        decreases segs@.len() - i,
    {
        let s = segs[i];
        if s.start_epoch > s.end_epoch || s.kind.0 > InterpolationKind::ENUM_MAX
            || !check_payload(s.kind, s.coeff_len) || s.coeff_offset as u64 + s.coeff_len as u64 > buf_len as u64 {
            assert(!segs@[i as int].valid(buf_len as int));
            return false;
        }
        i = i + 1;
    }
    true
}

/// Checks every record against a table of `n_segments` segments.
pub fn check_records(recs: &Vec<Ephemeris>, n_segments: usize) -> (r: bool)
    ensures
        r == records_valid(recs@, n_segments as int),
{
    let mut i: usize = 0;
    while i < recs.len()
        invariant
            i <= recs@.len(),
            forall|k: int| 0 <= k < i ==> (#[trigger] recs@[k]).valid(n_segments as int),
        decreases recs@.len() - i,
    {
        let e = recs[i];
        if e.hash == SOLAR_SYSTEM_BARYCENTER || e.segment_count == 0 || e.first_segment as u64 + e.segment_count as u64
            > n_segments as u64 {
            assert(!recs@[i as int].valid(n_segments as int));
            return false;
        }
        i = i + 1;
    }
    true
}

} // verus!
