use vstd::prelude::*;

use crate::bytes::{i64_at, read_i64, read_u32, u32_at};
use crate::common::InterpolationKind;
use crate::ephemeris::{
    check_records, check_segments, records_valid, segments_valid, Ephemeris, Segment,
};
use crate::errors::{AniseError, IntegrityErrorKind};
use crate::lut::{entries_point_at, strictly_sorted, LookupTable};

verus! {

/// The format/version tag that this reader supports.
pub const FORMAT_VERSION: u32 = 1;
/// Bytes of the header: the tag, then the five table lengths.
pub const HEADER_SIZE: usize = 24;
/// Bytes of one record: hash, parent hash, first segment, segment count.
pub const RECORD_SIZE: usize = 16;
/// Bytes of one lookup table entry: hash, catalog index.
pub const LUT_ENTRY_SIZE: usize = 8;
/// Bytes of one segment: start, end, kind tag and three bytes of padding,
/// coefficient offset, coefficient length.
pub const SEGMENT_SIZE: usize = 28;

// Layout of a store, all integers little-endian:
//   header: tag, #ephemeris records, #ephemeris LUT entries,
//           #orientation records, #orientation LUT entries, #segments (u32 each)
//   ephemeris records, ephemeris LUT, orientation records, orientation LUT,
//   segments, then the coefficient payload that segments point into.

pub open spec fn n_ephem(b: Seq<u8>) -> int {
    u32_at(b, 4) as int
}

pub open spec fn n_ephem_lut(b: Seq<u8>) -> int {
    u32_at(b, 8) as int
}

pub open spec fn n_orient(b: Seq<u8>) -> int {
    u32_at(b, 12) as int
}

pub open spec fn n_orient_lut(b: Seq<u8>) -> int {
    u32_at(b, 16) as int
}

pub open spec fn n_segments(b: Seq<u8>) -> int {
    u32_at(b, 20) as int
}

pub open spec fn ephem_lut_start(b: Seq<u8>) -> int {
    HEADER_SIZE + RECORD_SIZE * n_ephem(b)
}

pub open spec fn orient_start(b: Seq<u8>) -> int {
    ephem_lut_start(b) + LUT_ENTRY_SIZE * n_ephem_lut(b)
}

pub open spec fn orient_lut_start(b: Seq<u8>) -> int {
    orient_start(b) + RECORD_SIZE * n_orient(b)
}

pub open spec fn segments_start(b: Seq<u8>) -> int {
    orient_lut_start(b) + LUT_ENTRY_SIZE * n_orient_lut(b)
}

pub open spec fn tables_end(b: Seq<u8>) -> int {
    segments_start(b) + SEGMENT_SIZE * n_segments(b)
}

/// The record stored at `b[p..p + 16]`.
pub open spec fn record_at(b: Seq<u8>, p: int) -> Ephemeris {
    Ephemeris {
        hash: u32_at(b, p),
        parent_ephemeris_hash: u32_at(b, p + 4),
        first_segment: u32_at(b, p + 8),
        segment_count: u32_at(b, p + 12),
    }
}

/// The segment stored at `b[p..p + 28]`.
pub open spec fn segment_at(b: Seq<u8>, p: int) -> Segment {
    Segment {
        start_epoch: i64_at(b, p),
        end_epoch: i64_at(b, p + 8),
        kind: InterpolationKind(b[p + 16]),
        coeff_offset: u32_at(b, p + 20),
        coeff_len: u32_at(b, p + 24),
    }
}

pub open spec fn records_in(b: Seq<u8>, p: int, n: int) -> Seq<Ephemeris> {
    Seq::new(n as nat, |i: int| record_at(b, p + RECORD_SIZE * i))
}

pub open spec fn segments_in(b: Seq<u8>, p: int, n: int) -> Seq<Segment> {
    Seq::new(n as nat, |i: int| segment_at(b, p + SEGMENT_SIZE * i))
}

pub open spec fn lut_hashes_in(b: Seq<u8>, p: int, n: int) -> Seq<u32> {
    Seq::new(n as nat, |i: int| u32_at(b, p + LUT_ENTRY_SIZE * i))
}

pub open spec fn lut_indexes_in(b: Seq<u8>, p: int, n: int) -> Seq<u32> {
    Seq::new(n as nat, |i: int| u32_at(b, p + LUT_ENTRY_SIZE * i + 4))
}

/// A lookup table column pair is sorted, free of duplicates, and each entry
/// points at a record of `records` that carries the entry's hash.
pub open spec fn lut_valid(hashes: Seq<u32>, indexes: Seq<u32>, records: Seq<Ephemeris>) -> bool {
    &&& strictly_sorted(hashes)
    &&& entries_point_at(hashes, indexes, records)
}

pub open spec fn store_ephemerides(b: Seq<u8>) -> Seq<Ephemeris> {
    records_in(b, HEADER_SIZE as int, n_ephem(b))
}

pub open spec fn store_orientations(b: Seq<u8>) -> Seq<Ephemeris> {
    records_in(b, orient_start(b), n_orient(b))
}

pub open spec fn store_segments(b: Seq<u8>) -> Seq<Segment> {
    segments_in(b, segments_start(b), n_segments(b))
}

/// Why a buffer is not a well-formed store, checked in this order; `None` if it is one.
pub open spec fn store_error(b: Seq<u8>) -> Option<IntegrityErrorKind> {
    if b.len() < HEADER_SIZE {
        Some(IntegrityErrorKind::DataMissing)
    } else if u32_at(b, 0) != FORMAT_VERSION {
        Some(IntegrityErrorKind::UnsupportedVersion)
    } else if tables_end(b) > b.len() {
        Some(IntegrityErrorKind::DataMissing)
    } else if !segments_valid(store_segments(b), b.len() as int) {
        Some(IntegrityErrorKind::InvalidSegment)
    } else if !records_valid(store_ephemerides(b), n_segments(b)) || !records_valid(
        store_orientations(b),
        n_segments(b),
    ) {
        Some(IntegrityErrorKind::InvalidRecord)
    } else if !lut_valid(
        lut_hashes_in(b, ephem_lut_start(b), n_ephem_lut(b)),
        lut_indexes_in(b, ephem_lut_start(b), n_ephem_lut(b)),
        store_ephemerides(b),
    ) || !lut_valid(
        lut_hashes_in(b, orient_lut_start(b), n_orient_lut(b)),
        lut_indexes_in(b, orient_lut_start(b), n_orient_lut(b)),
        store_orientations(b),
    ) {
        Some(IntegrityErrorKind::LookupTable)
    } else {
        None
    }
}

/// A validated, read-only view over a store held in a borrowed buffer.
pub struct AniseContext<'a> {
    pub buf: &'a [u8],
    pub ephemeris_data: Vec<Ephemeris>,
    pub ephemeris_lut: LookupTable,
    pub orientation_data: Vec<Ephemeris>,
    pub orientation_lut: LookupTable,
    pub segments: Vec<Segment>,
}

impl<'a> AniseContext<'a> {
    /// Every index that a table gives names a record, every record owns valid
    /// segments, and every segment's coefficients lie in the buffer.
    pub open spec fn wf(&self) -> bool {
        &&& self.ephemeris_lut.wf()
        &&& self.ephemeris_lut.points_at(self.ephemeris_data@)
        &&& self.orientation_lut.wf()
        &&& self.orientation_lut.points_at(self.orientation_data@)
        &&& records_valid(self.ephemeris_data@, self.segments@.len() as int)
        &&& records_valid(self.orientation_data@, self.segments@.len() as int)
        &&& segments_valid(self.segments@, self.buf@.len() as int)
    }

    /// Whether this context is the decoding of the store held in `b`.
    pub open spec fn decodes(&self, b: Seq<u8>) -> bool {
        &&& self.buf@ == b
        &&& self.ephemeris_data@ == store_ephemerides(b)
        &&& self.orientation_data@ == store_orientations(b)
        &&& self.segments@ == store_segments(b)
        &&& self.ephemeris_lut.hashes@ == lut_hashes_in(b, ephem_lut_start(b), n_ephem_lut(b))
        &&& self.ephemeris_lut.indexes@ == lut_indexes_in(b, ephem_lut_start(b), n_ephem_lut(b))
        &&& self.orientation_lut.hashes@ == lut_hashes_in(
            b,
            orient_lut_start(b),
            n_orient_lut(b),
        )
        &&& self.orientation_lut.indexes@ == lut_indexes_in(
            b,
            orient_lut_start(b),
            n_orient_lut(b),
        )
    }

    /// Opens the store held in `buf` without copying its coefficients. Fails with
    /// the integrity error that `store_error` names, and succeeds exactly on
    /// well-formed stores.
    pub fn try_from_bytes(buf: &'a [u8]) -> (r: Result<AniseContext<'a>, AniseError>)
        ensures
            match store_error(buf@) {
                Some(k) => r == Err::<AniseContext<'a>, AniseError>(
                    AniseError::IntegrityError(k),
                ),
                None => r.is_ok(),
            },
            r matches Ok(ctx) ==> ctx.decodes(buf@) && ctx.wf(),
    {
        if buf.len() < HEADER_SIZE {
            return Err(AniseError::IntegrityError(IntegrityErrorKind::DataMissing));
        }
        if read_u32(buf, 0) != FORMAT_VERSION {
            return Err(AniseError::IntegrityError(IntegrityErrorKind::UnsupportedVersion));
        }
        let ne = read_u32(buf, 4) as u64;
        let le = read_u32(buf, 8) as u64;
        let no = read_u32(buf, 12) as u64;
        let lo = read_u32(buf, 16) as u64;
        let ns = read_u32(buf, 20) as u64;
        let end: u64 = 24 + 16 * ne + 8 * le + 16 * no + 8 * lo + 28 * ns;
        if end > buf.len() as u64 {
            return Err(AniseError::IntegrityError(IntegrityErrorKind::DataMissing));
        }
        let ephem_lut_at = (24 + 16 * ne) as usize;
        let orient_at = ephem_lut_at + (8 * le) as usize;
        let orient_lut_at = orient_at + (16 * no) as usize;
        let segments_at = orient_lut_at + (8 * lo) as usize;
        let segments = read_segments(buf, segments_at, ns as usize);
        if !check_segments(&segments, buf.len()) {
            return Err(AniseError::IntegrityError(IntegrityErrorKind::InvalidSegment));
        }
        let ephemeris_data = read_records(buf, HEADER_SIZE, ne as usize);
        let orientation_data = read_records(buf, orient_at, no as usize);
        if !check_records(&ephemeris_data, ns as usize) || !check_records(
            &orientation_data,
            ns as usize,
        ) {
            return Err(AniseError::IntegrityError(IntegrityErrorKind::InvalidRecord));
        }
        let (eh, ei) = read_lut(buf, ephem_lut_at, le as usize);
        let (oh, oi) = read_lut(buf, orient_lut_at, lo as usize);
        let ephemeris_lut = match LookupTable::try_new(eh, ei, &ephemeris_data) {
            Ok(t) => t,
            Err(e) => {
                return Err(e);
            },
        };
        let orientation_lut = match LookupTable::try_new(oh, oi, &orientation_data) {
            Ok(t) => t,
            Err(e) => {
                return Err(e);
            },
        };
        Ok(AniseContext {
            buf,
            ephemeris_data,
            ephemeris_lut,
            orientation_data,
            orientation_lut,
            segments,
        })
    }
}

/// Decodes `n` records starting at `b[p]`.
fn read_records(b: &[u8], p: usize, n: usize) -> (r: Vec<Ephemeris>)
    requires
        p + RECORD_SIZE * n <= b@.len(),
    ensures
        r@ == records_in(b@, p as int, n as int),
{
    let mut v: Vec<Ephemeris> = Vec::new();
    let mut i: usize = 0;
    assert(b@.len() == b.len());
    while i < n
        invariant
            i <= n,
            p + RECORD_SIZE * n <= b@.len(),
            b@.len() <= usize::MAX,
            v@ == records_in(b@, p as int, i as int),
        decreases n - i,
    {
        let q = p + 16 * i;
        let e = Ephemeris {
            hash: read_u32(b, q),
            parent_ephemeris_hash: read_u32(b, q + 4),
            first_segment: read_u32(b, q + 8),
            segment_count: read_u32(b, q + 12),
        };
        v.push(e);
        i = i + 1;
        assert(v@ =~= records_in(b@, p as int, i as int));
    }
    v
}

/// Decodes `n` segments starting at `b[p]`.
fn read_segments(b: &[u8], p: usize, n: usize) -> (r: Vec<Segment>)
    requires
        p + SEGMENT_SIZE * n <= b@.len(),
    ensures
        r@ == segments_in(b@, p as int, n as int),
{
    let mut v: Vec<Segment> = Vec::new();
    let mut i: usize = 0;
    assert(b@.len() == b.len());
    while i < n
        invariant
            i <= n,
            p + SEGMENT_SIZE * n <= b@.len(),
            b@.len() <= usize::MAX,
            v@ == segments_in(b@, p as int, i as int),
        decreases n - i,
    {
        let q = p + 28 * i;
        let s = Segment {
            start_epoch: read_i64(b, q),
            end_epoch: read_i64(b, q + 8),
            kind: InterpolationKind(b[q + 16]),
            coeff_offset: read_u32(b, q + 20),
            coeff_len: read_u32(b, q + 24),
        };
        v.push(s);
        i = i + 1;
        assert(v@ =~= segments_in(b@, p as int, i as int));
    }
    v
}

/// Decodes the two columns of a lookup table of `n` entries starting at `b[p]`.
fn read_lut(b: &[u8], p: usize, n: usize) -> (r: (Vec<u32>, Vec<u32>))
    requires
        p + LUT_ENTRY_SIZE * n <= b@.len(),
    ensures
        r.0@ == lut_hashes_in(b@, p as int, n as int),
        r.1@ == lut_indexes_in(b@, p as int, n as int),
{
    let mut hashes: Vec<u32> = Vec::new();
    let mut indexes: Vec<u32> = Vec::new();
    let mut i: usize = 0;
    assert(b@.len() == b.len());
    while i < n
        invariant
            i <= n,
            p + LUT_ENTRY_SIZE * n <= b@.len(),
            b@.len() <= usize::MAX,
            hashes@ == lut_hashes_in(b@, p as int, i as int),
            indexes@ == lut_indexes_in(b@, p as int, i as int),
        decreases n - i,
    {
        let q = p + 8 * i;
        hashes.push(read_u32(b, q));
        indexes.push(read_u32(b, q + 4));
        i = i + 1;
        assert(hashes@ =~= lut_hashes_in(b@, p as int, i as int));
        assert(indexes@ =~= lut_indexes_in(b@, p as int, i as int));
    }
    (hashes, indexes)
}

} // verus!

verus! {

/// A store whose ephemeris lookup table holds the same hash twice does not open,
/// whatever else it holds.
pub proof fn lemma_duplicate_hash_rejected(b: Seq<u8>, i: int, j: int)
    requires
        0 <= i < j < n_ephem_lut(b),
        u32_at(b, ephem_lut_start(b) + LUT_ENTRY_SIZE * i) == u32_at(
            b,
            ephem_lut_start(b) + LUT_ENTRY_SIZE * j,
        ),
    ensures
        store_error(b).is_some(),
{
    let h = lut_hashes_in(b, ephem_lut_start(b), n_ephem_lut(b));
    assert(h[i] == h[j]);
}

} // verus!
