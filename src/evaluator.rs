use vstd::prelude::*;

use crate::context::AniseContext;
use crate::ephemeris::{Ephemeris, Segment};
use crate::errors::AniseError;
use crate::query_ephem::MAX_TREE_DEPTH;

verus! {

/// The first segment of `segs[lo..hi]` whose interval holds `epoch`.
pub open spec fn first_covering(segs: Seq<Segment>, lo: int, hi: int, epoch: i64) -> Option<int>
    decreases hi - lo,
{
    if lo >= hi {
        None
    } else if segs[lo].covers(epoch) {
        Some(lo)
    } else {
        first_covering(segs, lo + 1, hi, epoch)
    }
}

/// A segment that holds the epoch means that the search finds one at or before it.
pub proof fn lemma_first_covering_found(segs: Seq<Segment>, lo: int, hi: int, epoch: i64, j: int)
    requires
        lo <= j < hi,
        segs[j].covers(epoch),
    ensures
        first_covering(segs, lo, hi, epoch) matches Some(k) && lo <= k <= j && segs[k].covers(
            epoch,
        ),
    decreases j - lo,
{
    if !segs[lo].covers(epoch) {
        lemma_first_covering_found(segs, lo + 1, hi, epoch, j);
    }
}

/// The search finds nothing where no segment holds the epoch.
pub proof fn lemma_first_covering_none(segs: Seq<Segment>, lo: int, hi: int, epoch: i64)
    requires
        forall|j: int| lo <= j < hi ==> !(#[trigger] segs[j]).covers(epoch),
    ensures
        first_covering(segs, lo, hi, epoch) == None::<int>,
    decreases hi - lo,
{
    if lo < hi {
        lemma_first_covering_none(segs, lo + 1, hi, epoch);
    }
}

impl<'a> AniseContext<'a> {
    /// The segment of `record` used at `epoch`: the first whose closed interval
    /// holds it. No segment is stretched beyond its interval.
    pub open spec fn segment_search(&self, record: Ephemeris, epoch: i64) -> Result<
        Segment,
        AniseError,
    > {
        match first_covering(
            self.segments@,
            record.first_segment as int,
            record.first_segment + record.segment_count,
            epoch,
        ) {
            Some(k) => Ok(self.segments@[k]),
            None => Err(AniseError::OutOfCoverage),
        }
    }

    /// Selects the segment of `record` whose interval holds `epoch`, or fails with
    /// `OutOfCoverage`.
    pub fn segment_for_epoch(&self, record: &Ephemeris, epoch: i64) -> (r: Result<
        Segment,
        AniseError,
    >)
        requires
            self.wf(),
            record.valid(self.segments@.len() as int),
        ensures
            r == self.segment_search(*record, epoch),
            r matches Ok(s) ==> s.covers(epoch) && s.valid(self.buf@.len() as int),
    {
        assert(record.first_segment + record.segment_count <= self.segments.len());
        let lo = record.first_segment as usize;
        let hi = lo + record.segment_count as usize;
        let mut i = lo;
        while i < hi
            invariant
                self.wf(),
                lo <= i <= hi <= self.segments@.len(),
                lo == record.first_segment,
                hi == record.first_segment + record.segment_count,
                first_covering(self.segments@, lo as int, hi as int, epoch) == first_covering(
                    self.segments@,
                    i as int,
                    hi as int,
                    epoch,
                ),
            decreases hi - i,
        {
            let s = self.segments[i];
            if s.start_epoch <= epoch && epoch <= s.end_epoch {
                assert(first_covering(self.segments@, i as int, hi as int, epoch) == Some(
                    i as int,
                ));
                return Ok(s);
            }
            i = i + 1;
        }
        Err(AniseError::OutOfCoverage)
    }

    /// The segment of the ephemeris record of hash `hash` at `epoch`.
    pub open spec fn ephemeris_state_segment(&self, hash: u32, epoch: i64) -> Result<
        Segment,
        AniseError,
    > {
        match self.ephemeris_lut.lookup(hash) {
            None => Err(AniseError::ItemNotFound),
            Some(i) => self.segment_search(self.ephemeris_data@[i as int], epoch),
        }
    }

    /// The segment of the orientation record of hash `hash` at `epoch`.
    pub open spec fn orientation_state_segment(&self, hash: u32, epoch: i64) -> Result<
        Segment,
        AniseError,
    > {
        match self.orientation_lut.lookup(hash) {
            None => Err(AniseError::ItemNotFound),
            Some(i) => self.segment_search(self.orientation_data@[i as int], epoch),
        }
    }

    /// Looks up the ephemeris record of `hash` and selects its segment at `epoch`.
    pub fn ephemeris_segment_at(&self, hash: u32, epoch: i64) -> (r: Result<Segment, AniseError>)
        requires
            self.wf(),
        ensures
            r == self.ephemeris_state_segment(hash, epoch),
            r matches Ok(s) ==> s.covers(epoch) && s.valid(self.buf@.len() as int),
    {
        let idx = match self.ephemeris_lut.index_for_hash(&hash) {
            Ok(i) => i,
            Err(e) => {
                return Err(e);
            },
        };
        proof {
            let k = choose|k: int|
                0 <= k < self.ephemeris_lut.hashes@.len() && self.ephemeris_lut.hashes@[k] == hash;
            assert(self.ephemeris_lut.indexes@[k] < self.ephemeris_data@.len());
            assert(self.ephemeris_data@[idx as int].valid(self.segments@.len() as int));
        }
        self.segment_for_epoch(&self.ephemeris_data[idx as usize], epoch)
    }

    /// Looks up the orientation record of `hash` and selects its segment at `epoch`.
    pub fn orientation_segment_at(&self, hash: u32, epoch: i64) -> (r: Result<Segment, AniseError>)
        requires
            self.wf(),
        ensures
            r == self.orientation_state_segment(hash, epoch),
            r matches Ok(s) ==> s.covers(epoch) && s.valid(self.buf@.len() as int),
    {
        let idx = match self.orientation_lut.index_for_hash(&hash) {
            Ok(i) => i,
            Err(e) => {
                return Err(e);
            },
        };
        proof {
            let k = choose|k: int|
                0 <= k < self.orientation_lut.hashes@.len() && self.orientation_lut.hashes@[k]
                    == hash;
            assert(self.orientation_lut.indexes@[k] < self.orientation_data@.len());
            assert(self.orientation_data@[idx as int].valid(self.segments@.len() as int));
        }
        self.segment_for_epoch(&self.orientation_data[idx as usize], epoch)
    }

    /// The segments at `epoch` of the records of `nodes`, in order, or the first
    /// error met (`ItemNotFound`, `OutOfCoverage`). Orientation records are used
    /// where `orientation` holds, ephemeris records otherwise.
    pub open spec fn hop_segments(&self, nodes: Seq<u32>, epoch: i64, orientation: bool) -> Result<
        Seq<Segment>,
        AniseError,
    >
        decreases nodes.len(),
    {
        if nodes.len() == 0 {
            Ok(Seq::empty())
        } else {
            match self.hop_segments(nodes.drop_last(), epoch, orientation) {
                Err(e) => Err(e),
                Ok(t) => match if orientation {
                    self.orientation_state_segment(nodes.last(), epoch)
                } else {
                    self.ephemeris_state_segment(nodes.last(), epoch)
                } {
                    Err(e) => Err(e),
                    Ok(seg) => Ok(t.push(seg)),
                },
            }
        }
    }

    /// The first error of a prefix of the hops is the error of every longer prefix.
    proof fn lemma_hop_error_kept(&self, nodes: Seq<u32>, j: int, m: int, epoch: i64, orientation: bool)
        requires
            0 <= j <= m <= nodes.len(),
            self.hop_segments(nodes.take(j), epoch, orientation).is_err(),
        ensures
            self.hop_segments(nodes.take(m), epoch, orientation) == self.hop_segments(
                nodes.take(j),
                epoch,
                orientation,
            ),
        decreases m - j,
    {
        if j < m {
            assert(nodes.take(j + 1).drop_last() =~= nodes.take(j));
            self.lemma_hop_error_kept(nodes, j + 1, m, epoch, orientation);
        }
    }

    /// Selects the segment of every hop of a path, so that each can be evaluated.
    pub fn segments_of_hops(
        &self,
        nodes: &[u32; MAX_TREE_DEPTH],
        len: usize,
        epoch: i64,
        orientation: bool,
    ) -> (r: Result<Vec<Segment>, AniseError>)
        requires
            self.wf(),
            len <= MAX_TREE_DEPTH,
        ensures
            match self.hop_segments(nodes@.take(len as int), epoch, orientation) {
                Ok(t) => r matches Ok(v) && v@ == t,
                Err(e) => r == Err::<Vec<Segment>, AniseError>(e),
            },
            r matches Ok(v) ==> forall|k: int|
                0 <= k < v@.len() ==> (#[trigger] v@[k]).covers(epoch) && v@[k].valid(
                    self.buf@.len() as int,
                ),
    {
        let mut v: Vec<Segment> = Vec::new();
        let mut i: usize = 0;
        while i < len
            invariant
                self.wf(),
                i <= len <= MAX_TREE_DEPTH,
                self.hop_segments(nodes@.take(i as int), epoch, orientation) == Ok::<
                    Seq<Segment>,
                    AniseError,
                >(v@),
                forall|k: int|
                    0 <= k < v@.len() ==> (#[trigger] v@[k]).covers(epoch) && v@[k].valid(
                        self.buf@.len() as int,
                    ),
            decreases len - i,
        {
            let ghost before = nodes@.take(i as int);
            let ghost after = nodes@.take(i as int + 1);
            assert(after.drop_last() =~= before);
            assert(after.last() == nodes@[i as int]);
            let res = if orientation {
                self.orientation_segment_at(nodes[i], epoch)
            } else {
                self.ephemeris_segment_at(nodes[i], epoch)
            };
            let seg = match res {
                Ok(seg) => seg,
                Err(e) => {
                    proof {
                        self.lemma_hop_error_kept(nodes@, i as int + 1, len as int, epoch, orientation);
                    }
                    return Err(e);
                },
            };
            v.push(seg);
            i = i + 1;
        }
        Ok(v)
    }

    /// The coefficient bytes of a segment, borrowed from the store's buffer.
    pub fn coefficients(&self, segment: &Segment) -> (r: &'a [u8])
        requires
            segment.valid(self.buf@.len() as int),
        ensures
            r@ == self.buf@.subrange(
                segment.coeff_offset as int,
                segment.coeff_offset + segment.coeff_len,
            ),
    {
        assert(self.buf@.len() == self.buf.len());
        let start = segment.coeff_offset as usize;
        let end = start + segment.coeff_len as usize;
        vstd::slice::slice_subrange(self.buf, start, end)
    }

    /// An epoch on either bound of one of a record's segments is covered: the
    /// search succeeds, with a segment whose closed interval holds it.
    pub proof fn lemma_coverage_boundary(&self, record: Ephemeris, epoch: i64, j: int)
        requires
            record.first_segment <= j < record.first_segment + record.segment_count,
            record.first_segment + record.segment_count <= self.segments@.len(),
            self.segments@[j].start_epoch <= self.segments@[j].end_epoch,
            self.segments@[j].start_epoch == epoch || self.segments@[j].end_epoch == epoch,
        ensures
            self.segment_search(record, epoch) matches Ok(s) && s.covers(epoch),
    {
        lemma_first_covering_found(
            self.segments@,
            record.first_segment as int,
            record.first_segment + record.segment_count,
            epoch,
            j,
        );
    }

    /// An epoch outside every segment of a record fails with the coverage error.
    pub proof fn lemma_out_of_coverage(&self, record: Ephemeris, epoch: i64)
        requires
            forall|j: int|
                record.first_segment <= j < record.first_segment + record.segment_count ==> !(
                #[trigger] self.segments@[j]).covers(epoch),
        ensures
            self.segment_search(record, epoch) == Err::<Segment, AniseError>(
                AniseError::OutOfCoverage,
            ),
    {
        lemma_first_covering_none(
            self.segments@,
            record.first_segment as int,
            record.first_segment + record.segment_count,
            epoch,
        );
    }
}

} // verus!
