use anise::common::InterpolationKind;
use anise::constants::celestial_objects::{
    EARTH, EARTH_MOON_BARYCENTER, JUPITER_BARYCENTER, LUNA, MARS_BARYCENTER, MERCURY,
    NEPTUNE_BARYCENTER, PLUTO_BARYCENTER, SATURN_BARYCENTER, SOLAR_SYSTEM_BARYCENTER, SUN,
    URANUS_BARYCENTER, VENUS,
};
use anise::constants::orientations::J2000;
use anise::context::{AniseContext, FORMAT_VERSION};
use anise::ephemeris::{Ephemeris, Segment};
use anise::errors::{AniseError, IntegrityErrorKind};
use anise::frame::Frame;
use anise::lut::LookupTable;
use anise::query_ephem::MAX_TREE_DEPTH;

/// A record to encode: hash, parent hash, segments (start, end, kind, payload).
struct Rec {
    hash: u32,
    parent: u32,
    segments: Vec<(i64, i64, u8, Vec<u8>)>,
}

fn rec(hash: u32, parent: u32) -> Rec {
    Rec { hash, parent, segments: vec![(-1000, 1000, 0, (1..=24).collect())] }
}

fn put_u32(b: &mut Vec<u8>, v: u32) {
    b.extend_from_slice(&v.to_le_bytes());
}

/// Encodes a store; each LUT lists (hash, index) pairs as given, in that order.
fn encode(
    ephem: &[Rec],
    ephem_lut: &[(u32, u32)],
    orient: &[Rec],
    orient_lut: &[(u32, u32)],
) -> Vec<u8> {
    let mut segs: Vec<(i64, i64, u8, Vec<u8>)> = Vec::new();
    let mut spans: Vec<(u32, u32)> = Vec::new();
    for r in ephem.iter().chain(orient.iter()) {
        spans.push((segs.len() as u32, r.segments.len() as u32));
        segs.extend(r.segments.iter().cloned());
    }
    let fixed = 24 + 16 * (ephem.len() + orient.len()) + 8 * (ephem_lut.len() + orient_lut.len())
        + 28 * segs.len();
    let mut b = Vec::new();
    put_u32(&mut b, FORMAT_VERSION);
    put_u32(&mut b, ephem.len() as u32);
    put_u32(&mut b, ephem_lut.len() as u32);
    put_u32(&mut b, orient.len() as u32);
    put_u32(&mut b, orient_lut.len() as u32);
    put_u32(&mut b, segs.len() as u32);
    let mut k = 0;
    let mut write_recs = |b: &mut Vec<u8>, recs: &[Rec]| {
        for r in recs {
            put_u32(b, r.hash);
            put_u32(b, r.parent);
            put_u32(b, spans[k].0);
            put_u32(b, spans[k].1);
            k += 1;
        }
    };
    write_recs(&mut b, ephem);
    for (h, i) in ephem_lut {
        put_u32(&mut b, *h);
        put_u32(&mut b, *i);
    }
    write_recs(&mut b, orient);
    for (h, i) in orient_lut {
        put_u32(&mut b, *h);
        put_u32(&mut b, *i);
    }
    let mut payload_at = fixed;
    for (start, end, kind, payload) in &segs {
        b.extend_from_slice(&start.to_le_bytes());
        b.extend_from_slice(&end.to_le_bytes());
        b.extend_from_slice(&[*kind, 0, 0, 0]);
        put_u32(&mut b, payload_at as u32);
        put_u32(&mut b, payload.len() as u32);
        payload_at += payload.len();
    }
    for (_, _, _, payload) in &segs {
        b.extend_from_slice(payload);
    }
    b
}

/// A sorted LUT over records, index = position in `recs`.
fn lut_of(recs: &[Rec]) -> Vec<(u32, u32)> {
    let mut l: Vec<(u32, u32)> = recs.iter().enumerate().map(|(i, r)| (r.hash, i as u32)).collect();
    l.sort();
    l
}

/// The twelve bodies of the DE4xx planetary ephemerides, with their parents,
/// each covered by one segment of `half_span` milliseconds either side of zero.
fn de_catalog_spanning(half_span: i64) -> Vec<u8> {
    let mut ephem = vec![
        rec(MERCURY, SOLAR_SYSTEM_BARYCENTER),
        rec(VENUS, SOLAR_SYSTEM_BARYCENTER),
        rec(EARTH_MOON_BARYCENTER, SOLAR_SYSTEM_BARYCENTER),
        rec(MARS_BARYCENTER, SOLAR_SYSTEM_BARYCENTER),
        rec(JUPITER_BARYCENTER, SOLAR_SYSTEM_BARYCENTER),
        rec(SATURN_BARYCENTER, SOLAR_SYSTEM_BARYCENTER),
        rec(URANUS_BARYCENTER, SOLAR_SYSTEM_BARYCENTER),
        rec(NEPTUNE_BARYCENTER, SOLAR_SYSTEM_BARYCENTER),
        rec(PLUTO_BARYCENTER, SOLAR_SYSTEM_BARYCENTER),
        rec(SUN, SOLAR_SYSTEM_BARYCENTER),
        rec(LUNA, EARTH_MOON_BARYCENTER),
        rec(EARTH, EARTH_MOON_BARYCENTER),
    ];
    for r in ephem.iter_mut() {
        r.segments[0].0 = -half_span;
        r.segments[0].1 = half_span;
    }
    let orient = vec![rec(J2000, SOLAR_SYSTEM_BARYCENTER)];
    let el = lut_of(&ephem);
    let ol = lut_of(&orient);
    encode(&ephem, &el, &orient, &ol)
}

fn de_catalog() -> Vec<u8> {
    de_catalog_spanning(1000)
}

/// Three catalogs of the same tree over different coverage, standing for the
/// DE430, DE438s and DE440 stores.
fn de_catalogs() -> Vec<Vec<u8>> {
    vec![de_catalog_spanning(1000), de_catalog_spanning(5000), de_catalog_spanning(90000)]
}

fn j2k(h: u32) -> Frame {
    Frame::from_ephem_orient(h, J2000)
}

/// A linear chain of `n` records: node k has parent k - 1, node 1 has the root.
fn chain_catalog(n: u32) -> Vec<u8> {
    let ephem: Vec<Rec> = (1..=n).map(|k| rec(k, k - 1)).collect();
    let el = lut_of(&ephem);
    encode(&ephem, &el, &[], &[])
}

#[test]
fn de438s_zero_paths() {
    for buf in de_catalogs() {
        let ctx = AniseContext::try_from_bytes(&buf).unwrap();
        assert_eq!(ctx.ephemeris_lut.hashes.len(), 12, "DE438s should have 12 ephemerides");
        for ephemeris_hash in ctx.ephemeris_lut.hashes.iter() {
            let this_frame_j2k = Frame::from_ephem_orient(*ephemeris_hash, J2000);
            let root_ephem = ctx.find_common_ephemeris_node(this_frame_j2k, this_frame_j2k).unwrap();
            assert_eq!(root_ephem, *ephemeris_hash);
            // No hop on either side: the translation composes to exactly zero.
            let path = ctx.common_ephemeris_path(this_frame_j2k, this_frame_j2k).unwrap();
            assert_eq!(path.from_len, 0);
            assert_eq!(path.to_len, 0);
        }
    }
}

#[test]
fn de438s_common_root_verifications() {
    for buf in de_catalogs() {
        let ctx = AniseContext::try_from_bytes(&buf).unwrap();
        assert_eq!(ctx.try_find_context_root().unwrap(), SOLAR_SYSTEM_BARYCENTER);
        for planet_ctr in &[
            MERCURY,
            VENUS,
            MARS_BARYCENTER,
            JUPITER_BARYCENTER,
            SATURN_BARYCENTER,
            NEPTUNE_BARYCENTER,
            URANUS_BARYCENTER,
            PLUTO_BARYCENTER,
        ] {
            assert_eq!(
                ctx.find_common_ephemeris_node(j2k(*planet_ctr), j2k(LUNA)).unwrap(),
                SOLAR_SYSTEM_BARYCENTER
            );
            assert_eq!(
                ctx.find_common_ephemeris_node(j2k(LUNA), j2k(*planet_ctr)).unwrap(),
                SOLAR_SYSTEM_BARYCENTER
            );
        }
        assert_eq!(
            ctx.find_common_ephemeris_node(j2k(LUNA), j2k(EARTH)).unwrap(),
            EARTH_MOON_BARYCENTER
        );
        assert_eq!(
            ctx.find_common_ephemeris_node(j2k(EARTH), j2k(LUNA)).unwrap(),
            EARTH_MOON_BARYCENTER
        );
    }
}

#[test]
fn three_body_chain_scenario() {
    let buf = de_catalog();
    let ctx = AniseContext::try_from_bytes(&buf).unwrap();
    assert_eq!(ctx.find_common_ephemeris_node(j2k(EARTH), j2k(LUNA)), Ok(EARTH_MOON_BARYCENTER));
    assert_eq!(ctx.find_common_ephemeris_node(j2k(EARTH), j2k(SUN)), Ok(SOLAR_SYSTEM_BARYCENTER));
    // A body and its own barycenter meet at the barycenter.
    assert_eq!(
        ctx.find_common_ephemeris_node(j2k(EARTH), j2k(EARTH_MOON_BARYCENTER)),
        Ok(EARTH_MOON_BARYCENTER)
    );
    // The root has no record: a frame centred on it fails as its path does.
    assert_eq!(ctx.try_ephemeris_path(&j2k(SOLAR_SYSTEM_BARYCENTER)), Err(AniseError::ItemNotFound));
    assert_eq!(
        ctx.find_common_ephemeris_node(j2k(SOLAR_SYSTEM_BARYCENTER), j2k(LUNA)),
        Err(AniseError::ItemNotFound)
    );
    assert_eq!(
        ctx.find_common_ephemeris_node(j2k(LUNA), j2k(SOLAR_SYSTEM_BARYCENTER)),
        Err(AniseError::ItemNotFound)
    );
}

#[test]
fn path_hops_and_swap() {
    let buf = de_catalog();
    let ctx = AniseContext::try_from_bytes(&buf).unwrap();
    let p = ctx.common_ephemeris_path(j2k(LUNA), j2k(SUN)).unwrap();
    assert_eq!(p.common, SOLAR_SYSTEM_BARYCENTER);
    assert_eq!(&p.from_nodes[..p.from_len], &[LUNA, EARTH_MOON_BARYCENTER]);
    assert_eq!(&p.to_nodes[..p.to_len], &[SUN]);
    let q = ctx.common_ephemeris_path(j2k(SUN), j2k(LUNA)).unwrap();
    assert_eq!(q.common, p.common);
    assert_eq!(&q.from_nodes[..q.from_len], &p.to_nodes[..p.to_len]);
    assert_eq!(&q.to_nodes[..q.to_len], &p.from_nodes[..p.from_len]);
}

#[test]
fn common_node_symmetric_over_catalog() {
    let buf = de_catalog();
    let ctx = AniseContext::try_from_bytes(&buf).unwrap();
    for a in ctx.ephemeris_lut.hashes.iter() {
        for b in ctx.ephemeris_lut.hashes.iter() {
            assert_eq!(
                ctx.find_common_ephemeris_node(j2k(*a), j2k(*b)),
                ctx.find_common_ephemeris_node(j2k(*b), j2k(*a))
            );
        }
    }
}

#[test]
fn ephemeris_path_to_root() {
    let buf = de_catalog();
    let ctx = AniseContext::try_from_bytes(&buf).unwrap();
    let (len, path) = ctx.try_ephemeris_path(&j2k(LUNA)).unwrap();
    assert_eq!(len, 2);
    assert_eq!(path[0], Some(EARTH_MOON_BARYCENTER));
    assert_eq!(path[1], Some(SOLAR_SYSTEM_BARYCENTER));
    assert!(path[2..].iter().all(|p| p.is_none()));
    assert_eq!(ctx.try_ephemeris_path(&j2k(12345)), Err(AniseError::ItemNotFound));
    let (olen, opath) = ctx.try_orientation_path(&j2k(LUNA)).unwrap();
    assert_eq!(olen, 1);
    assert_eq!(opath[0], Some(SOLAR_SYSTEM_BARYCENTER));
}

#[test]
fn depth_bound_eight_hops() {
    let buf = chain_catalog(MAX_TREE_DEPTH as u32);
    let ctx = AniseContext::try_from_bytes(&buf).unwrap();
    let (len, path) = ctx.try_ephemeris_path(&j2k(8)).unwrap();
    assert_eq!(len, 8);
    assert_eq!(path[7], Some(SOLAR_SYSTEM_BARYCENTER));
}

#[test]
fn depth_bound_ninth_hop_fails() {
    let buf = chain_catalog(MAX_TREE_DEPTH as u32 + 1);
    let ctx = AniseContext::try_from_bytes(&buf).unwrap();
    assert_eq!(ctx.try_ephemeris_path(&j2k(9)), Err(AniseError::MaxTreeDepth));
    assert_eq!(ctx.find_common_ephemeris_node(j2k(9), j2k(1)), Err(AniseError::MaxTreeDepth));
}

#[test]
fn cyclic_catalog_fails_with_depth_error() {
    let ephem = vec![rec(5, 6), rec(6, 5)];
    let el = lut_of(&ephem);
    let buf = encode(&ephem, &el, &[], &[]);
    let ctx = AniseContext::try_from_bytes(&buf).unwrap();
    assert_eq!(ctx.try_ephemeris_path(&j2k(5)), Err(AniseError::MaxTreeDepth));
}

#[test]
fn well_formed_store_opens() {
    let buf = de_catalog();
    let ctx = AniseContext::try_from_bytes(&buf).unwrap();
    assert_eq!(ctx.ephemeris_data.len(), 12);
    assert_eq!(ctx.orientation_data.len(), 1);
    assert_eq!(ctx.segments.len(), 13);
}

#[test]
fn duplicate_lut_hash_is_rejected() {
    let ephem = vec![rec(10, 0), rec(20, 0)];
    let buf = encode(&ephem, &[(10, 0), (10, 1)], &[], &[]);
    assert_eq!(
        AniseContext::try_from_bytes(&buf).err(),
        Some(AniseError::IntegrityError(IntegrityErrorKind::LookupTable))
    );
}

#[test]
fn unsorted_lut_is_rejected() {
    let ephem = vec![rec(10, 0), rec(20, 0)];
    let buf = encode(&ephem, &[(20, 1), (10, 0)], &[], &[]);
    assert_eq!(
        AniseContext::try_from_bytes(&buf).err(),
        Some(AniseError::IntegrityError(IntegrityErrorKind::LookupTable))
    );
}

#[test]
fn lut_index_past_catalog_is_rejected() {
    let ephem = vec![rec(10, 0)];
    let buf = encode(&ephem, &[(10, 1)], &[], &[]);
    assert_eq!(
        AniseContext::try_from_bytes(&buf).err(),
        Some(AniseError::IntegrityError(IntegrityErrorKind::LookupTable))
    );
}

#[test]
fn short_buffer_is_rejected() {
    assert_eq!(
        AniseContext::try_from_bytes(&[1, 0, 0]).err(),
        Some(AniseError::IntegrityError(IntegrityErrorKind::DataMissing))
    );
}

#[test]
fn wrong_version_is_rejected() {
    let mut buf = de_catalog();
    buf[0] = 7;
    assert_eq!(
        AniseContext::try_from_bytes(&buf).err(),
        Some(AniseError::IntegrityError(IntegrityErrorKind::UnsupportedVersion))
    );
}

#[test]
fn truncated_tables_are_rejected() {
    let buf = de_catalog();
    let cut = &buf[..100];
    assert_eq!(
        AniseContext::try_from_bytes(cut).err(),
        Some(AniseError::IntegrityError(IntegrityErrorKind::DataMissing))
    );
}

#[test]
fn bad_segments_are_rejected() {
    let mut reversed = rec(10, 0);
    reversed.segments = vec![(5, 4, 0, vec![0; 24])];
    let buf = encode(&[reversed], &[(10, 0)], &[], &[]);
    assert_eq!(
        AniseContext::try_from_bytes(&buf).err(),
        Some(AniseError::IntegrityError(IntegrityErrorKind::InvalidSegment))
    );
    let mut unknown = rec(10, 0);
    unknown.segments = vec![(0, 4, 5, vec![0; 24])];
    let buf = encode(&[unknown], &[(10, 0)], &[], &[]);
    assert_eq!(
        AniseContext::try_from_bytes(&buf).err(),
        Some(AniseError::IntegrityError(IntegrityErrorKind::InvalidSegment))
    );
    let mut buf = encode(&[rec(10, 0)], &[(10, 0)], &[], &[]);
    let n = buf.len();
    buf.truncate(n - 1);
    assert_eq!(
        AniseContext::try_from_bytes(&buf).err(),
        Some(AniseError::IntegrityError(IntegrityErrorKind::InvalidSegment))
    );
}

#[test]
fn payload_shapes_are_checked() {
    for (kind, len, ok) in [
        (0u8, 24usize, true),
        (0, 16, false),
        (3, 48, true),
        (1, 56, true),
        (1, 24, false),
        (2, 32, true),
        (2, 48, false),
        (4, 24, true),
        (4, 96, true),
        (4, 48, false),
        (0, 0, false),
    ] {
        let mut r = rec(10, 0);
        r.segments = vec![(0, 1, kind, vec![0; len])];
        let buf = encode(&[r], &[(10, 0)], &[], &[]);
        let res = AniseContext::try_from_bytes(&buf).err();
        if ok {
            assert_eq!(res, None);
        } else {
            assert_eq!(res, Some(AniseError::IntegrityError(IntegrityErrorKind::InvalidSegment)));
        }
    }
}

#[test]
fn record_without_segments_is_rejected() {
    let mut empty = rec(10, 0);
    empty.segments = vec![];
    let buf = encode(&[empty], &[(10, 0)], &[], &[]);
    assert_eq!(
        AniseContext::try_from_bytes(&buf).err(),
        Some(AniseError::IntegrityError(IntegrityErrorKind::InvalidRecord))
    );
}

#[test]
fn coverage_boundaries_are_inclusive() {
    let mut r = rec(10, 0);
    r.segments = vec![(0, 100, 3, vec![9; 24]), (100, 200, 0, vec![7; 48])];
    let buf = encode(&[r], &[(10, 0)], &[], &[]);
    let ctx = AniseContext::try_from_bytes(&buf).unwrap();
    let s = ctx.ephemeris_segment_at(10, 0).unwrap();
    assert_eq!((s.start_epoch, s.end_epoch), (0, 100));
    let s = ctx.ephemeris_segment_at(10, 100).unwrap();
    assert_eq!((s.start_epoch, s.end_epoch), (0, 100));
    let s = ctx.ephemeris_segment_at(10, 200).unwrap();
    assert_eq!((s.start_epoch, s.end_epoch), (100, 200));
    assert_eq!(s.kind, InterpolationKind(InterpolationKind::CHEBYSHEV_SERIES));
    assert_eq!(ctx.coefficients(&s), &[7u8; 48][..]);
    assert_eq!(ctx.ephemeris_segment_at(10, 201), Err(AniseError::OutOfCoverage));
    assert_eq!(ctx.ephemeris_segment_at(10, -1), Err(AniseError::OutOfCoverage));
    assert_eq!(ctx.ephemeris_segment_at(11, 50), Err(AniseError::ItemNotFound));
}

#[test]
fn negative_epochs_decode() {
    let mut r = rec(10, 0);
    r.segments = vec![(-5_000_000_000_000, -1, 1, vec![0; 56])];
    let o = rec(3, 0);
    let buf = encode(&[r], &[(10, 0)], &[o], &[(3, 0)]);
    let ctx = AniseContext::try_from_bytes(&buf).unwrap();
    let s = ctx.ephemeris_segment_at(10, -1).unwrap();
    assert_eq!(s.start_epoch, -5_000_000_000_000);
    assert_eq!(s.kind.variant_name(), Some("HermiteSeries"));
    assert_eq!(ctx.orientation_segment_at(3, 1000), Ok(ctx.segments[1]));
    assert_eq!(ctx.orientation_segment_at(3, 1001), Err(AniseError::OutOfCoverage));
}

#[test]
fn record_and_lookup_accessors() {
    let buf = de_catalog();
    let ctx = AniseContext::try_from_bytes(&buf).unwrap();
    let idx = ctx.ephemeris_lut.index_for_hash(&LUNA).unwrap();
    let e = ctx.try_ephemeris_data(idx as usize).unwrap();
    assert_eq!(e.hash, LUNA);
    assert_eq!(e.parent_ephemeris_hash, EARTH_MOON_BARYCENTER);
    assert_eq!(
        ctx.try_ephemeris_data(12).err(),
        Some(AniseError::IntegrityError(IntegrityErrorKind::LookupTable))
    );
    assert_eq!(ctx.try_orientation_data(0).unwrap().hash, J2000);
    assert_eq!(
        ctx.try_orientation_data(1).err(),
        Some(AniseError::IntegrityError(IntegrityErrorKind::LookupTable))
    );
    assert_eq!(ctx.ephemeris_lut.index_for_hash(&7), Err(AniseError::ItemNotFound));
}

fn record(hash: u32) -> Ephemeris {
    Ephemeris { hash, parent_ephemeris_hash: 0, first_segment: 0, segment_count: 1 }
}

#[test]
fn lookup_table_construction() {
    let recs = vec![record(5), record(9), record(1)];
    let t = LookupTable::try_new(vec![1, 5, 9], vec![2, 0, 1], &recs).unwrap();
    assert_eq!(t.index_for_hash(&1), Ok(2));
    assert_eq!(t.index_for_hash(&5), Ok(0));
    assert_eq!(t.index_for_hash(&9), Ok(1));
    assert_eq!(t.index_for_hash(&4), Err(AniseError::ItemNotFound));
    assert_eq!(t.index_for_hash(&10), Err(AniseError::ItemNotFound));
    let two = vec![record(1), record(2)];
    assert!(LookupTable::try_new(vec![1, 1], vec![0, 1], &two).is_err());
    assert!(LookupTable::try_new(vec![1, 2], vec![0], &two).is_err());
    assert!(LookupTable::try_new(vec![1, 2], vec![0, 2], &two).is_err());
    assert!(LookupTable::try_new(vec![1, 2], vec![1, 0], &two).is_err());
    assert!(LookupTable::try_new(vec![1, 2], vec![0, 1], &two).is_ok());
    assert!(LookupTable::try_new(vec![], vec![], &vec![]).is_ok());
}

#[test]
fn identity_paths_are_empty() {
    let buf = de_catalog();
    let ctx = AniseContext::try_from_bytes(&buf).unwrap();
    // Even a frame unknown to the catalog meets itself without a lookup.
    let unknown = j2k(424242);
    let p = ctx.common_ephemeris_path(unknown, unknown).unwrap();
    assert_eq!((p.common, p.from_len, p.to_len), (424242, 0, 0));
    let q = ctx.common_orientation_path(unknown, unknown).unwrap();
    assert_eq!((q.common, q.from_len, q.to_len), (J2000, 0, 0));
}

#[test]
fn variant_names() {
    assert_eq!(InterpolationKind(0).variant_name(), Some("ChebyshevSeries"));
    assert_eq!(InterpolationKind(2).variant_name(), Some("LagrangeSeries"));
    assert_eq!(InterpolationKind(3).variant_name(), Some("Polynomial"));
    assert_eq!(InterpolationKind(4).variant_name(), Some("Trigonometric"));
    assert_eq!(InterpolationKind(5).variant_name(), None);
}

#[test]
fn empty_catalog_has_no_root() {
    let buf = encode(&[], &[], &[], &[]);
    let ctx = AniseContext::try_from_bytes(&buf).unwrap();
    assert_eq!(ctx.try_find_context_root(), Err(AniseError::ItemNotFound));
}

#[test]
fn segment_record_shape() {
    let buf = de_catalog();
    let ctx = AniseContext::try_from_bytes(&buf).unwrap();
    let seg: Segment = ctx.segments[0];
    assert_eq!((seg.start_epoch, seg.end_epoch, seg.coeff_len), (-1000, 1000, 24));
    assert_eq!(ctx.coefficients(&seg), &(1..=24).collect::<Vec<u8>>()[..]);
}

#[test]
fn root_hash_record_is_rejected() {
    let buf = encode(&[rec(0, 0)], &[(0, 0)], &[], &[]);
    assert_eq!(
        AniseContext::try_from_bytes(&buf).err(),
        Some(AniseError::IntegrityError(IntegrityErrorKind::InvalidRecord))
    );
    let buf = encode(&[], &[], &[rec(0, 0)], &[]);
    assert_eq!(
        AniseContext::try_from_bytes(&buf).err(),
        Some(AniseError::IntegrityError(IntegrityErrorKind::InvalidRecord))
    );
}

#[test]
fn lut_entry_of_other_hash_is_rejected() {
    let ephem = vec![rec(10, 0), rec(20, 0)];
    let buf = encode(&ephem, &[(10, 1), (20, 0)], &[], &[]);
    assert_eq!(
        AniseContext::try_from_bytes(&buf).err(),
        Some(AniseError::IntegrityError(IntegrityErrorKind::LookupTable))
    );
    let buf = encode(&ephem, &[(0, 0), (10, 0)], &[], &[]);
    assert_eq!(
        AniseContext::try_from_bytes(&buf).err(),
        Some(AniseError::IntegrityError(IntegrityErrorKind::LookupTable))
    );
}

#[test]
fn hop_segments_in_order() {
    let buf = de_catalog();
    let ctx = AniseContext::try_from_bytes(&buf).unwrap();
    let p = ctx.common_ephemeris_path(j2k(LUNA), j2k(SUN)).unwrap();
    let segs = ctx.segments_of_hops(&p.from_nodes, p.from_len, 1000, false).unwrap();
    assert_eq!(segs.len(), 2);
    assert_eq!((segs[0].start_epoch, segs[0].end_epoch), (-1000, 1000));
    assert_eq!(ctx.segments_of_hops(&p.from_nodes, p.from_len, 1001, false), Err(AniseError::OutOfCoverage));
    assert_eq!(ctx.segments_of_hops(&p.from_nodes, 0, 1001, false), Ok(vec![]));
    let nodes = [J2000, 0, 0, 0, 0, 0, 0, 0];
    assert_eq!(ctx.segments_of_hops(&nodes, 1, 0, true).unwrap().len(), 1);
    assert_eq!(ctx.segments_of_hops(&nodes, 1, 0, false), Err(AniseError::ItemNotFound));
}
