//! The in-memory document model. A parsed track log is a sequence of tracks,
//! each a sequence of segments, each a sequence of points; a point carries a
//! latitude, a longitude, and an optional elevation, all as fixed-point
//! nano-unit integers.
use vstd::prelude::*;

verus! {

use crate::numbers::{nano_of_text, COORD_LIMIT_NANO};

/// Byte-size ceiling on input documents.
pub const MAX_INPUT_BYTES: usize = 50_000_000;

/// Point-count ceiling on documents accepted by reduction.
pub const MAX_POINTS: usize = 100_000;

/// The coordinate texts of one point as the parser hands them over:
/// latitude, longitude, and the elevation when the point has one.
pub type RawPointV = (Seq<char>, Seq<char>, Option<Seq<char>>);

/// The coordinate texts of a whole document: tracks of segments of points.
pub type RawDocV = Seq<Seq<Seq<RawPointV>>>;

/// One point in nano-units: latitude, longitude, optional elevation.
pub type PointV = (int, int, Option<int>);

/// A whole document in nano-units: tracks of segments of points.
pub type DocV = Seq<Seq<Seq<PointV>>>;

/// A single track point.
#[derive(Clone, Copy)]
pub struct DocPoint {
    /// Latitude in nano-degrees.
    pub lat_nano: i64,
    /// Longitude in nano-degrees.
    pub lon_nano: i64,
    /// Elevation in nano-meters, when the source point carried one.
    pub ele_nano: Option<i64>,
}

/// A contiguous run of track points.
pub struct DocSegment {
    pub points: Vec<DocPoint>,
}

/// An ordered sequence of segments.
pub struct DocTrack {
    pub segments: Vec<DocSegment>,
}

/// An ordered sequence of tracks.
pub struct Document {
    pub tracks: Vec<DocTrack>,
}

/// The mathematical value of a point.
pub open spec fn point_v(p: DocPoint) -> PointV {
    (
        p.lat_nano as int,
        p.lon_nano as int,
        match p.ele_nano {
            Some(e) => Some(e as int),
            None => None,
        },
    )
}

/// The mathematical value of a segment.
pub open spec fn segment_v(s: DocSegment) -> Seq<PointV> {
    s.points@.map_values(|p: DocPoint| point_v(p))
}

/// The mathematical value of a track.
pub open spec fn track_v(t: DocTrack) -> Seq<Seq<PointV>> {
    t.segments@.map_values(|s: DocSegment| segment_v(s))
}

/// The mathematical value of a document.
pub open spec fn doc_v(d: Document) -> DocV {
    d.tracks@.map_values(|t: DocTrack| track_v(t))
}

/// The nano-unit value of one point's coordinate texts; `None` when any of
/// them is not a decimal text within the coordinate magnitude ceiling.
pub open spec fn point_of_raw(rp: RawPointV) -> Option<PointV> {
    match (nano_of_text(rp.0), nano_of_text(rp.1)) {
        (Some(la), Some(lo)) => match rp.2 {
            Some(et) => match nano_of_text(et) {
                Some(e) => Some((la, lo, Some(e))),
                None => None,
            },
            None => Some((la, lo, None)),
        },
        _ => None,
    }
}

/// The nano-unit values of a segment's points, `None` if any point fails.
pub open spec fn seg_of_raw(rs: Seq<RawPointV>) -> Option<Seq<PointV>>
    decreases rs.len(),
{
    if rs.len() == 0 {
        Some(Seq::<PointV>::empty())
    } else {
        match (seg_of_raw(rs.drop_last()), point_of_raw(rs.last())) {
            (Some(ps), Some(p)) => Some(ps.push(p)),
            _ => None,
        }
    }
}

/// The nano-unit values of a track's segments, `None` if any segment fails.
pub open spec fn track_of_raw(rt: Seq<Seq<RawPointV>>) -> Option<Seq<Seq<PointV>>>
    decreases rt.len(),
{
    if rt.len() == 0 {
        Some(Seq::<Seq<PointV>>::empty())
    } else {
        match (track_of_raw(rt.drop_last()), seg_of_raw(rt.last())) {
            (Some(ts), Some(s)) => Some(ts.push(s)),
            _ => None,
        }
    }
}

/// The nano-unit values of a whole document, `None` if any track fails.
pub open spec fn doc_of_raw(rd: RawDocV) -> Option<DocV>
    decreases rd.len(),
{
    if rd.len() == 0 {
        Some(Seq::<Seq<Seq<PointV>>>::empty())
    } else {
        match (doc_of_raw(rd.drop_last()), track_of_raw(rd.last())) {
            (Some(ds), Some(t)) => Some(ds.push(t)),
            _ => None,
        }
    }
}

/// The number of points in one track.
pub open spec fn track_point_count(t: Seq<Seq<PointV>>) -> int
    decreases t.len(),
{
    if t.len() == 0 {
        0
    } else {
        track_point_count(t.drop_last()) + t.last().len()
    }
}

/// The number of points in a whole document.
pub open spec fn doc_point_count(d: DocV) -> int
    decreases d.len(),
{
    if d.len() == 0 {
        0
    } else {
        doc_point_count(d.drop_last()) + track_point_count(d.last())
    }
}

/// The number of segments in a whole document.
pub open spec fn doc_segment_count(d: DocV) -> int
    decreases d.len(),
{
    if d.len() == 0 {
        0
    } else {
        doc_segment_count(d.drop_last()) + d.last().len()
    }
}

pub proof fn lemma_track_point_count_nonneg(t: Seq<Seq<PointV>>)
    ensures
        track_point_count(t) >= 0,
    decreases t.len(),
{
    if t.len() > 0 {
        lemma_track_point_count_nonneg(t.drop_last());
    }
}

pub proof fn lemma_doc_point_count_nonneg(d: DocV)
    ensures
        doc_point_count(d) >= 0,
    decreases d.len(),
{
    if d.len() > 0 {
        lemma_doc_point_count_nonneg(d.drop_last());
        lemma_track_point_count_nonneg(d.last());
    }
}

pub proof fn lemma_doc_segment_count_nonneg(d: DocV)
    ensures
        doc_segment_count(d) >= 0,
    decreases d.len(),
{
    if d.len() > 0 {
        lemma_doc_segment_count_nonneg(d.drop_last());
    }
}

/// Every coordinate of the document is within the magnitude ceiling.
pub open spec fn point_in_range(p: PointV) -> bool {
    &&& -COORD_LIMIT_NANO <= p.0 <= COORD_LIMIT_NANO
    &&& -COORD_LIMIT_NANO <= p.1 <= COORD_LIMIT_NANO
    &&& match p.2 {
        Some(e) => -COORD_LIMIT_NANO <= e <= COORD_LIMIT_NANO,
        None => true,
    }
}

/// `n` capped at the largest `usize`.
pub open spec fn capped(n: int) -> int {
    if n > usize::MAX {
        usize::MAX as int
    } else {
        n
    }
}

pub(crate) fn add_sat(a: usize, b: usize) -> (r: usize)
    ensures
        r as int == capped(a + b),
{
    if b > usize::MAX - a {
        usize::MAX
    } else {
        a + b
    }
}

/// Counts the points of the document, saturating at the largest `usize`.
pub fn count_points(d: &Document) -> (r: usize)
    ensures
        r as int == capped(doc_point_count(doc_v(*d))),
{
    let ghost dv = doc_v(*d);
    let mut r: usize = 0;
    let mut i: usize = 0;
    while i < d.tracks.len()
        invariant
            i <= d.tracks.len(),
            dv == doc_v(*d),
            dv.len() == d.tracks@.len(),
            r as int == capped(doc_point_count(dv.take(i as int))),
        decreases d.tracks.len() - i,
    {
        let ghost tv = track_v(d.tracks@[i as int]);
        proof {
            assert(dv.take(i + 1).drop_last() =~= dv.take(i as int));
            assert(dv[i as int] == tv);
            lemma_doc_point_count_nonneg(dv.take(i as int));
        }
        let track = &d.tracks[i];
        let mut j: usize = 0;
        while j < track.segments.len()
            invariant
                j <= track.segments.len(),
                track == d.tracks@[i as int],
                i < d.tracks@.len(),
                dv == doc_v(*d),
                dv.len() == d.tracks@.len(),
                tv == track_v(d.tracks@[i as int]),
                tv.len() == track.segments@.len(),
                r as int == capped(
                    doc_point_count(dv.take(i as int)) + track_point_count(tv.take(j as int)),
                ),
            decreases track.segments.len() - j,
        {
            proof {
                assert(tv.take(j + 1).drop_last() =~= tv.take(j as int));
                assert(tv[j as int] == segment_v(track.segments@[j as int]));
                lemma_doc_point_count_nonneg(dv.take(i as int));
                lemma_track_point_count_nonneg(tv.take(j as int));
            }
            r = add_sat(r, track.segments[j].points.len());
            j = j + 1;
        }
        proof {
            assert(tv.take(tv.len() as int) =~= tv);
        }
        i = i + 1;
    }
    proof {
        assert(dv.take(dv.len() as int) =~= dv);
    }
    r
}

/// Counts the segments of the document, saturating at the largest `usize`.
pub fn count_segments(d: &Document) -> (r: usize)
    ensures
        r as int == capped(doc_segment_count(doc_v(*d))),
{
    let ghost dv = doc_v(*d);
    let mut r: usize = 0;
    let mut i: usize = 0;
    while i < d.tracks.len()
        invariant
            i <= d.tracks.len(),
            dv == doc_v(*d),
            dv.len() == d.tracks@.len(),
            r as int == capped(doc_segment_count(dv.take(i as int))),
        decreases d.tracks.len() - i,
    {
        proof {
            assert(dv.take(i + 1).drop_last() =~= dv.take(i as int));
            assert(dv[i as int] == track_v(d.tracks@[i as int]));
            lemma_doc_segment_count_nonneg(dv.take(i as int));
            assert(track_v(d.tracks@[i as int]).len() == d.tracks@[i as int].segments@.len());
        }
        r = add_sat(r, d.tracks[i].segments.len());
        i = i + 1;
    }
    proof {
        assert(dv.take(dv.len() as int) =~= dv);
    }
    r
}

/// Every point of the segment is within the coordinate magnitude ceiling.
pub open spec fn seg_in_range(s: Seq<PointV>) -> bool {
    forall|k: int| 0 <= k < s.len() ==> point_in_range(#[trigger] s[k])
}

/// Every point of the track is within the coordinate magnitude ceiling.
pub open spec fn track_in_range(t: Seq<Seq<PointV>>) -> bool {
    forall|j: int| 0 <= j < t.len() ==> seg_in_range(#[trigger] t[j])
}

/// Every point of the document is within the coordinate magnitude ceiling.
pub open spec fn doc_in_range(d: DocV) -> bool {
    forall|i: int| 0 <= i < d.len() ==> track_in_range(#[trigger] d[i])
}

} // verus!
