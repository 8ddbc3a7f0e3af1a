//! The boundary to the external GPX codec. The `gpx` crate parses and
//! serializes the XML dialect; everything it hands back is converted here
//! into the library's own document model, coordinate by coordinate, and the
//! conversion is verified against the names given to the parser's results.
use vstd::prelude::*;

verus! {

use crate::model::{
    doc_of_raw, doc_v, point_of_raw, point_v, seg_in_range, seg_of_raw, segment_v, track_in_range,
    track_of_raw, track_v, Document, PointV, RawDocV, RawPointV, DocSegment, DocTrack, DocPoint,
    doc_in_range,
};
use crate::numbers::parse_nano;
use crate::text::str_chars;

#[verifier::external_type_specification]
#[verifier::external_body]
pub struct ExGpx(gpx::Gpx);

#[verifier::external_type_specification]
#[verifier::external_body]
pub struct ExGpxTrack(gpx::Track);

#[verifier::external_type_specification]
#[verifier::external_body]
pub struct ExGpxTrackSegment(gpx::TrackSegment);

#[verifier::external_type_specification]
#[verifier::external_body]
pub struct ExGpxWaypoint(gpx::Waypoint);

/// The tracks a parsed document holds.
pub uninterp spec fn tracks_of(g: gpx::Gpx) -> Seq<gpx::Track>;

/// The segments a parsed track holds.
pub uninterp spec fn segments_of(t: gpx::Track) -> Seq<gpx::TrackSegment>;

/// The points a parsed segment holds.
pub uninterp spec fn points_of(s: gpx::TrackSegment) -> Seq<gpx::Waypoint>;

/// The decimal text of a parsed point's latitude.
pub uninterp spec fn lat_text_of(w: gpx::Waypoint) -> Seq<char>;

/// The decimal text of a parsed point's longitude.
pub uninterp spec fn lon_text_of(w: gpx::Waypoint) -> Seq<char>;

/// The decimal text of a parsed point's elevation, if it has one.
pub uninterp spec fn ele_text_of(w: gpx::Waypoint) -> Option<Seq<char>>;

/// The coordinate texts of one parsed point.
pub open spec fn waypoint_raw(w: gpx::Waypoint) -> RawPointV {
    (lat_text_of(w), lon_text_of(w), ele_text_of(w))
}

/// The coordinate texts of one parsed segment.
pub open spec fn points_raw(s: gpx::TrackSegment) -> Seq<RawPointV> {
    points_of(s).map_values(|w: gpx::Waypoint| waypoint_raw(w))
}

/// The coordinate texts of one parsed track.
pub open spec fn track_raw(t: gpx::Track) -> Seq<Seq<RawPointV>> {
    segments_of(t).map_values(|s: gpx::TrackSegment| points_raw(s))
}

/// The coordinate texts of a whole parsed document.
pub open spec fn gpx_model(g: gpx::Gpx) -> RawDocV {
    tracks_of(g).map_values(|t: gpx::Track| track_raw(t))
}

/// What parsing a text yields: the coordinate texts of its document when the
/// codec accepts it, `None` when the codec rejects it. Parsing is a pure
/// function of the input text.
pub uninterp spec fn parse_outcome(s: Seq<char>) -> Option<RawDocV>;

/// The XML text the codec writes for a document value.
pub uninterp spec fn xml_text_of(g: gpx::Gpx) -> Seq<char>;

/// Whether the codec's writer accepts a document value (it rejects, for
/// one, a document whose version field is unset). A pure function of the
/// value.
pub uninterp spec fn xml_write_ok(g: gpx::Gpx) -> bool;

/// Relies on `gpx::read`: a deterministic parse of GPX XML from the input
/// text alone; the tracks of the returned value hold the parsed coordinates.
#[verifier::external_body]
pub fn parse_document(s: &str) -> (r: Result<gpx::Gpx, String>)
    ensures
        r matches Ok(g) ==> parse_outcome(s@) == Some(gpx_model(g)),
        r is Err ==> parse_outcome(s@) is None,
{
    match gpx::read(s.as_bytes()) {
        Ok(g) => Ok(g),
        Err(e) => Err(format!("{}", e)),
    }
}

/// Relies on `gpx::write`: serializes a document value to XML text.
/// Whether it succeeds, and the text it writes, are pure functions of the
/// value, which the writer walks field by field.
#[verifier::external_body]
pub fn write_document(g: &gpx::Gpx) -> (r: Result<String, String>)
    ensures
        r is Ok <==> xml_write_ok(*g),
        r matches Ok(s) ==> s@ == xml_text_of(*g),
{
    let mut buf: Vec<u8> = Vec::new();
    match gpx::write(g, &mut buf) {
        Ok(()) => match String::from_utf8(buf) {
            Ok(s) => Ok(s),
            Err(e) => Err(format!("{}", e)),
        },
        Err(e) => Err(format!("{}", e)),
    }
}

/// Relies on the public `tracks` field of `gpx::Gpx`.
#[verifier::external_body]
fn gpx_tracks(g: &gpx::Gpx) -> (r: &Vec<gpx::Track>)
    ensures
        r@ == tracks_of(*g),
{
    &g.tracks
}

/// Relies on the public `segments` field of `gpx::Track`.
#[verifier::external_body]
fn gpx_track_segments(t: &gpx::Track) -> (r: &Vec<gpx::TrackSegment>)
    ensures
        r@ == segments_of(*t),
{
    &t.segments
}

/// Relies on the public `points` field of `gpx::TrackSegment`.
#[verifier::external_body]
fn gpx_segment_points(s: &gpx::TrackSegment) -> (r: &Vec<gpx::Waypoint>)
    ensures
        r@ == points_of(*s),
{
    &s.points
}

/// Relies on `gpx::Waypoint::point` and on the display form of its `y`
/// coordinate: the latitude as decimal text, a pure function of the point.
#[verifier::external_body]
fn waypoint_lat_text(w: &gpx::Waypoint) -> (r: String)
    ensures
        r@ == lat_text_of(*w),
{
    format!("{}", w.point().y())
}

/// Relies on `gpx::Waypoint::point` and on the display form of its `x`
/// coordinate: the longitude as decimal text, a pure function of the point.
#[verifier::external_body]
fn waypoint_lon_text(w: &gpx::Waypoint) -> (r: String)
    ensures
        r@ == lon_text_of(*w),
{
    format!("{}", w.point().x())
}

/// Relies on the public `elevation` field of `gpx::Waypoint` and on the
/// display form of `f64`: the elevation as decimal text, when present.
#[verifier::external_body]
fn waypoint_ele_text(w: &gpx::Waypoint) -> (r: Option<String>)
    ensures
        r matches Some(t) ==> ele_text_of(*w) == Some(t@),
        r is None ==> ele_text_of(*w) is None,
{
    match w.elevation {
        Some(e) => Some(format!("{}", e)),
        None => None,
    }
}

fn extract_point(w: &gpx::Waypoint) -> (r: Option<DocPoint>)
    ensures
        r matches Some(p) ==> point_of_raw(waypoint_raw(*w)) == Some(point_v(p))
            && crate::model::point_in_range(point_v(p)),
        r is None ==> point_of_raw(waypoint_raw(*w)) is None,
{
    let lat_text = waypoint_lat_text(w);
    let lat_chars = str_chars(lat_text.as_str());
    let lat = match parse_nano(&lat_chars) {
        Some(x) => x,
        None => {
            return None;
        },
    };
    let lon_text = waypoint_lon_text(w);
    let lon_chars = str_chars(lon_text.as_str());
    let lon = match parse_nano(&lon_chars) {
        Some(x) => x,
        None => {
            return None;
        },
    };
    let ele = match waypoint_ele_text(w) {
        Some(ele_text) => {
            let ele_chars = str_chars(ele_text.as_str());
            match parse_nano(&ele_chars) {
                Some(x) => Some(x),
                None => {
                    return None;
                },
            }
        },
        None => None,
    };
    Some(DocPoint { lat_nano: lat, lon_nano: lon, ele_nano: ele })
}

proof fn lemma_seg_of_raw_elem_fails(rs: Seq<RawPointV>, i: int)
    requires
        0 <= i < rs.len(),
        point_of_raw(rs[i]) is None,
    ensures
        seg_of_raw(rs) is None,
    decreases rs.len(),
{
    if i == rs.len() - 1 {
    } else {
        lemma_seg_of_raw_elem_fails(rs.drop_last(), i);
    }
}

proof fn lemma_track_of_raw_elem_fails(rt: Seq<Seq<RawPointV>>, i: int)
    requires
        0 <= i < rt.len(),
        seg_of_raw(rt[i]) is None,
    ensures
        track_of_raw(rt) is None,
    decreases rt.len(),
{
    if i == rt.len() - 1 {
    } else {
        lemma_track_of_raw_elem_fails(rt.drop_last(), i);
    }
}

proof fn lemma_doc_of_raw_elem_fails(rd: RawDocV, i: int)
    requires
        0 <= i < rd.len(),
        track_of_raw(rd[i]) is None,
    ensures
        doc_of_raw(rd) is None,
    decreases rd.len(),
{
    if i == rd.len() - 1 {
    } else {
        lemma_doc_of_raw_elem_fails(rd.drop_last(), i);
    }
}

fn extract_segment(s: &gpx::TrackSegment) -> (r: Option<DocSegment>)
    ensures
        r matches Some(sg) ==> seg_of_raw(points_raw(*s)) == Some(segment_v(sg)) && seg_in_range(
            segment_v(sg),
        ),
        r is None ==> seg_of_raw(points_raw(*s)) is None,
{
    let ghost rs = points_raw(*s);
    let pts = gpx_segment_points(s);
    let mut out: Vec<DocPoint> = Vec::new();
    let mut i: usize = 0;
    while i < pts.len()
        invariant
            i <= pts.len(),
            pts@ == points_of(*s),
            rs == points_raw(*s),
            seg_of_raw(rs.take(i as int)) == Some(segment_v(DocSegment { points: out })),
            seg_in_range(segment_v(DocSegment { points: out })),
        decreases pts.len() - i,
    {
        proof {
            assert(rs.take(i + 1).drop_last() =~= rs.take(i as int));
            assert(rs[i as int] == waypoint_raw(points_of(*s)[i as int]));
        }
        match extract_point(&pts[i]) {
            Some(p) => {
                let ghost out0 = out;
                out.push(p);
                proof {
                    let prev = segment_v(DocSegment { points: out0 });
                    let cur = segment_v(DocSegment { points: out });
                    assert(cur =~= prev.push(point_v(p)));
                    assert(seg_of_raw(rs.take(i + 1)) == Some(cur));
                    assert forall|k: int| 0 <= k < cur.len() implies crate::model::point_in_range(
                        #[trigger] cur[k],
                    ) by {
                        if k < prev.len() {
                            assert(cur[k] == prev[k]);
                        }
                    }
                }
            },
            None => {
                proof {
                    lemma_seg_of_raw_elem_fails(rs, i as int);
                }
                return None;
            },
        }
        i = i + 1;
    }
    proof {
        assert(rs.take(rs.len() as int) =~= rs);
    }
    Some(DocSegment { points: out })
}

fn extract_track(t: &gpx::Track) -> (r: Option<DocTrack>)
    ensures
        r matches Some(tr) ==> track_of_raw(track_raw(*t)) == Some(track_v(tr)) && track_in_range(
            track_v(tr),
        ),
        r is None ==> track_of_raw(track_raw(*t)) is None,
{
    let ghost rt = track_raw(*t);
    let segs = gpx_track_segments(t);
    let mut out: Vec<DocSegment> = Vec::new();
    let mut i: usize = 0;
    while i < segs.len()
        invariant
            i <= segs.len(),
            segs@ == segments_of(*t),
            rt == track_raw(*t),
            track_of_raw(rt.take(i as int)) == Some(track_v(DocTrack { segments: out })),
            track_in_range(track_v(DocTrack { segments: out })),
        decreases segs.len() - i,
    {
        proof {
            assert(rt.take(i + 1).drop_last() =~= rt.take(i as int));
            assert(rt[i as int] == points_raw(segments_of(*t)[i as int]));
        }
        match extract_segment(&segs[i]) {
            Some(sg) => {
                let ghost out0 = out;
                let ghost sgv = segment_v(sg);
                out.push(sg);
                proof {
                    let prev = track_v(DocTrack { segments: out0 });
                    let cur = track_v(DocTrack { segments: out });
                    assert(cur =~= prev.push(sgv));
                    assert(track_of_raw(rt.take(i + 1)) == Some(cur));
                    assert forall|k: int| 0 <= k < cur.len() implies seg_in_range(
                        #[trigger] cur[k],
                    ) by {
                        if k < prev.len() {
                            assert(cur[k] == prev[k]);
                        }
                    }
                }
            },
            None => {
                proof {
                    lemma_track_of_raw_elem_fails(rt, i as int);
                }
                return None;
            },
        }
        i = i + 1;
    }
    proof {
        assert(rt.take(rt.len() as int) =~= rt);
    }
    Some(DocTrack { segments: out })
}

/// Converts a parsed document into the library's model, reading every
/// coordinate text as a fixed-point nano-unit value. Fails when any
/// coordinate is not a decimal text within the magnitude ceiling — a limit
/// of the fixed-point representation (see `COORD_LIMIT_NANO`), which only a
/// non-physical or non-finite elevation can exceed, since the codec bounds
/// latitude and longitude itself.
pub fn extract_document(g: &gpx::Gpx) -> (r: Option<Document>)
    ensures
        r matches Some(d) ==> doc_of_raw(gpx_model(*g)) == Some(doc_v(d)) && doc_in_range(doc_v(d)),
        r is None ==> doc_of_raw(gpx_model(*g)) is None,
{
    let ghost rd = gpx_model(*g);
    let tracks = gpx_tracks(g);
    let mut out: Vec<DocTrack> = Vec::new();
    let mut i: usize = 0;
    while i < tracks.len()
        invariant
            i <= tracks.len(),
            tracks@ == tracks_of(*g),
            rd == gpx_model(*g),
            doc_of_raw(rd.take(i as int)) == Some(doc_v(Document { tracks: out })),
            doc_in_range(doc_v(Document { tracks: out })),
        decreases tracks.len() - i,
    {
        proof {
            assert(rd.take(i + 1).drop_last() =~= rd.take(i as int));
            assert(rd[i as int] == track_raw(tracks_of(*g)[i as int]));
        }
        match extract_track(&tracks[i]) {
            Some(tr) => {
                let ghost out0 = out;
                let ghost trv = track_v(tr);
                out.push(tr);
                proof {
                    let prev = doc_v(Document { tracks: out0 });
                    let cur = doc_v(Document { tracks: out });
                    assert(cur =~= prev.push(trv));
                    assert(doc_of_raw(rd.take(i + 1)) == Some(cur));
                    assert forall|k: int| 0 <= k < cur.len() implies track_in_range(
                        #[trigger] cur[k],
                    ) by {
                        if k < prev.len() {
                            assert(cur[k] == prev[k]);
                        }
                    }
                }
            },
            None => {
                proof {
                    lemma_doc_of_raw_elem_fails(rd, i as int);
                }
                return None;
            },
        }
        i = i + 1;
    }
    proof {
        assert(rd.take(rd.len() as int) =~= rd);
    }
    Some(Document { tracks: out })
}

} // verus!
