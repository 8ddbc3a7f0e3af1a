//! The reducer: walks a parsed document, rounds every coordinate to two
//! decimal places (half away from zero), drops all metadata, and serializes
//! the result to a compact key-value text encoding with the fixed field
//! names `trk`, `trkseg`, `trkpt`, `lat`, `lon`, `ele`.
use vstd::prelude::*;

verus! {

use crate::errors::GpxError;
use crate::model::{
    capped, count_points, doc_in_range, doc_of_raw, doc_point_count, doc_v, point_v, segment_v,
    track_v, DocPoint, DocSegment, DocTrack, Document, DocV, PointV, MAX_INPUT_BYTES, MAX_POINTS,
};
use crate::numbers::{render_centi, round_centi, round_to_centi, CENTI_LIMIT, COORD_LIMIT_NANO};
use crate::parse::{extract_document, parse_document, parse_outcome};
use crate::text::{chars_string, str_byte_len, str_chars, utf8_len};
use vstd::string::StringExecFns;

/// One reduced point in centi-units: latitude, longitude, elevation.
pub type RPointV = (int, int, int);

/// A reduced document in centi-units: tracks of segments of points.
pub type RDocV = Seq<Seq<Seq<RPointV>>>;

/// A reduced track point: coordinates rounded to centi-units (two decimal
/// places). A point without an elevation is reduced to elevation zero.
pub struct SmlrTrackPoint {
    /// Latitude in centi-degrees.
    pub lat: i64,
    /// Longitude in centi-degrees.
    pub lon: i64,
    /// Elevation in centi-meters; zero when the source point had none.
    pub ele: i64,
}

/// A reduced track segment.
pub struct SmlrTrackSegment {
    pub trkpt: Vec<SmlrTrackPoint>,
}

/// A reduced track.
pub struct SmlrTrack {
    pub trkseg: Vec<SmlrTrackSegment>,
}

/// A reduced document: only geometry survives reduction.
pub struct SmlrGpx {
    pub trk: Vec<SmlrTrack>,
}

/// The mathematical value of a reduced point.
pub open spec fn smlr_point_v(p: SmlrTrackPoint) -> RPointV {
    (p.lat as int, p.lon as int, p.ele as int)
}

/// The mathematical value of a reduced segment.
pub open spec fn smlr_segment_v(s: SmlrTrackSegment) -> Seq<RPointV> {
    s.trkpt@.map_values(|p: SmlrTrackPoint| smlr_point_v(p))
}

/// The mathematical value of a reduced track.
pub open spec fn smlr_track_v(t: SmlrTrack) -> Seq<Seq<RPointV>> {
    t.trkseg@.map_values(|s: SmlrTrackSegment| smlr_segment_v(s))
}

/// The mathematical value of a reduced document.
pub open spec fn smlr_v(g: SmlrGpx) -> RDocV {
    g.trk@.map_values(|t: SmlrTrack| smlr_track_v(t))
}

/// Reduction of one point: each coordinate rounded to centi-units, a missing
/// elevation collapsed to zero.
pub open spec fn reduce_point(p: PointV) -> RPointV {
    (
        round_centi(p.0),
        round_centi(p.1),
        match p.2 {
            Some(e) => round_centi(e),
            None => 0,
        },
    )
}

/// Reduction of a segment: every point reduced, in order.
pub open spec fn reduce_seg(s: Seq<PointV>) -> Seq<RPointV> {
    s.map_values(|p: PointV| reduce_point(p))
}

/// Reduction of a track: every segment reduced, in order.
pub open spec fn reduce_track(t: Seq<Seq<PointV>>) -> Seq<Seq<RPointV>> {
    t.map_values(|s: Seq<PointV>| reduce_seg(s))
}

/// Reduction of a whole document: every track reduced, in order.
pub open spec fn reduce_doc(d: DocV) -> RDocV {
    d.map_values(|t: Seq<Seq<PointV>>| reduce_track(t))
}

/// Every centi-unit coordinate of the reduced point is within the ceiling.
pub open spec fn rpoint_in_range(p: RPointV) -> bool {
    &&& -CENTI_LIMIT <= p.0 <= CENTI_LIMIT
    &&& -CENTI_LIMIT <= p.1 <= CENTI_LIMIT
    &&& -CENTI_LIMIT <= p.2 <= CENTI_LIMIT
}

/// Every point of the reduced segment is within the centi-unit ceiling.
pub open spec fn rseg_in_range(s: Seq<RPointV>) -> bool {
    forall|k: int| 0 <= k < s.len() ==> rpoint_in_range(#[trigger] s[k])
}

/// Every point of the reduced track is within the centi-unit ceiling.
pub open spec fn rtrack_in_range(t: Seq<Seq<RPointV>>) -> bool {
    forall|j: int| 0 <= j < t.len() ==> rseg_in_range(#[trigger] t[j])
}

/// Every point of the reduced document is within the centi-unit ceiling.
pub open spec fn rdoc_in_range(d: RDocV) -> bool {
    forall|i: int| 0 <= i < d.len() ==> rtrack_in_range(#[trigger] d[i])
}

proof fn lemma_round_centi_range(x: int)
    requires
        -COORD_LIMIT_NANO <= x <= COORD_LIMIT_NANO,
    ensures
        -CENTI_LIMIT <= round_centi(x) <= CENTI_LIMIT,
{
    if x >= 0 {
        vstd::arithmetic::div_mod::lemma_div_is_ordered(
            x + 5_000_000,
            COORD_LIMIT_NANO as int + 5_000_000,
            10_000_000,
        );
        vstd::arithmetic::div_mod::lemma_div_is_ordered(0, x + 5_000_000, 10_000_000);
    } else {
        vstd::arithmetic::div_mod::lemma_div_is_ordered(
            -x + 5_000_000,
            COORD_LIMIT_NANO as int + 5_000_000,
            10_000_000,
        );
        vstd::arithmetic::div_mod::lemma_div_is_ordered(0, -x + 5_000_000, 10_000_000);
    }
}

/// Reduction keeps every coordinate within the centi-unit ceiling.
pub proof fn lemma_reduce_doc_in_range(d: DocV)
    requires
        doc_in_range(d),
    ensures
        rdoc_in_range(reduce_doc(d)),
{
    let rd = reduce_doc(d);
    assert forall|i: int| 0 <= i < rd.len() implies rtrack_in_range(#[trigger] rd[i]) by {
        assert(rd[i] == reduce_track(d[i]));
        assert(crate::model::track_in_range(d[i]));
        assert forall|j: int| 0 <= j < rd[i].len() implies rseg_in_range(#[trigger] rd[i][j]) by {
            assert(rd[i][j] == reduce_seg(d[i][j]));
            assert(crate::model::seg_in_range(d[i][j]));
            assert forall|k: int| 0 <= k < rd[i][j].len() implies rpoint_in_range(
                #[trigger] rd[i][j][k],
            ) by {
                assert(rd[i][j][k] == reduce_point(d[i][j][k]));
                assert(crate::model::point_in_range(d[i][j][k]));
                let p = d[i][j][k];
                lemma_round_centi_range(p.0);
                lemma_round_centi_range(p.1);
                match p.2 {
                    Some(e) => {
                        lemma_round_centi_range(e);
                    },
                    None => {},
                }
            }
        }
    }
}

fn reduce_exec_point(p: &DocPoint) -> (r: SmlrTrackPoint)
    requires
        crate::model::point_in_range(point_v(*p)),
    ensures
        smlr_point_v(r) == reduce_point(point_v(*p)),
        rpoint_in_range(smlr_point_v(r)),
{
    let lat = round_to_centi(p.lat_nano);
    let lon = round_to_centi(p.lon_nano);
    let ele = match p.ele_nano {
        Some(e) => round_to_centi(e),
        None => 0,
    };
    SmlrTrackPoint { lat, lon, ele }
}

fn reduce_exec_segment(s: &DocSegment) -> (r: SmlrTrackSegment)
    requires
        crate::model::seg_in_range(segment_v(*s)),
    ensures
        smlr_segment_v(r) == reduce_seg(segment_v(*s)),
{
    let ghost sv = segment_v(*s);
    let mut out: Vec<SmlrTrackPoint> = Vec::new();
    let mut i: usize = 0;
    while i < s.points.len()
        invariant
            i <= s.points.len(),
            sv == segment_v(*s),
            sv.len() == s.points@.len(),
            crate::model::seg_in_range(sv),
            smlr_segment_v(SmlrTrackSegment { trkpt: out }) == reduce_seg(sv.take(i as int)),
        decreases s.points.len() - i,
    {
        proof {
            assert(sv[i as int] == point_v(s.points@[i as int]));
        }
        let p = reduce_exec_point(&s.points[i]);
        let ghost out0 = out;
        out.push(p);
        proof {
            assert(smlr_segment_v(SmlrTrackSegment { trkpt: out }) =~= smlr_segment_v(
                SmlrTrackSegment { trkpt: out0 },
            ).push(smlr_point_v(p)));
            assert(sv.take(i + 1).drop_last() =~= sv.take(i as int));
            assert(reduce_seg(sv.take(i + 1)) =~= reduce_seg(sv.take(i as int)).push(
                reduce_point(sv[i as int]),
            ));
        }
        i = i + 1;
    }
    assert(sv.take(sv.len() as int) =~= sv);
    SmlrTrackSegment { trkpt: out }
}

fn reduce_exec_track(t: &DocTrack) -> (r: SmlrTrack)
    requires
        crate::model::track_in_range(track_v(*t)),
    ensures
        smlr_track_v(r) == reduce_track(track_v(*t)),
{
    let ghost tv = track_v(*t);
    let mut out: Vec<SmlrTrackSegment> = Vec::new();
    let mut i: usize = 0;
    while i < t.segments.len()
        invariant
            i <= t.segments.len(),
            tv == track_v(*t),
            tv.len() == t.segments@.len(),
            crate::model::track_in_range(tv),
            smlr_track_v(SmlrTrack { trkseg: out }) == reduce_track(tv.take(i as int)),
        decreases t.segments.len() - i,
    {
        proof {
            assert(tv[i as int] == segment_v(t.segments@[i as int]));
        }
        let s = reduce_exec_segment(&t.segments[i]);
        let ghost out0 = out;
        out.push(s);
        proof {
            assert(smlr_track_v(SmlrTrack { trkseg: out }) =~= smlr_track_v(
                SmlrTrack { trkseg: out0 },
            ).push(smlr_segment_v(s)));
            assert(tv.take(i + 1).drop_last() =~= tv.take(i as int));
            assert(reduce_track(tv.take(i + 1)) =~= reduce_track(tv.take(i as int)).push(
                reduce_seg(tv[i as int]),
            ));
        }
        i = i + 1;
    }
    assert(tv.take(tv.len() as int) =~= tv);
    SmlrTrack { trkseg: out }
}

/// Reduces a whole document: rounds every coordinate and drops metadata.
pub fn reduce_document(d: &Document) -> (r: SmlrGpx)
    requires
        doc_in_range(doc_v(*d)),
    ensures
        smlr_v(r) == reduce_doc(doc_v(*d)),
{
    let ghost dv = doc_v(*d);
    let mut out: Vec<SmlrTrack> = Vec::new();
    let mut i: usize = 0;
    while i < d.tracks.len()
        invariant
            i <= d.tracks.len(),
            dv == doc_v(*d),
            dv.len() == d.tracks@.len(),
            doc_in_range(dv),
            smlr_v(SmlrGpx { trk: out }) == reduce_doc(dv.take(i as int)),
        decreases d.tracks.len() - i,
    {
        proof {
            assert(dv[i as int] == track_v(d.tracks@[i as int]));
        }
        let t = reduce_exec_track(&d.tracks[i]);
        let ghost out0 = out;
        out.push(t);
        proof {
            assert(smlr_v(SmlrGpx { trk: out }) =~= smlr_v(SmlrGpx { trk: out0 }).push(
                smlr_track_v(t),
            ));
            assert(dv.take(i + 1).drop_last() =~= dv.take(i as int));
            assert(reduce_doc(dv.take(i + 1)) =~= reduce_doc(dv.take(i as int)).push(
                reduce_track(dv[i as int]),
            ));
        }
        i = i + 1;
    }
    assert(dv.take(dv.len() as int) =~= dv);
    SmlrGpx { trk: out }
}

/// The serialized text of one reduced point.
pub open spec fn render_point(p: RPointV) -> Seq<char> {
    "{\"lat\":"@ + render_centi(p.0) + ",\"lon\":"@ + render_centi(p.1) + ",\"ele\":"@
        + render_centi(p.2) + "}"@
}

/// The items joined with a single comma between them.
pub open spec fn join_comma(items: Seq<Seq<char>>) -> Seq<char>
    decreases items.len(),
{
    if items.len() == 0 {
        Seq::<char>::empty()
    } else if items.len() == 1 {
        items[0]
    } else {
        join_comma(items.drop_last()) + seq![','] + items.last()
    }
}

/// The serialized text of one reduced segment.
pub open spec fn render_seg_text(s: Seq<RPointV>) -> Seq<char> {
    "{\"trkpt\":["@ + join_comma(s.map_values(|p: RPointV| render_point(p))) + "]}"@
}

/// The serialized text of one reduced track.
pub open spec fn render_track_text(t: Seq<Seq<RPointV>>) -> Seq<char> {
    "{\"trkseg\":["@ + join_comma(t.map_values(|s: Seq<RPointV>| render_seg_text(s))) + "]}"@
}

/// The serialized text of a whole reduced document.
pub open spec fn render_doc_text(d: RDocV) -> Seq<char> {
    "{\"trk\":["@ + join_comma(d.map_values(|t: Seq<Seq<RPointV>>| render_track_text(t))) + "]}"@
}

fn push_str_lit(out: &mut Vec<char>, s: &str)
    ensures
        final(out)@ == old(out)@ + s@,
{
    let mut cs = str_chars(s);
    out.append(&mut cs);
}

fn push_point_text(out: &mut Vec<char>, p: &SmlrTrackPoint)
    requires
        rpoint_in_range(smlr_point_v(*p)),
    ensures
        final(out)@ == old(out)@ + render_point(smlr_point_v(*p)),
{
    push_str_lit(out, "{\"lat\":");
    crate::numbers::push_centi_text(out, p.lat);
    push_str_lit(out, ",\"lon\":");
    crate::numbers::push_centi_text(out, p.lon);
    push_str_lit(out, ",\"ele\":");
    crate::numbers::push_centi_text(out, p.ele);
    push_str_lit(out, "}");
    assert(out@ =~= old(out)@ + render_point(smlr_point_v(*p)));
}

fn push_seg_text(out: &mut Vec<char>, s: &SmlrTrackSegment)
    requires
        rseg_in_range(smlr_segment_v(*s)),
    ensures
        final(out)@ == old(out)@ + render_seg_text(smlr_segment_v(*s)),
{
    let ghost items = smlr_segment_v(*s).map_values(|p: RPointV| render_point(p));
    push_str_lit(out, "{\"trkpt\":[");
    let mut i: usize = 0;
    while i < s.trkpt.len()
        invariant
            i <= s.trkpt.len(),
            rseg_in_range(smlr_segment_v(*s)),
            items == smlr_segment_v(*s).map_values(|p: RPointV| render_point(p)),
            items.len() == s.trkpt@.len(),
            out@ == old(out)@ + "{\"trkpt\":["@ + join_comma(items.take(i as int)),
        decreases s.trkpt.len() - i,
    {
        proof {
            assert(items.take(i + 1).drop_last() =~= items.take(i as int));
            assert(items[i as int] == render_point(smlr_point_v(s.trkpt@[i as int])));
            assert(smlr_segment_v(*s)[i as int] == smlr_point_v(s.trkpt@[i as int]));
        }
        if i > 0 {
            out.push(',');
        }
        push_point_text(out, &s.trkpt[i]);
        assert(out@ =~= old(out)@ + "{\"trkpt\":["@ + join_comma(items.take(i + 1)));
        i = i + 1;
    }
    proof {
        assert(items.take(items.len() as int) =~= items);
    }
    push_str_lit(out, "]}");
    assert(out@ =~= old(out)@ + render_seg_text(smlr_segment_v(*s)));
}

fn push_track_text(out: &mut Vec<char>, t: &SmlrTrack)
    requires
        rtrack_in_range(smlr_track_v(*t)),
    ensures
        final(out)@ == old(out)@ + render_track_text(smlr_track_v(*t)),
{
    let ghost items = smlr_track_v(*t).map_values(|s: Seq<RPointV>| render_seg_text(s));
    push_str_lit(out, "{\"trkseg\":[");
    let mut i: usize = 0;
    while i < t.trkseg.len()
        invariant
            i <= t.trkseg.len(),
            rtrack_in_range(smlr_track_v(*t)),
            items == smlr_track_v(*t).map_values(|s: Seq<RPointV>| render_seg_text(s)),
            items.len() == t.trkseg@.len(),
            out@ == old(out)@ + "{\"trkseg\":["@ + join_comma(items.take(i as int)),
        decreases t.trkseg.len() - i,
    {
        proof {
            assert(items.take(i + 1).drop_last() =~= items.take(i as int));
            assert(items[i as int] == render_seg_text(smlr_segment_v(t.trkseg@[i as int])));
            assert(smlr_track_v(*t)[i as int] == smlr_segment_v(t.trkseg@[i as int]));
        }
        if i > 0 {
            out.push(',');
        }
        push_seg_text(out, &t.trkseg[i]);
        assert(out@ =~= old(out)@ + "{\"trkseg\":["@ + join_comma(items.take(i + 1)));
        i = i + 1;
    }
    proof {
        assert(items.take(items.len() as int) =~= items);
    }
    push_str_lit(out, "]}");
    assert(out@ =~= old(out)@ + render_track_text(smlr_track_v(*t)));
}

/// Serializes a reduced document to its compact text encoding.
pub fn render_reduced(g: &SmlrGpx) -> (r: Vec<char>)
    requires
        rdoc_in_range(smlr_v(*g)),
    ensures
        r@ == render_doc_text(smlr_v(*g)),
{
    let ghost items = smlr_v(*g).map_values(|t: Seq<Seq<RPointV>>| render_track_text(t));
    let mut out: Vec<char> = Vec::new();
    push_str_lit(&mut out, "{\"trk\":[");
    let mut i: usize = 0;
    while i < g.trk.len()
        invariant
            i <= g.trk.len(),
            rdoc_in_range(smlr_v(*g)),
            items == smlr_v(*g).map_values(|t: Seq<Seq<RPointV>>| render_track_text(t)),
            items.len() == g.trk@.len(),
            out@ == "{\"trk\":["@ + join_comma(items.take(i as int)),
        decreases g.trk.len() - i,
    {
        proof {
            assert(items.take(i + 1).drop_last() =~= items.take(i as int));
            assert(items[i as int] == render_track_text(smlr_track_v(g.trk@[i as int])));
            assert(smlr_v(*g)[i as int] == smlr_track_v(g.trk@[i as int]));
        }
        if i > 0 {
            out.push(',');
        }
        push_track_text(&mut out, &g.trk[i]);
        assert(out@ =~= "{\"trk\":["@ + join_comma(items.take(i + 1)));
        i = i + 1;
    }
    proof {
        assert(items.take(items.len() as int) =~= items);
    }
    push_str_lit(&mut out, "]}");
    assert(out@ =~= render_doc_text(smlr_v(*g)));
    out
}

/// The number of points in one reduced track.
pub open spec fn rtrack_point_count(t: Seq<Seq<RPointV>>) -> int
    decreases t.len(),
{
    if t.len() == 0 {
        0
    } else {
        rtrack_point_count(t.drop_last()) + t.last().len()
    }
}

/// The number of points in a whole reduced document.
pub open spec fn rdoc_point_count(d: RDocV) -> int
    decreases d.len(),
{
    if d.len() == 0 {
        0
    } else {
        rdoc_point_count(d.drop_last()) + rtrack_point_count(d.last())
    }
}

pub proof fn lemma_rtrack_point_count_nonneg(t: Seq<Seq<RPointV>>)
    ensures
        rtrack_point_count(t) >= 0,
    decreases t.len(),
{
    if t.len() > 0 {
        lemma_rtrack_point_count_nonneg(t.drop_last());
    }
}

pub proof fn lemma_rdoc_point_count_nonneg(d: RDocV)
    ensures
        rdoc_point_count(d) >= 0,
    decreases d.len(),
{
    if d.len() > 0 {
        lemma_rdoc_point_count_nonneg(d.drop_last());
        lemma_rtrack_point_count_nonneg(d.last());
    }
}

/// Counts the points of a reduced document, saturating at the largest
/// `usize`.
pub fn count_smlr_points(g: &SmlrGpx) -> (r: usize)
    ensures
        r as int == capped(rdoc_point_count(smlr_v(*g))),
{
    let ghost dv = smlr_v(*g);
    let mut r: usize = 0;
    let mut i: usize = 0;
    while i < g.trk.len()
        invariant
            i <= g.trk.len(),
            dv == smlr_v(*g),
            dv.len() == g.trk@.len(),
            r as int == capped(rdoc_point_count(dv.take(i as int))),
        decreases g.trk.len() - i,
    {
        let ghost tv = smlr_track_v(g.trk@[i as int]);
        proof {
            assert(dv.take(i + 1).drop_last() =~= dv.take(i as int));
            assert(dv[i as int] == tv);
            lemma_rdoc_point_count_nonneg(dv.take(i as int));
        }
        let track = &g.trk[i];
        let mut j: usize = 0;
        while j < track.trkseg.len()
            invariant
                j <= track.trkseg.len(),
                track == g.trk@[i as int],
                i < g.trk@.len(),
                dv == smlr_v(*g),
                dv.len() == g.trk@.len(),
                tv == smlr_track_v(g.trk@[i as int]),
                tv.len() == track.trkseg@.len(),
                r as int == capped(
                    rdoc_point_count(dv.take(i as int)) + rtrack_point_count(tv.take(j as int)),
                ),
            decreases track.trkseg.len() - j,
        {
            proof {
                assert(tv.take(j + 1).drop_last() =~= tv.take(j as int));
                assert(tv[j as int] == smlr_segment_v(track.trkseg@[j as int]));
                lemma_rdoc_point_count_nonneg(dv.take(i as int));
                lemma_rtrack_point_count_nonneg(tv.take(j as int));
            }
            r = crate::model::add_sat(r, track.trkseg[j].trkpt.len());
            j = j + 1;
        }
        proof {
            assert(tv.take(tv.len() as int) =~= tv);
        }
        i = i + 1;
    }
    proof {
        assert(dv.take(dv.len() as int) =~= dv);
    }
    r
}

proof fn lemma_reduce_track_point_count(t: Seq<Seq<PointV>>)
    ensures
        rtrack_point_count(reduce_track(t)) == crate::model::track_point_count(t),
    decreases t.len(),
{
    if t.len() > 0 {
        lemma_reduce_track_point_count(t.drop_last());
        assert(reduce_track(t).drop_last() =~= reduce_track(t.drop_last()));
        assert(reduce_track(t).last() == reduce_seg(t.last()));
    }
}

/// Reduction keeps the document's shape exactly: the same number of tracks,
/// of segments in each track, and of points overall, and every reduced
/// point is the rounding of the point at the same place. With the contract
/// of `reduce_gpx_size` this says that a document within the point-count
/// ceiling reduces to a text holding exactly its own points, each rounded
/// to two decimal places.
pub proof fn lemma_reduce_preserves_structure(d: DocV)
    ensures
        rdoc_point_count(reduce_doc(d)) == doc_point_count(d),
        reduce_doc(d).len() == d.len(),
        forall|i: int, j: int|
            0 <= i < d.len() && 0 <= j < d[i].len() ==> (#[trigger] reduce_doc(d)[i][j]).len()
                == d[i][j].len(),
        forall|i: int, j: int, k: int|
            0 <= i < d.len() && 0 <= j < d[i].len() && 0 <= k < d[i][j].len() ==> (
            #[trigger] reduce_doc(d)[i][j][k]) == reduce_point(d[i][j][k]),
    decreases d.len(),
{
    if d.len() > 0 {
        lemma_reduce_preserves_structure(d.drop_last());
        assert(reduce_doc(d).drop_last() =~= reduce_doc(d.drop_last()));
        assert(reduce_doc(d).last() == reduce_track(d.last()));
        lemma_reduce_track_point_count(d.last());
        assert forall|i: int, j: int| 0 <= i < d.len() && 0 <= j < d[i].len() implies (
        #[trigger] reduce_doc(d)[i][j]).len() == d[i][j].len() by {
            assert(reduce_doc(d)[i] == reduce_track(d[i]));
            assert(reduce_track(d[i])[j] == reduce_seg(d[i][j]));
        }
        assert forall|i: int, j: int, k: int|
            0 <= i < d.len() && 0 <= j < d[i].len() && 0 <= k < d[i][j].len() implies (
        #[trigger] reduce_doc(d)[i][j][k]) == reduce_point(d[i][j][k]) by {
            assert(reduce_doc(d)[i] == reduce_track(d[i]));
            assert(reduce_track(d[i])[j] == reduce_seg(d[i][j]));
            assert(reduce_seg(d[i][j])[k] == reduce_point(d[i][j][k]));
        }
    }
}

/// The serialized reduction of a document's nano-unit value.
pub open spec fn reduced_text_of(doc: DocV) -> Seq<char> {
    render_doc_text(reduce_doc(doc))
}

/// A reduced text wrapped in the root tag, as the analyzer re-reads it.
pub open spec fn wrap_gpx(t: Seq<char>) -> Seq<char> {
    "<gpx>"@ + t + "</gpx>"@
}

/// Reduces a track-log text: parses it, rounds every coordinate to two
/// decimal places (half away from zero, collapsing a missing elevation to
/// zero), drops all metadata, and serializes the geometry to the compact
/// text encoding. Rejects oversized inputs, unparseable inputs, and
/// documents over the point-count ceiling. A document whose elevation
/// cannot be held by the fixed-point model (non-finite, or beyond a billion
/// meters — see `COORD_LIMIT_NANO`) is rejected as a parse failure.
pub fn reduce_gpx_size(gpx_string: &str) -> (r: Result<String, GpxError>)
    ensures
        utf8_len(gpx_string@) > MAX_INPUT_BYTES ==> r == Err::<String, GpxError>(
            GpxError::InputTooLarge,
        ),
        utf8_len(gpx_string@) <= MAX_INPUT_BYTES ==> match parse_outcome(gpx_string@) {
            None => r matches Err(e) && e matches GpxError::ParseError(_),
            Some(raw) => match doc_of_raw(raw) {
                None => r matches Err(e) && e matches GpxError::ParseError(_),
                Some(doc) => if doc_point_count(doc) > MAX_POINTS {
                    r matches Err(e) && e matches GpxError::TooManyPoints(c, l) && c as int
                        == capped(doc_point_count(doc)) && l == MAX_POINTS
                } else {
                    r matches Ok(t) && t@ == reduced_text_of(doc)
                },
            },
        },
{
    if str_byte_len(gpx_string) > MAX_INPUT_BYTES {
        return Err(GpxError::InputTooLarge);
    }
    let g = match parse_document(gpx_string) {
        Ok(g) => g,
        Err(m) => {
            return Err(
                GpxError::ParseError(
                    String::from_str("Error reducing gpx file: Error parsing GPX: ").concat(
                        m.as_str(),
                    ),
                ),
            );
        },
    };
    let d = match extract_document(&g) {
        Some(d) => d,
        None => {
            return Err(
                GpxError::ParseError(
                    String::from_str("Error reducing gpx file: coordinate out of range"),
                ),
            );
        },
    };
    let count = count_points(&d);
    if count > MAX_POINTS {
        proof {
            if doc_point_count(doc_v(d)) <= MAX_POINTS {
                assert(capped(doc_point_count(doc_v(d))) == doc_point_count(doc_v(d)));
            }
        }
        return Err(GpxError::TooManyPoints(count, MAX_POINTS));
    }
    proof {
        crate::model::lemma_doc_point_count_nonneg(doc_v(d));
        lemma_reduce_doc_in_range(doc_v(d));
    }
    let reduced = reduce_document(&d);
    let text = render_reduced(&reduced);
    Ok(chars_string(&text))
}

} // verus!
