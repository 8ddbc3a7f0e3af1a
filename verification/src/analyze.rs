//! The analyzer: descriptive statistics over a parsed document — point,
//! track and segment counts, elevation range, bounding box — together with
//! the sizes and ratios of the reduction/compression pipeline and a
//! round-trip integrity check of the compressed output.
use vstd::prelude::*;

verus! {

use crate::compress::{compress_gpx, decompress_gpx, gunzip_text_of, gzip_bytes_of};
use crate::errors::GpxError;
use crate::model::{
    capped, count_points, count_segments, doc_of_raw, doc_point_count, doc_segment_count, doc_v,
    point_v, segment_v, track_v, DocPoint, Document, DocV, PointV, MAX_INPUT_BYTES, MAX_POINTS,
};
use crate::parse::{
    extract_document, gpx_model, parse_document, parse_outcome, write_document, xml_text_of,
    xml_write_ok,
};
use crate::reader::read_reduced;
use crate::compress::gzip_decompress;
use crate::reader::lemma_reader_inverts_renderer;
use crate::reduce::{
    count_smlr_points, lemma_reduce_doc_in_range, lemma_reduce_preserves_structure,
    rdoc_point_count, reduce_doc, reduce_gpx_size, reduced_text_of, wrap_gpx, RDocV,
};
use crate::text::{clean_spec, str_byte_len, utf8_len};
use crate::validate::{valid_gpx, validate_gpx};
use vstd::string::StringExecFns;

/// A ratio of the form `1 - part/whole`, kept as the exact pair; its value
/// is zero when `whole` is zero.
pub struct Ratio {
    pub part: usize,
    pub whole: usize,
}

/// The numerator of the ratio's value over [`ratio_den`].
pub open spec fn ratio_num(r: Ratio) -> int {
    if r.whole == 0 {
        0
    } else {
        r.whole - r.part
    }
}

/// The (positive) denominator of the ratio's value.
pub open spec fn ratio_den(r: Ratio) -> int {
    if r.whole == 0 {
        1
    } else {
        r.whole as int
    }
}

/// A ratio whose new quantity is no larger than its old one has a value
/// `ratio_num / ratio_den` in the unit interval `[0, 1]`, and the value is
/// exactly zero when the old quantity is zero.
pub proof fn lemma_ratio_in_unit_interval(r: Ratio)
    requires
        r.part <= r.whole,
    ensures
        0 <= ratio_num(r),
        ratio_num(r) <= ratio_den(r),
        r.whole == 0 ==> ratio_num(r) == 0,
{
}

/// The geographic extent of a document: the extreme latitudes and
/// longitudes over all its points, in nano-degrees.
pub struct BoundingBox {
    pub min_lat: i64,
    pub max_lat: i64,
    pub min_lon: i64,
    pub max_lon: i64,
}

/// The points of one track, in order.
pub open spec fn track_points(t: Seq<Seq<PointV>>) -> Seq<PointV>
    decreases t.len(),
{
    if t.len() == 0 {
        Seq::<PointV>::empty()
    } else {
        track_points(t.drop_last()) + t.last()
    }
}

/// All points of a document, in document order.
pub open spec fn all_points(d: DocV) -> Seq<PointV>
    decreases d.len(),
{
    if d.len() == 0 {
        Seq::<PointV>::empty()
    } else {
        all_points(d.drop_last()) + track_points(d.last())
    }
}

/// The elevations of the points that carry one, in order.
pub open spec fn eles_of(ps: Seq<PointV>) -> Seq<int>
    decreases ps.len(),
{
    if ps.len() == 0 {
        Seq::<int>::empty()
    } else {
        let rest = eles_of(ps.drop_last());
        match ps.last().2 {
            Some(e) => rest.push(e),
            None => rest,
        }
    }
}

/// The least element of a non-empty sequence.
pub open spec fn seq_min(s: Seq<int>) -> int
    recommends
        s.len() > 0,
    decreases s.len(),
{
    if s.len() <= 1 {
        s[0]
    } else {
        let m = seq_min(s.drop_last());
        if m <= s.last() {
            m
        } else {
            s.last()
        }
    }
}

/// The greatest element of a non-empty sequence.
pub open spec fn seq_max(s: Seq<int>) -> int
    recommends
        s.len() > 0,
    decreases s.len(),
{
    if s.len() <= 1 {
        s[0]
    } else {
        let m = seq_max(s.drop_last());
        if m >= s.last() {
            m
        } else {
            s.last()
        }
    }
}

/// The latitudes of a point sequence.
pub open spec fn lats_of(ps: Seq<PointV>) -> Seq<int> {
    ps.map_values(|p: PointV| p.0)
}

/// The longitudes of a point sequence.
pub open spec fn lons_of(ps: Seq<PointV>) -> Seq<int> {
    ps.map_values(|p: PointV| p.1)
}

/// The minimum and maximum elevation over the document's points that carry
/// one; `None` when no point does.
pub open spec fn elevation_range_spec(d: DocV) -> Option<(int, int)> {
    let es = eles_of(all_points(d));
    if es.len() == 0 {
        None
    } else {
        Some((seq_min(es), seq_max(es)))
    }
}

/// The extreme latitudes and longitudes over the document's points; `None`
/// when the document has no points.
pub open spec fn bounding_box_spec(d: DocV) -> Option<(int, int, int, int)> {
    let ps = all_points(d);
    if ps.len() == 0 {
        None
    } else {
        Some((seq_min(lats_of(ps)), seq_max(lats_of(ps)), seq_min(lons_of(ps)), seq_max(lons_of(ps))))
    }
}

/// Copies every point of the document into one flat vector, in order.
fn flatten_points(d: &Document) -> (r: Vec<DocPoint>)
    ensures
        r@.map_values(|p: DocPoint| point_v(p)) == all_points(doc_v(*d)),
{
    let ghost dv = doc_v(*d);
    let mut out: Vec<DocPoint> = Vec::new();
    let mut i: usize = 0;
    while i < d.tracks.len()
        invariant
            i <= d.tracks.len(),
            dv == doc_v(*d),
            dv.len() == d.tracks@.len(),
            out@.map_values(|p: DocPoint| point_v(p)) == all_points(dv.take(i as int)),
        decreases d.tracks.len() - i,
    {
        let ghost tv = track_v(d.tracks@[i as int]);
        proof {
            assert(dv.take(i + 1).drop_last() =~= dv.take(i as int));
            assert(dv[i as int] == tv);
        }
        let track = &d.tracks[i];
        let mut j: usize = 0;
        while j < track.segments.len()
            invariant
                j <= track.segments.len(),
                track == d.tracks@[i as int],
                i < d.tracks@.len(),
                dv == doc_v(*d),
                dv.len() == d.tracks@.len(),
                tv == track_v(d.tracks@[i as int]),
                tv.len() == track.segments@.len(),
                out@.map_values(|p: DocPoint| point_v(p)) == all_points(dv.take(i as int))
                    + track_points(tv.take(j as int)),
            decreases track.segments.len() - j,
        {
            let ghost sv = segment_v(track.segments@[j as int]);
            proof {
                assert(tv.take(j + 1).drop_last() =~= tv.take(j as int));
                assert(tv[j as int] == sv);
            }
            let seg = &track.segments[j];
            let mut k: usize = 0;
            while k < seg.points.len()
                invariant
                    k <= seg.points.len(),
                    seg == track.segments@[j as int],
                    track == d.tracks@[i as int],
                    i < d.tracks@.len(),
                    j < track.segments@.len(),
                    dv == doc_v(*d),
                    dv.len() == d.tracks@.len(),
                    tv == track_v(d.tracks@[i as int]),
                    tv.len() == track.segments@.len(),
                    sv == segment_v(track.segments@[j as int]),
                    sv.len() == seg.points@.len(),
                    out@.map_values(|p: DocPoint| point_v(p)) == all_points(dv.take(i as int))
                        + track_points(tv.take(j as int)) + sv.take(k as int),
                decreases seg.points.len() - k,
            {
                proof {
                    assert(sv[k as int] == point_v(seg.points@[k as int]));
                }
                let ghost out0 = out;
                out.push(seg.points[k]);
                proof {
                    assert(out@.map_values(|p: DocPoint| point_v(p)) =~= out0@.map_values(
                        |p: DocPoint| point_v(p),
                    ).push(point_v(seg.points@[k as int])));
                    assert(all_points(dv.take(i as int)) + track_points(tv.take(j as int))
                        + sv.take(k + 1) =~= (all_points(dv.take(i as int)) + track_points(
                        tv.take(j as int),
                    ) + sv.take(k as int)).push(sv[k as int]));
                }
                k = k + 1;
            }
            proof {
                assert(sv.take(sv.len() as int) =~= sv);
                assert(all_points(dv.take(i as int)) + track_points(tv.take(j + 1)) =~= all_points(
                    dv.take(i as int),
                ) + track_points(tv.take(j as int)) + sv);
            }
            j = j + 1;
        }
        proof {
            assert(tv.take(tv.len() as int) =~= tv);
            assert(all_points(dv.take(i + 1)) =~= all_points(dv.take(i as int)) + track_points(tv));
            assert(all_points(dv.take(i as int)) + track_points(tv.take(tv.len() as int)) =~=
            all_points(dv.take(i as int)) + track_points(tv));
        }
        i = i + 1;
    }
    proof {
        assert(dv.take(dv.len() as int) =~= dv);
    }
    out
}

/// Computes the elevation range over a flat point list.
fn elevation_range_of(flat: &Vec<DocPoint>) -> (r: Option<(i64, i64)>)
    ensures
        ({
            let es = eles_of(flat@.map_values(|p: DocPoint| point_v(p)));
            match r {
                Some(mm) => es.len() > 0 && mm.0 == seq_min(es) && mm.1 == seq_max(es),
                None => es.len() == 0,
            }
        }),
{
    let ghost ps = flat@.map_values(|p: DocPoint| point_v(p));
    let mut mn: i64 = 0;
    let mut mx: i64 = 0;
    let mut have: bool = false;
    let mut i: usize = 0;
    while i < flat.len()
        invariant
            i <= flat.len(),
            ps == flat@.map_values(|p: DocPoint| point_v(p)),
            ps.len() == flat@.len(),
            have <==> eles_of(ps.take(i as int)).len() > 0,
            have ==> mn == seq_min(eles_of(ps.take(i as int))) && mx == seq_max(
                eles_of(ps.take(i as int)),
            ),
        decreases flat.len() - i,
    {
        let ghost pre = eles_of(ps.take(i as int));
        proof {
            assert(ps.take(i + 1).drop_last() =~= ps.take(i as int));
            assert(ps[i as int] == point_v(flat@[i as int]));
        }
        match flat[i].ele_nano {
            Some(e) => {
                proof {
                    assert(eles_of(ps.take(i + 1)) =~= pre.push(e as int));
                    assert(pre.push(e as int).drop_last() =~= pre);
                    assert(pre.push(e as int).last() == e as int);
                    if pre.len() == 0 {
                        assert(pre.push(e as int)[0] == e as int);
                    }
                }
                if !have {
                    mn = e;
                    mx = e;
                    have = true;
                } else {
                    if e < mn {
                        mn = e;
                    }
                    if e > mx {
                        mx = e;
                    }
                }
            },
            None => {
                proof {
                    assert(eles_of(ps.take(i + 1)) =~= pre);
                }
            },
        }
        i = i + 1;
    }
    proof {
        assert(ps.take(ps.len() as int) =~= ps);
    }
    if have {
        Some((mn, mx))
    } else {
        None
    }
}

/// Computes the bounding box over a flat point list.
fn bounding_box_of(flat: &Vec<DocPoint>) -> (r: Option<BoundingBox>)
    ensures
        ({
            let ps = flat@.map_values(|p: DocPoint| point_v(p));
            match r {
                Some(b) => ps.len() > 0 && b.min_lat == seq_min(lats_of(ps)) && b.max_lat
                    == seq_max(lats_of(ps)) && b.min_lon == seq_min(lons_of(ps)) && b.max_lon
                    == seq_max(lons_of(ps)),
                None => ps.len() == 0,
            }
        }),
{
    let ghost ps = flat@.map_values(|p: DocPoint| point_v(p));
    if flat.len() == 0 {
        return None;
    }
    let first = flat[0];
    let mut min_lat: i64 = first.lat_nano;
    let mut max_lat: i64 = first.lat_nano;
    let mut min_lon: i64 = first.lon_nano;
    let mut max_lon: i64 = first.lon_nano;
    proof {
        assert(lats_of(ps.take(1)) =~= seq![ps[0].0]);
        assert(lons_of(ps.take(1)) =~= seq![ps[0].1]);
    }
    let mut i: usize = 1;
    while i < flat.len()
        invariant
            1 <= i <= flat.len(),
            ps == flat@.map_values(|p: DocPoint| point_v(p)),
            ps.len() == flat@.len(),
            min_lat == seq_min(lats_of(ps.take(i as int))),
            max_lat == seq_max(lats_of(ps.take(i as int))),
            min_lon == seq_min(lons_of(ps.take(i as int))),
            max_lon == seq_max(lons_of(ps.take(i as int))),
        decreases flat.len() - i,
    {
        proof {
            assert(ps.take(i + 1).drop_last() =~= ps.take(i as int));
            assert(ps[i as int] == point_v(flat@[i as int]));
            assert(lats_of(ps.take(i + 1)) =~= lats_of(ps.take(i as int)).push(ps[i as int].0));
            assert(lons_of(ps.take(i + 1)) =~= lons_of(ps.take(i as int)).push(ps[i as int].1));
            assert(lats_of(ps.take(i + 1)).drop_last() =~= lats_of(ps.take(i as int)));
            assert(lons_of(ps.take(i + 1)).drop_last() =~= lons_of(ps.take(i as int)));
        }
        let p = flat[i];
        if p.lat_nano < min_lat {
            min_lat = p.lat_nano;
        }
        if p.lat_nano > max_lat {
            max_lat = p.lat_nano;
        }
        if p.lon_nano < min_lon {
            min_lon = p.lon_nano;
        }
        if p.lon_nano > max_lon {
            max_lon = p.lon_nano;
        }
        i = i + 1;
    }
    proof {
        assert(ps.take(ps.len() as int) =~= ps);
    }
    Some(BoundingBox { min_lat, max_lat, min_lon, max_lon })
}

/// The full analysis of one document: sizes, counts, ratios, geographic
/// extents, and the outcome of the round-trip integrity check. The
/// round-trip fields are diagnostic: when `decompressed_error` is set the
/// check failed, the recorded size is zero and `decompressed_valid` is
/// false.
pub struct GpxAnalysis {
    pub original_size_bytes: usize,
    pub reduced_size_bytes: usize,
    pub compressed_size_bytes: usize,
    pub compression_ratio: Ratio,
    pub point_count: usize,
    pub reduced_point_count: usize,
    pub point_reduction_ratio: Ratio,
    pub tracks_count: usize,
    pub segments_count: usize,
    pub elevation_range: Option<(i64, i64)>,
    pub bounding_box: Option<BoundingBox>,
    pub decompressed_size_bytes: usize,
    pub decompressed_valid: bool,
    pub decompressed_error: Option<String>,
}

/// What a successful analysis of text `s`, parsed document `doc`, and
/// re-read reduction `rdv` holds in each field. The round-trip fields speak
/// of the document value that re-parsing the cleaned wrapped text yields:
/// on sub-chain success the recorded size and validity are those of that
/// value's re-serialized XML; on failure the error is recorded, the size is
/// zero and validity is false, and a failure is recorded only when the
/// re-parse or the re-serialization really failed.
pub open spec fn analysis_matches(a: GpxAnalysis, s: Seq<char>, doc: DocV, rdv: RDocV) -> bool {
    let wrapped = wrap_gpx(reduced_text_of(doc));
    &&& a.original_size_bytes == utf8_len(s)
    &&& a.point_count == doc_point_count(doc)
    &&& a.reduced_point_count == capped(rdoc_point_count(rdv))
    &&& a.tracks_count == doc.len()
    &&& a.segments_count == capped(doc_segment_count(doc))
    &&& match elevation_range_spec(doc) {
        Some(mm) => a.elevation_range matches Some(p) && p.0 == mm.0 && p.1 == mm.1,
        None => a.elevation_range is None,
    }
    &&& match bounding_box_spec(doc) {
        Some(b) => a.bounding_box matches Some(bb) && bb.min_lat == b.0 && bb.max_lat == b.1
            && bb.min_lon == b.2 && bb.max_lon == b.3,
        None => a.bounding_box is None,
    }
    &&& a.reduced_size_bytes == utf8_len(wrapped)
    &&& a.compressed_size_bytes == gzip_bytes_of(clean_spec(wrapped)).len()
    &&& a.compression_ratio.part == a.compressed_size_bytes
    &&& a.compression_ratio.whole == a.original_size_bytes
    &&& a.point_reduction_ratio.part == a.reduced_point_count
    &&& a.point_reduction_ratio.whole == a.point_count
    &&& (a.decompressed_error is Some ==> !a.decompressed_valid && a.decompressed_size_bytes == 0)
    &&& (a.decompressed_error is None ==> exists|g: gpx::Gpx|
        {
            &&& parse_outcome(clean_spec(wrapped)) == Some(#[trigger] gpx_model(g))
            &&& xml_write_ok(g)
            &&& a.decompressed_size_bytes == utf8_len(xml_text_of(g))
            &&& a.decompressed_valid == valid_gpx(xml_text_of(g))
        })
    &&& (a.decompressed_error is Some ==> parse_outcome(clean_spec(wrapped)) is None || exists|
        g: gpx::Gpx,
    |
        parse_outcome(clean_spec(wrapped)) == Some(#[trigger] gpx_model(g)) && !xml_write_ok(g))
}

/// Decompresses a byte stream, re-parses the text as a document, and
/// re-serializes it to XML: the round-trip integrity sub-check. On success
/// the payload is exactly the XML the codec's writer emits for the
/// re-parsed document value; it fails exactly when decompression, the
/// re-parse, or the re-serialization fails.
fn decompress_gpx_binary(compressed: &[u8]) -> (r: Result<String, String>)
    ensures
        gunzip_text_of(compressed@) is None ==> r is Err,
        (gunzip_text_of(compressed@) matches Some(t) && parse_outcome(t) is None) ==> r is Err,
        r matches Ok(x) ==> (gunzip_text_of(compressed@) matches Some(t) && exists|g: gpx::Gpx|
            parse_outcome(t) == Some(#[trigger] gpx_model(g)) && xml_write_ok(g) && x@
                == xml_text_of(g)),
        r is Err ==> gunzip_text_of(compressed@) is None || parse_outcome(
            gunzip_text_of(compressed@)->0,
        ) is None || exists|g: gpx::Gpx|
            parse_outcome(gunzip_text_of(compressed@)->0) == Some(#[trigger] gpx_model(g))
                && !xml_write_ok(g),
{
    let text = match gzip_decompress(compressed) {
        Ok(t) => t,
        Err(m) => {
            return Err(String::from_str("Decompression error: ").concat(m.as_str()));
        },
    };
    let g = match parse_document(text.as_str()) {
        Ok(g) => g,
        Err(m) => {
            return Err(String::from_str("Error parsing GPX: ").concat(m.as_str()));
        },
    };
    match write_document(&g) {
        Ok(x) => Ok(x),
        Err(m) => Err(String::from_str("Error writing GPX: ").concat(m.as_str())),
    }
}

/// Analyzes a track-log text: parses it, computes counts and geographic
/// statistics over the original document, runs the reduction and
/// compression pipeline to measure sizes and ratios, and finishes with a
/// best-effort round-trip integrity check whose failure is recorded in the
/// result rather than propagated.
pub fn analyze_gpx(gpx_string: &str) -> (r: Result<GpxAnalysis, GpxError>)
    ensures
        parse_outcome(gpx_string@) is None ==> (r matches Err(e) && e matches GpxError::ParseError(
            _,
        )),
        parse_outcome(gpx_string@) matches Some(raw) ==> match doc_of_raw(raw) {
            None => r matches Err(e) && e matches GpxError::ParseError(_),
            Some(doc) => {
                &&& (utf8_len(gpx_string@) > MAX_INPUT_BYTES ==> r == Err::<
                    GpxAnalysis,
                    GpxError,
                >(GpxError::InputTooLarge))
                &&& (utf8_len(gpx_string@) <= MAX_INPUT_BYTES ==> (if doc_point_count(doc)
                    > MAX_POINTS {
                    r matches Err(e) && e matches GpxError::TooManyPoints(c, l) && c as int
                        == capped(doc_point_count(doc)) && l == MAX_POINTS
                } else {
                    r matches Ok(a) && analysis_matches(a, gpx_string@, doc, reduce_doc(doc))
                        && a.reduced_point_count == a.point_count
                }))
            },
        },
{
    let g = match parse_document(gpx_string) {
        Ok(g) => g,
        Err(m) => {
            return Err(
                GpxError::ParseError(String::from_str("Error parsing GPX: ").concat(m.as_str())),
            );
        },
    };
    let d = match extract_document(&g) {
        Some(d) => d,
        None => {
            return Err(
                GpxError::ParseError(
                    String::from_str("Error parsing GPX: coordinate out of range"),
                ),
            );
        },
    };
    let ghost doc = doc_v(d);
    let original_size = str_byte_len(gpx_string);
    let original_point_count = count_points(&d);
    let tracks_count = d.tracks.len();
    let segments_count = count_segments(&d);
    let flat = flatten_points(&d);
    let elevation_range = elevation_range_of(&flat);
    let bounding_box = bounding_box_of(&flat);
    let reduced = match reduce_gpx_size(gpx_string) {
        Ok(t) => t,
        Err(e) => {
            return Err(e);
        },
    };
    let wrapped = String::from_str("<gpx>").concat(reduced.as_str()).concat("</gpx>");
    proof {
        assert(wrapped@ =~= wrap_gpx(reduced_text_of(doc)));
        crate::model::lemma_doc_point_count_nonneg(doc);
        lemma_reduce_doc_in_range(doc);
        lemma_reader_inverts_renderer(reduce_doc(doc));
        lemma_reduce_preserves_structure(doc);
    }
    let smlr = match read_reduced(wrapped.as_str()) {
        Some(sg) => sg,
        None => {
            return Err(GpxError::ParseError(String::from_str("Error parsing reduced GPX")));
        },
    };
    let reduced_point_count = count_smlr_points(&smlr);
    let compressed = match compress_gpx(wrapped.as_str()) {
        Ok(c) => c,
        Err(e) => {
            return Err(e);
        },
    };
    let reduced_size = str_byte_len(wrapped.as_str());
    let compressed_size = compressed.len();
    let compression_ratio = Ratio { part: compressed_size, whole: original_size };
    let point_reduction_ratio = Ratio { part: reduced_point_count, whole: original_point_count };
    let rt = decompress_gpx_binary(compressed.as_slice());
    let decompressed_size: usize;
    let decompressed_valid: bool;
    let decompressed_error: Option<String>;
    match rt {
        Ok(x) => {
            decompressed_size = str_byte_len(x.as_str());
            decompressed_valid = validate_gpx(x.as_str());
            decompressed_error = None;
            proof {
                let cw = clean_spec(wrap_gpx(reduced_text_of(doc)));
                assert(gunzip_text_of(compressed@) == Some(cw));
                let g0 = choose|g: gpx::Gpx|
                    parse_outcome(cw) == Some(#[trigger] gpx_model(g)) && xml_write_ok(g) && x@
                        == xml_text_of(g);
                assert(decompressed_size == utf8_len(xml_text_of(g0)));
                assert(decompressed_valid == valid_gpx(xml_text_of(g0)));
                assert(exists|g: gpx::Gpx|
                    {
                        &&& parse_outcome(cw) == Some(#[trigger] gpx_model(g))
                        &&& xml_write_ok(g)
                        &&& decompressed_size == utf8_len(xml_text_of(g))
                        &&& decompressed_valid == valid_gpx(xml_text_of(g))
                    });
            }
        },
        Err(m) => {
            decompressed_size = 0;
            decompressed_valid = false;
            decompressed_error = Some(m);
            proof {
                let cw = clean_spec(wrap_gpx(reduced_text_of(doc)));
                assert(gunzip_text_of(compressed@) == Some(cw));
                assert(parse_outcome(cw) is None || exists|g: gpx::Gpx|
                    parse_outcome(cw) == Some(#[trigger] gpx_model(g)) && !xml_write_ok(g));
            }
        },
    }
    Ok(
        GpxAnalysis {
            original_size_bytes: original_size,
            reduced_size_bytes: reduced_size,
            compressed_size_bytes: compressed_size,
            compression_ratio,
            point_count: original_point_count,
            reduced_point_count,
            point_reduction_ratio,
            tracks_count,
            segments_count,
            elevation_range,
            bounding_box,
            decompressed_size_bytes: decompressed_size,
            decompressed_valid,
            decompressed_error,
        },
    )
}

/// Reduces and compresses a track-log text in one operation: validates the
/// input (rejecting anything invalid with `InvalidFormat`), analyzes it for
/// diagnostics with the result discarded, then reduces and compresses.
pub fn reduce_compress_gpx(gpx_string: &str) -> (r: Result<Vec<u8>, GpxError>)
    ensures
        !valid_gpx(gpx_string@) ==> r == Err::<Vec<u8>, GpxError>(GpxError::InvalidFormat),
        valid_gpx(gpx_string@) ==> match doc_of_raw(parse_outcome(gpx_string@)->0) {
            None => r matches Err(e) && e matches GpxError::ParseError(_),
            Some(doc) => if doc_point_count(doc) > MAX_POINTS {
                r matches Err(e) && e matches GpxError::TooManyPoints(c, l) && c as int == capped(
                    doc_point_count(doc),
                ) && l == MAX_POINTS
            } else {
                r matches Ok(c) && c@ == gzip_bytes_of(clean_spec(reduced_text_of(doc)))
                    && gunzip_text_of(c@) == Some(clean_spec(reduced_text_of(doc)))
            },
        },
{
    let is_valid = validate_gpx(gpx_string);
    let _ = analyze_gpx(gpx_string);
    if !is_valid {
        return Err(GpxError::InvalidFormat);
    }
    let smlr = match reduce_gpx_size(gpx_string) {
        Ok(t) => t,
        Err(e) => {
            return Err(e);
        },
    };
    compress_gpx(smlr.as_str())
}

/// The combined result of `process_gpx_with_analytics`: the analysis and
/// the compressed byte stream.
pub struct GpxProcessOutput {
    pub analysis: GpxAnalysis,
    pub data: Vec<u8>,
}

/// Processes a track-log text end to end: analyzes it, then reduces and
/// compresses it, returning both the analysis and the compressed bytes.
/// Analysis success does not imply compression success: the compression
/// pipeline re-runs the pre-flight validation and fails with
/// `InvalidFormat` on input that validation refuses.
pub fn process_gpx_with_analytics(gpx_string: &str) -> (r: Result<GpxProcessOutput, GpxError>)
    ensures
        parse_outcome(gpx_string@) is None ==> (r matches Err(e) && e matches GpxError::ParseError(
            _,
        )),
        !valid_gpx(gpx_string@) ==> r is Err,
        valid_gpx(gpx_string@) ==> match doc_of_raw(parse_outcome(gpx_string@)->0) {
            None => r matches Err(e) && e matches GpxError::ParseError(_),
            Some(doc) => if doc_point_count(doc) > MAX_POINTS {
                r matches Err(e) && e matches GpxError::TooManyPoints(c, l) && c as int == capped(
                    doc_point_count(doc),
                ) && l == MAX_POINTS
            } else {
                r matches Ok(out) && out.data@ == gzip_bytes_of(
                    clean_spec(reduced_text_of(doc)),
                ) && analysis_matches(out.analysis, gpx_string@, doc, reduce_doc(doc))
                    && out.analysis.reduced_point_count == out.analysis.point_count
            },
        },
        (!valid_gpx(gpx_string@) && (parse_outcome(gpx_string@) matches Some(raw) && doc_of_raw(
            raw,
        ) is Some && utf8_len(gpx_string@) <= MAX_INPUT_BYTES && doc_point_count(
            doc_of_raw(raw)->0,
        ) <= MAX_POINTS)) ==> r == Err::<GpxProcessOutput, GpxError>(GpxError::InvalidFormat),
        r matches Ok(out) ==> ({
            &&& valid_gpx(gpx_string@)
            &&& match doc_of_raw(parse_outcome(gpx_string@)->0) {
                Some(doc) => {
                    &&& doc_point_count(doc) <= MAX_POINTS
                    &&& gunzip_text_of(out.data@) == Some(clean_spec(reduced_text_of(doc)))
                    &&& analysis_matches(out.analysis, gpx_string@, doc, reduce_doc(doc))
                    &&& out.analysis.reduced_point_count == out.analysis.point_count
                },
                None => false,
            }
        }),
{
    let analysis = match analyze_gpx(gpx_string) {
        Ok(a) => a,
        Err(e) => {
            return Err(e);
        },
    };
    let data = match reduce_compress_gpx(gpx_string) {
        Ok(c) => c,
        Err(e) => {
            return Err(e);
        },
    };
    Ok(GpxProcessOutput { analysis, data })
}

} // verus!
