//! The companion reader of the reduced text encoding: it reads a reduced
//! document, wrapped in its root tag, back into the `SmlrGpx` structure, and
//! accepts exactly the texts that the serializer produces.
use vstd::prelude::*;

verus! {

use crate::numbers::{
    digit_char, digit_val, digit_val_exec, digits_of, digits_val, is_digit, is_digit_char,
    render_centi, render_centi_mag, CENTI_LIMIT,
};
use crate::text::str_chars;
use vstd::string::StrSliceExecFns;
use crate::reduce::{
    join_comma, rdoc_in_range, render_doc_text, render_point, render_seg_text, render_track_text,
    rpoint_in_range, rseg_in_range, rtrack_in_range, smlr_point_v, smlr_segment_v, smlr_track_v,
    smlr_v, wrap_gpx, RDocV, RPointV, SmlrGpx, SmlrTrack, SmlrTrackPoint, SmlrTrackSegment,
};

/// Position just past `lit` when the text carries `lit` at position `i`.
pub open spec fn expect_lit(s: Seq<char>, i: int, lit: Seq<char>) -> Option<int> {
    if 0 <= i && i + lit.len() <= s.len() && s.subrange(i, i + lit.len()) == lit {
        Some(i + lit.len())
    } else {
        None
    }
}

/// The end of the run of decimal digits that starts at `i`.
pub open spec fn digit_run_end(s: Seq<char>, i: int) -> int
    decreases s.len() - i,
    when 0 <= i <= s.len()
{
    if i < s.len() && is_digit(s[i]) {
        digit_run_end(s, i + 1)
    } else {
        i
    }
}

proof fn lemma_digit_run_end_at(s: Seq<char>, i: int, e: int)
    requires
        0 <= i <= e <= s.len(),
        forall|j: int| i <= j < e ==> is_digit(#[trigger] s[j]),
        e == s.len() || !is_digit(s[e]),
    ensures
        digit_run_end(s, i) == e,
    decreases e - i,
{
    if i < e {
        lemma_digit_run_end_at(s, i + 1, e);
    }
}

/// A centi-unit number at position `i`: an optional minus, the whole-part
/// digits, a dot, then one or two fractional digits, within the centi-unit
/// ceiling. Yields the value and the position just past it.
pub open spec fn parse_num_at(s: Seq<char>, i: int) -> Option<(int, int)> {
    if i < 0 || i > s.len() {
        None
    } else {
        let neg = i < s.len() && s[i] == '-';
        let j = if neg {
            i + 1
        } else {
            i
        };
        let e = digit_run_end(s, j);
        if e == j || !(e < s.len() && s[e] == '.') {
            None
        } else {
            let f = digit_run_end(s, e + 1);
            let nf = f - (e + 1);
            if nf < 1 || nf > 2 {
                None
            } else {
                let ip = digits_val(s.subrange(j, e));
                let fv = if nf == 1 {
                    digit_val(s[e + 1]) * 10
                } else {
                    digit_val(s[e + 1]) * 10 + digit_val(s[e + 2])
                };
                let m = ip * 100 + fv;
                if m > CENTI_LIMIT {
                    None
                } else {
                    Some(
                        (
                            if neg {
                                -m
                            } else {
                                m
                            },
                            f,
                        ),
                    )
                }
            }
        }
    }
}

/// A reduced point at position `i`: the three fixed keys and their numbers.
pub open spec fn parse_point_at(s: Seq<char>, i: int) -> Option<(RPointV, int)> {
    match expect_lit(s, i, "{\"lat\":"@) {
        Some(j1) => match parse_num_at(s, j1) {
            Some((la, j2)) => match expect_lit(s, j2, ",\"lon\":"@) {
                Some(j3) => match parse_num_at(s, j3) {
                    Some((lo, j4)) => match expect_lit(s, j4, ",\"ele\":"@) {
                        Some(j5) => match parse_num_at(s, j5) {
                            Some((el, j6)) => match expect_lit(s, j6, "}"@) {
                                Some(j7) => Some(((la, lo, el), j7)),
                                None => None,
                            },
                            None => None,
                        },
                        None => None,
                    },
                    None => None,
                },
                None => None,
            },
            None => None,
        },
        None => None,
    }
}

/// The rest of a point list after one element: either `,` and another
/// element, or the closing `]}`.
pub open spec fn parse_points_more(s: Seq<char>, i: int) -> Option<(Seq<RPointV>, int)>
    decreases s.len() - i,
    when 0 <= i <= s.len()
{
    if i < s.len() && s[i] == ',' {
        match parse_point_at(s, i + 1) {
            Some((p, k)) => if i + 1 < k <= s.len() {
                match parse_points_more(s, k) {
                    Some((ps, e)) => Some((seq![p] + ps, e)),
                    None => None,
                }
            } else {
                None
            },
            None => None,
        }
    } else if expect_lit(s, i, "]}"@) is Some {
        Some((Seq::<RPointV>::empty(), i + 2))
    } else {
        None
    }
}

/// A reduced segment at position `i`: the `trkpt` key and its point list.
pub open spec fn parse_seg_at(s: Seq<char>, i: int) -> Option<(Seq<RPointV>, int)> {
    match expect_lit(s, i, "{\"trkpt\":["@) {
        Some(j) => if expect_lit(s, j, "]}"@) is Some {
            Some((Seq::<RPointV>::empty(), j + 2))
        } else {
            match parse_point_at(s, j) {
                Some((p, k)) => if j < k <= s.len() {
                    match parse_points_more(s, k) {
                        Some((ps, e)) => Some((seq![p] + ps, e)),
                        None => None,
                    }
                } else {
                    None
                },
                None => None,
            }
        },
        None => None,
    }
}

/// The rest of a segment list after one element.
pub open spec fn parse_segs_more(s: Seq<char>, i: int) -> Option<(Seq<Seq<RPointV>>, int)>
    decreases s.len() - i,
    when 0 <= i <= s.len()
{
    if i < s.len() && s[i] == ',' {
        match parse_seg_at(s, i + 1) {
            Some((sg, k)) => if i + 1 < k <= s.len() {
                match parse_segs_more(s, k) {
                    Some((sgs, e)) => Some((seq![sg] + sgs, e)),
                    None => None,
                }
            } else {
                None
            },
            None => None,
        }
    } else if expect_lit(s, i, "]}"@) is Some {
        Some((Seq::<Seq<RPointV>>::empty(), i + 2))
    } else {
        None
    }
}

/// A reduced track at position `i`: the `trkseg` key and its segment list.
pub open spec fn parse_track_at(s: Seq<char>, i: int) -> Option<(Seq<Seq<RPointV>>, int)> {
    match expect_lit(s, i, "{\"trkseg\":["@) {
        Some(j) => if expect_lit(s, j, "]}"@) is Some {
            Some((Seq::<Seq<RPointV>>::empty(), j + 2))
        } else {
            match parse_seg_at(s, j) {
                Some((sg, k)) => if j < k <= s.len() {
                    match parse_segs_more(s, k) {
                        Some((sgs, e)) => Some((seq![sg] + sgs, e)),
                        None => None,
                    }
                } else {
                    None
                },
                None => None,
            }
        },
        None => None,
    }
}

/// The rest of a track list after one element.
pub open spec fn parse_tracks_more(s: Seq<char>, i: int) -> Option<(RDocV, int)>
    decreases s.len() - i,
    when 0 <= i <= s.len()
{
    if i < s.len() && s[i] == ',' {
        match parse_track_at(s, i + 1) {
            Some((t, k)) => if i + 1 < k <= s.len() {
                match parse_tracks_more(s, k) {
                    Some((ts, e)) => Some((seq![t] + ts, e)),
                    None => None,
                }
            } else {
                None
            },
            None => None,
        }
    } else if expect_lit(s, i, "]}"@) is Some {
        Some((Seq::<Seq<Seq<RPointV>>>::empty(), i + 2))
    } else {
        None
    }
}

/// A reduced document at position `i`: the `trk` key and its track list.
pub open spec fn parse_doc_at(s: Seq<char>, i: int) -> Option<(RDocV, int)> {
    match expect_lit(s, i, "{\"trk\":["@) {
        Some(j) => if expect_lit(s, j, "]}"@) is Some {
            Some((Seq::<Seq<Seq<RPointV>>>::empty(), j + 2))
        } else {
            match parse_track_at(s, j) {
                Some((t, k)) => if j < k <= s.len() {
                    match parse_tracks_more(s, k) {
                        Some((ts, e)) => Some((seq![t] + ts, e)),
                        None => None,
                    }
                } else {
                    None
                },
                None => None,
            }
        },
        None => None,
    }
}

fn expect_lit_exec(v: &Vec<char>, i: usize, lit: &str) -> (r: Option<usize>)
    requires
        i <= v@.len(),
    ensures
        r matches Some(k) ==> expect_lit(v@, i as int, lit@) == Some(k as int) && i <= k
            <= v@.len(),
        r is None ==> expect_lit(v@, i as int, lit@) is None,
{
    let n = lit.unicode_len();
    if v.len() - i < n {
        return None;
    }
    let mut k: usize = 0;
    while k < n
        invariant
            k <= n,
            i + n <= v@.len(),
            n == lit@.len(),
            forall|j: int| 0 <= j < k ==> v@[i + j] == lit@[j],
        decreases n - k,
    {
        if v[i + k] != lit.get_char(k) {
            proof {
                assert(expect_lit(v@, i as int, lit@) is None) by {
                    if v@.subrange(i as int, i + n) == lit@ {
                        assert(v@.subrange(i as int, i + n)[k as int] == v@[i + k]);
                    }
                }
            }
            return None;
        }
        k = k + 1;
    }
    proof {
        assert(v@.subrange(i as int, i + n) =~= lit@);
    }
    Some(i + n)
}

fn parse_num_exec(v: &Vec<char>, i: usize) -> (r: Option<(i64, usize)>)
    requires
        i <= v@.len(),
    ensures
        r matches Some(x) ==> parse_num_at(v@, i as int) == Some((x.0 as int, x.1 as int)) && i
            < x.1 <= v@.len() && -CENTI_LIMIT <= x.0 <= CENTI_LIMIT,
        r is None ==> parse_num_at(v@, i as int) is None,
{
    let n = v.len();
    let neg = i < n && v[i] == '-';
    let j: usize = if neg {
        i + 1
    } else {
        i
    };
    let mut k: usize = j;
    let mut acc: i64 = 0;
    let mut big: bool = false;
    while k < n && is_digit_char(v[k])
        invariant
            j <= k <= n,
            n == v@.len(),
            forall|q: int| j <= q < k ==> is_digit(#[trigger] v@[q]),
            !big ==> acc == digits_val(v@.subrange(j as int, k as int)) && 0 <= acc
                <= 1_000_000_000,
            big ==> digits_val(v@.subrange(j as int, k as int)) > 1_000_000_000,
        decreases n - k,
    {
        let ghost pre = v@.subrange(j as int, k as int);
        proof {
            assert(v@.subrange(j as int, k + 1).drop_last() =~= pre);
        }
        let d = digit_val_exec(v[k]);
        if !big {
            let next = acc * 10 + d;
            if next > 1_000_000_000 {
                big = true;
            } else {
                acc = next;
            }
        } else {
            proof {
                let cur = digits_val(pre);
                assert(digits_val(v@.subrange(j as int, k + 1)) == cur * 10 + digit_val(
                    v@[k as int],
                ));
                assert(cur * 10 > 10_000_000_000) by (nonlinear_arith)
                    requires
                        cur > 1_000_000_000,
                ;
            }
        }
        k = k + 1;
    }
    let e = k;
    proof {
        lemma_digit_run_end_at(v@, j as int, e as int);
    }
    if e == j {
        return None;
    }
    if !(e < n && v[e] == '.') {
        return None;
    }
    // Scan the fractional digits.
    let mut f: usize = e + 1;
    while f < n && is_digit_char(v[f])
        invariant
            e + 1 <= f <= n,
            n == v@.len(),
            forall|q: int| e + 1 <= q < f ==> is_digit(#[trigger] v@[q]),
        decreases n - f,
    {
        f = f + 1;
    }
    proof {
        lemma_digit_run_end_at(v@, e + 1, f as int);
    }
    let nf = f - (e + 1);
    if nf < 1 || nf > 2 {
        return None;
    }
    if big {
        proof {
            let s = v@;
            let ip = digits_val(s.subrange(j as int, e as int));
            let fv = if nf == 1 {
                digit_val(s[e + 1]) * 10
            } else {
                digit_val(s[e + 1]) * 10 + digit_val(s[e + 2])
            };
            assert(0 <= digit_val(s[e + 1]) <= 9);
            assert(nf == 2 ==> 0 <= digit_val(s[e + 2]) <= 9);
            assert(ip * 100 > 100_000_000_000) by (nonlinear_arith)
                requires
                    ip > 1_000_000_000,
            ;
        }
        return None;
    }
    let fv: i64 = if nf == 1 {
        digit_val_exec(v[e + 1]) * 10
    } else {
        digit_val_exec(v[e + 1]) * 10 + digit_val_exec(v[e + 2])
    };
    let m = acc * 100 + fv;
    if m > CENTI_LIMIT {
        return None;
    }
    if neg {
        Some((-m, f))
    } else {
        Some((m, f))
    }
}

fn parse_point_exec(v: &Vec<char>, i: usize) -> (r: Option<(SmlrTrackPoint, usize)>)
    requires
        i <= v@.len(),
    ensures
        r matches Some(x) ==> parse_point_at(v@, i as int) == Some((smlr_point_v(x.0), x.1 as int))
            && i < x.1 <= v@.len(),
        r is None ==> parse_point_at(v@, i as int) is None,
{
    let j1 = match expect_lit_exec(v, i, "{\"lat\":") {
        Some(j) => j,
        None => {
            return None;
        },
    };
    let (la, j2) = match parse_num_exec(v, j1) {
        Some(x) => x,
        None => {
            return None;
        },
    };
    let j3 = match expect_lit_exec(v, j2, ",\"lon\":") {
        Some(j) => j,
        None => {
            return None;
        },
    };
    let (lo, j4) = match parse_num_exec(v, j3) {
        Some(x) => x,
        None => {
            return None;
        },
    };
    let j5 = match expect_lit_exec(v, j4, ",\"ele\":") {
        Some(j) => j,
        None => {
            return None;
        },
    };
    let (el, j6) = match parse_num_exec(v, j5) {
        Some(x) => x,
        None => {
            return None;
        },
    };
    let j7 = match expect_lit_exec(v, j6, "}") {
        Some(j) => j,
        None => {
            return None;
        },
    };
    Some((SmlrTrackPoint { lat: la, lon: lo, ele: el }, j7))
}

#[verifier::rlimit(60)]
fn parse_seg_exec(v: &Vec<char>, i: usize) -> (r: Option<(SmlrTrackSegment, usize)>)
    requires
        i <= v@.len(),
    ensures
        r matches Some(x) ==> parse_seg_at(v@, i as int) == Some((smlr_segment_v(x.0), x.1 as int))
            && i < x.1 <= v@.len(),
        r is None ==> parse_seg_at(v@, i as int) is None,
{
    proof {
        reveal_strlit("]}");
    }
    let j = match expect_lit_exec(v, i, "{\"trkpt\":[") {
        Some(j) => j,
        None => {
            return None;
        },
    };
    match expect_lit_exec(v, j, "]}") {
        Some(k) => {
            let sg = SmlrTrackSegment { trkpt: Vec::new() };
            assert(smlr_segment_v(sg) =~= Seq::<RPointV>::empty());
            return Some((sg, k));
        },
        None => {},
    }
    let (p0, pos0) = match parse_point_exec(v, j) {
        Some(x) => x,
        None => {
            return None;
        },
    };
    let mut acc: Vec<SmlrTrackPoint> = Vec::new();
    acc.push(p0);
    let mut pos: usize = pos0;
    proof {
        assert(smlr_segment_v(SmlrTrackSegment { trkpt: acc }) =~= seq![smlr_point_v(p0)]);
    }
    loop
        invariant
            i < pos <= v@.len(),
            ({
                let rest = parse_points_more(v@, pos as int);
                &&& (rest matches Some(re) ==> parse_seg_at(v@, i as int) == Some(
                    (smlr_segment_v(SmlrTrackSegment { trkpt: acc }) + re.0, re.1),
                ))
                &&& (rest is None ==> parse_seg_at(v@, i as int) is None)
            }),
        decreases v@.len() - pos,
    {
        let ghost acc0 = acc;
        if pos < v.len() && v[pos] == ',' {
            match parse_point_exec(v, pos + 1) {
                Some((p, k)) => {
                    acc.push(p);
                    proof {
                        assert(smlr_segment_v(SmlrTrackSegment { trkpt: acc }) =~= smlr_segment_v(
                            SmlrTrackSegment { trkpt: acc0 },
                        ) + seq![smlr_point_v(p)]);
                        match parse_points_more(v@, k as int) {
                            Some(re) => {
                                assert(smlr_segment_v(SmlrTrackSegment { trkpt: acc0 }) + (seq![
                                    smlr_point_v(p),
                                ] + re.0) =~= smlr_segment_v(SmlrTrackSegment { trkpt: acc })
                                    + re.0);
                            },
                            None => {},
                        }
                    }
                    pos = k;
                },
                None => {
                    return None;
                },
            }
        } else {
            match expect_lit_exec(v, pos, "]}") {
                Some(k) => {
                    return Some((SmlrTrackSegment { trkpt: acc }, k));
                },
                None => {
                    return None;
                },
            }
        }
    }
}

#[verifier::rlimit(60)]
fn parse_track_exec(v: &Vec<char>, i: usize) -> (r: Option<(SmlrTrack, usize)>)
    requires
        i <= v@.len(),
    ensures
        r matches Some(x) ==> parse_track_at(v@, i as int) == Some((smlr_track_v(x.0), x.1 as int))
            && i < x.1 <= v@.len(),
        r is None ==> parse_track_at(v@, i as int) is None,
{
    proof {
        reveal_strlit("]}");
    }
    let j = match expect_lit_exec(v, i, "{\"trkseg\":[") {
        Some(j) => j,
        None => {
            return None;
        },
    };
    match expect_lit_exec(v, j, "]}") {
        Some(k) => {
            let t = SmlrTrack { trkseg: Vec::new() };
            assert(smlr_track_v(t) =~= Seq::<Seq<RPointV>>::empty());
            return Some((t, k));
        },
        None => {},
    }
    let (s0, pos0) = match parse_seg_exec(v, j) {
        Some(x) => x,
        None => {
            return None;
        },
    };
    let ghost s0v = smlr_segment_v(s0);
    let mut acc: Vec<SmlrTrackSegment> = Vec::new();
    acc.push(s0);
    let mut pos: usize = pos0;
    proof {
        assert(smlr_track_v(SmlrTrack { trkseg: acc }) =~= seq![s0v]);
    }
    loop
        invariant
            i < pos <= v@.len(),
            ({
                let rest = parse_segs_more(v@, pos as int);
                &&& (rest matches Some(re) ==> parse_track_at(v@, i as int) == Some(
                    (smlr_track_v(SmlrTrack { trkseg: acc }) + re.0, re.1),
                ))
                &&& (rest is None ==> parse_track_at(v@, i as int) is None)
            }),
        decreases v@.len() - pos,
    {
        let ghost acc0 = acc;
        if pos < v.len() && v[pos] == ',' {
            match parse_seg_exec(v, pos + 1) {
                Some((sg, k)) => {
                    let ghost sgv = smlr_segment_v(sg);
                    acc.push(sg);
                    proof {
                        assert(smlr_track_v(SmlrTrack { trkseg: acc }) =~= smlr_track_v(
                            SmlrTrack { trkseg: acc0 },
                        ) + seq![sgv]);
                        match parse_segs_more(v@, k as int) {
                            Some(re) => {
                                assert(smlr_track_v(SmlrTrack { trkseg: acc0 }) + (seq![sgv]
                                    + re.0) =~= smlr_track_v(SmlrTrack { trkseg: acc }) + re.0);
                            },
                            None => {},
                        }
                    }
                    pos = k;
                },
                None => {
                    return None;
                },
            }
        } else {
            match expect_lit_exec(v, pos, "]}") {
                Some(k) => {
                    return Some((SmlrTrack { trkseg: acc }, k));
                },
                None => {
                    return None;
                },
            }
        }
    }
}

#[verifier::rlimit(60)]
fn parse_doc_exec(v: &Vec<char>, i: usize) -> (r: Option<(SmlrGpx, usize)>)
    requires
        i <= v@.len(),
    ensures
        r matches Some(x) ==> parse_doc_at(v@, i as int) == Some((smlr_v(x.0), x.1 as int)) && i
            < x.1 <= v@.len(),
        r is None ==> parse_doc_at(v@, i as int) is None,
{
    proof {
        reveal_strlit("]}");
    }
    let j = match expect_lit_exec(v, i, "{\"trk\":[") {
        Some(j) => j,
        None => {
            return None;
        },
    };
    match expect_lit_exec(v, j, "]}") {
        Some(k) => {
            let g = SmlrGpx { trk: Vec::new() };
            assert(smlr_v(g) =~= Seq::<Seq<Seq<RPointV>>>::empty());
            return Some((g, k));
        },
        None => {},
    }
    let (t0, pos0) = match parse_track_exec(v, j) {
        Some(x) => x,
        None => {
            return None;
        },
    };
    let ghost t0v = smlr_track_v(t0);
    let mut acc: Vec<SmlrTrack> = Vec::new();
    acc.push(t0);
    let mut pos: usize = pos0;
    proof {
        assert(smlr_v(SmlrGpx { trk: acc }) =~= seq![t0v]);
    }
    loop
        invariant
            i < pos <= v@.len(),
            ({
                let rest = parse_tracks_more(v@, pos as int);
                &&& (rest matches Some(re) ==> parse_doc_at(v@, i as int) == Some(
                    (smlr_v(SmlrGpx { trk: acc }) + re.0, re.1),
                ))
                &&& (rest is None ==> parse_doc_at(v@, i as int) is None)
            }),
        decreases v@.len() - pos,
    {
        let ghost acc0 = acc;
        if pos < v.len() && v[pos] == ',' {
            match parse_track_exec(v, pos + 1) {
                Some((t, k)) => {
                    let ghost tv = smlr_track_v(t);
                    acc.push(t);
                    proof {
                        assert(smlr_v(SmlrGpx { trk: acc }) =~= smlr_v(SmlrGpx { trk: acc0 })
                            + seq![tv]);
                        match parse_tracks_more(v@, k as int) {
                            Some(re) => {
                                assert(smlr_v(SmlrGpx { trk: acc0 }) + (seq![tv] + re.0)
                                    =~= smlr_v(SmlrGpx { trk: acc }) + re.0);
                            },
                            None => {},
                        }
                    }
                    pos = k;
                },
                None => {
                    return None;
                },
            }
        } else {
            match expect_lit_exec(v, pos, "]}") {
                Some(k) => {
                    return Some((SmlrGpx { trk: acc }, k));
                },
                None => {
                    return None;
                },
            }
        }
    }
}

/// Reads a wrapped reduced text back into the reduced document structure.
/// Accepts exactly the texts of the form `<gpx>` + serialized reduction +
/// `</gpx>`.
pub fn read_reduced(text: &str) -> (r: Option<SmlrGpx>)
    ensures
        r matches Some(g) ==> parse_wrapped(text@) == Some(smlr_v(g)),
        r is None ==> parse_wrapped(text@) is None,
{
    proof {
        reveal_strlit("<gpx>");
        reveal_strlit("</gpx>");
    }
    let v = str_chars(text);
    let j = match expect_lit_exec(&v, 0, "<gpx>") {
        Some(j) => j,
        None => {
            return None;
        },
    };
    let (d, e) = match parse_doc_exec(&v, j) {
        Some(x) => x,
        None => {
            return None;
        },
    };
    match expect_lit_exec(&v, e, "</gpx>") {
        Some(end) => {
            if end == v.len() {
                Some(d)
            } else {
                None
            }
        },
        None => None,
    }
}

proof fn lemma_digit_char_props(d: int)
    requires
        0 <= d <= 9,
    ensures
        is_digit(digit_char(d)),
        digit_val(digit_char(d)) == d,
{
}

proof fn lemma_digits_of_props(n: int)
    requires
        n >= 0,
    ensures
        digits_of(n).len() >= 1,
        forall|k: int| 0 <= k < digits_of(n).len() ==> is_digit(#[trigger] digits_of(n)[k]),
        digits_val(digits_of(n)) == n,
    decreases n,
{
    if n < 10 {
        lemma_digit_char_props(n);
        assert(digits_of(n) =~= seq![digit_char(n)]);
        assert(digits_val(digits_of(n)) == digits_val(digits_of(n).drop_last()) * 10 + digit_val(
            digit_char(n),
        ));
    } else {
        lemma_digits_of_props(n / 10);
        lemma_digit_char_props(n % 10);
        let ds = digits_of(n / 10);
        assert(digits_of(n) == ds.push(digit_char(n % 10)));
        assert(digits_of(n).drop_last() =~= ds);
        assert(digits_val(digits_of(n)) == (n / 10) * 10 + n % 10);
        assert((n / 10) * 10 + n % 10 == n) by {
            vstd::arithmetic::div_mod::lemma_fundamental_div_mod(n, 10);
        }
        assert forall|k: int| 0 <= k < digits_of(n).len() implies is_digit(
            #[trigger] digits_of(n)[k],
        ) by {
            if k < ds.len() {
                assert(digits_of(n)[k] == ds[k]);
            }
        }
    }
}

/// Reading a rendered centi-unit value back from its place inside a larger
/// text yields exactly that value, as long as the character that follows it
/// is neither a digit nor a dot.
#[verifier::rlimit(100)]
proof fn lemma_parse_num_inverts(s: Seq<char>, i: int, c: int)
    requires
        -CENTI_LIMIT <= c <= CENTI_LIMIT,
        0 <= i,
        i + render_centi(c).len() <= s.len(),
        s.subrange(i, i + render_centi(c).len()) == render_centi(c),
        i + render_centi(c).len() == s.len() || (!is_digit(s[i + render_centi(c).len()]) && s[i
            + render_centi(c).len()] != '.'),
    ensures
        parse_num_at(s, i) == Some((c, i + render_centi(c).len())),
{
    let r = render_centi(c);
    let end = i + r.len();
    let m = if c < 0 {
        -c
    } else {
        c
    };
    let neg = c < 0;
    let j = if neg {
        i + 1
    } else {
        i
    };
    let rm = render_centi_mag(m);
    let ip = m / 100;
    let fr = m % 100;
    let ds = digits_of(ip);
    let frd = if fr % 10 == 0 {
        seq![digit_char(fr / 10)]
    } else {
        seq![digit_char(fr / 10), digit_char(fr % 10)]
    };
    vstd::arithmetic::div_mod::lemma_mod_bound(m, 100);
    vstd::arithmetic::div_mod::lemma_div_pos_is_pos(m, 100);
    lemma_digits_of_props(ip);
    lemma_digit_char_props(fr / 10);
    lemma_digit_char_props(fr % 10);
    assert(rm == ds + seq!['.'] + frd);
    assert(r == if neg {
        seq!['-'] + rm
    } else {
        rm
    });
    // Index bookkeeping: the digits sit at j, the dot after them, then the
    // one or two fractional digits.
    let e = j + ds.len();
    assert forall|k: int| i <= k < i + r.len() implies #[trigger] s[k] == r[k - i] by {
        assert(s.subrange(i, i + r.len())[k - i] == s[k]);
    }
    if neg {
        assert(s[i] == '-');
        assert(r[0] == '-');
    } else {
        assert(s[i] == r[0]);
        assert(r[0] == ds[0]);
        assert(is_digit(s[i]));
        assert(s[i] != '-') by {
            assert(('-') as u32 == 45);
        }
    }
    assert forall|k: int| j <= k < e implies is_digit(#[trigger] s[k]) by {
        assert(s[k] == r[k - i]);
        assert(r[k - i] == ds[k - j]);
    }
    assert(s[e] == r[e - i]);
    assert(r[e - i] == '.');
    assert(!is_digit('.')) by {
        assert(('.') as u32 == 46);
    }
    lemma_digit_run_end_at(s, j, e);
    assert(digit_run_end(s, j) == e);
    assert(e != j);
    // The whole part reads back as `ip`.
    assert(s.subrange(j, e) =~= ds);
    assert(digits_val(s.subrange(j, e)) == ip);
    // The fractional run covers exactly the rendered digits.
    let f = e + 1 + frd.len();
    assert(f == end);
    assert forall|k: int| e + 1 <= k < f implies is_digit(#[trigger] s[k]) by {
        assert(s[k] == r[k - i]);
        assert(r[k - i] == frd[k - (e + 1)]);
    }
    if f < s.len() {
        assert(!is_digit(s[f]));
    }
    lemma_digit_run_end_at(s, e + 1, f);
    let nf = f - (e + 1);
    assert(1 <= nf <= 2);
    assert(s[e + 1] == frd[0]);
    let fv = if nf == 1 {
        digit_val(s[e + 1]) * 10
    } else {
        digit_val(s[e + 1]) * 10 + digit_val(s[e + 2])
    };
    if fr % 10 == 0 {
        assert(nf == 1);
        assert(digit_val(s[e + 1]) == fr / 10);
        assert(fv == (fr / 10) * 10);
        assert((fr / 10) * 10 + fr % 10 == fr) by {
            vstd::arithmetic::div_mod::lemma_fundamental_div_mod(fr, 10);
        }
    } else {
        assert(nf == 2);
        assert(s[e + 2] == frd[1]);
        assert(digit_val(s[e + 1]) == fr / 10);
        assert(digit_val(s[e + 2]) == fr % 10);
        assert(fv == (fr / 10) * 10 + fr % 10);
        assert((fr / 10) * 10 + fr % 10 == fr) by {
            vstd::arithmetic::div_mod::lemma_fundamental_div_mod(fr, 10);
        }
    }
    assert(fv == fr);
    assert(ip * 100 + fr == m) by {
        vstd::arithmetic::div_mod::lemma_fundamental_div_mod(m, 100);
    }
}

/// Reading a rendered point back from its place inside a larger text yields
/// exactly that point.
#[verifier::rlimit(100)]
proof fn lemma_parse_point_inverts(s: Seq<char>, i: int, p: RPointV)
    requires
        crate::reduce::rpoint_in_range(p),
        0 <= i,
        i + render_point(p).len() <= s.len(),
        s.subrange(i, i + render_point(p).len()) == render_point(p),
    ensures
        parse_point_at(s, i) == Some((p, i + render_point(p).len())),
{
    reveal_strlit("{\"lat\":");
    reveal_strlit(",\"lon\":");
    reveal_strlit(",\"ele\":");
    reveal_strlit("}");
    let l1 = "{\"lat\":"@;
    let l2 = ",\"lon\":"@;
    let l3 = ",\"ele\":"@;
    let l4 = "}"@;
    let r1 = render_centi(p.0);
    let r2 = render_centi(p.1);
    let r3 = render_centi(p.2);
    let r = render_point(p);
    assert(r == l1 + r1 + l2 + r2 + l3 + r3 + l4);
    let a1 = i + l1.len();
    let a2 = a1 + r1.len();
    let a3 = a2 + l2.len();
    let a4 = a3 + r2.len();
    let a5 = a4 + l3.len();
    let a6 = a5 + r3.len();
    let end = a6 + l4.len();
    assert(end == i + r.len());
    let rest1 = l2 + r2 + (l3 + r3 + l4);
    let rest2 = l3 + r3 + l4;
    assert(s.subrange(i, end) == l1 + r1 + rest1) by {
        assert(r =~= l1 + r1 + rest1);
    }
    lemma_subrange_split3(s, i, l1, r1, rest1);
    assert(s.subrange(a2, end) == l2 + r2 + rest2) by {
        assert(rest1 =~= l2 + r2 + rest2);
    }
    lemma_subrange_split3(s, a2, l2, r2, rest2);
    assert(s.subrange(a4, end) == l3 + r3 + l4) by {
        assert(rest2 =~= l3 + r3 + l4);
    }
    lemma_subrange_split3(s, a4, l3, r3, l4);
    assert(expect_lit(s, i, l1) == Some(a1));
    assert(s[a2] == l2[0]) by {
        assert(s.subrange(a2, a3)[0] == s[a2]);
    }
    assert(l2[0] == ',');
    assert(!is_digit(',') && ',' != '.') by {
        assert((',') as u32 == 44);
        assert(('.') as u32 == 46);
    }
    lemma_parse_num_inverts(s, a1, p.0);
    assert(expect_lit(s, a2, l2) == Some(a3));
    assert(s[a4] == l3[0]) by {
        assert(s.subrange(a4, a5)[0] == s[a4]);
    }
    assert(l3[0] == ',');
    lemma_parse_num_inverts(s, a3, p.1);
    assert(expect_lit(s, a4, l3) == Some(a5));
    assert(s[a6] == l4[0]) by {
        assert(s.subrange(a6, end)[0] == s[a6]);
    }
    assert(l4[0] == '}');
    assert(!is_digit('}') && '}' != '.') by {
        assert(('}') as u32 == 125);
    }
    lemma_parse_num_inverts(s, a5, p.2);
    assert(expect_lit(s, a6, l4) == Some(end));
}

/// The tail of a comma-separated list: each remaining item preceded by a
/// comma.
spec fn comma_tail(items: Seq<Seq<char>>) -> Seq<char>
    decreases items.len(),
{
    if items.len() == 0 {
        Seq::<char>::empty()
    } else {
        seq![','] + items[0] + comma_tail(items.drop_first())
    }
}

proof fn lemma_comma_tail_push(items: Seq<Seq<char>>, x: Seq<char>)
    ensures
        comma_tail(items.push(x)) == comma_tail(items) + seq![','] + x,
    decreases items.len(),
{
    if items.len() == 0 {
        assert(items.push(x).drop_first() =~= Seq::<Seq<char>>::empty());
        assert(items.push(x)[0] == x);
        assert(comma_tail(Seq::<Seq<char>>::empty()) == Seq::<char>::empty());
        assert(comma_tail(items.push(x)) == seq![','] + x + Seq::<char>::empty());
        assert(seq![','] + x + Seq::<char>::empty() =~= comma_tail(items) + seq![','] + x);
    } else {
        lemma_comma_tail_push(items.drop_first(), x);
        assert(items.push(x).drop_first() =~= items.drop_first().push(x));
        assert(items.push(x)[0] == items[0]);
        assert(comma_tail(items.push(x)) == seq![','] + items[0] + (comma_tail(items.drop_first())
            + seq![','] + x));
        assert(seq![','] + items[0] + (comma_tail(items.drop_first()) + seq![','] + x) =~= (seq![
            ',',
        ] + items[0] + comma_tail(items.drop_first())) + seq![','] + x);
    }
}

proof fn lemma_join_comma_decompose(items: Seq<Seq<char>>)
    requires
        items.len() >= 1,
    ensures
        join_comma(items) == items[0] + comma_tail(items.drop_first()),
    decreases items.len(),
{
    if items.len() == 1 {
        assert(items.drop_first() =~= Seq::<Seq<char>>::empty());
        assert(items[0] + Seq::<char>::empty() =~= items[0]);
    } else {
        lemma_join_comma_decompose(items.drop_last());
        assert(items.drop_last()[0] == items[0]);
        lemma_comma_tail_push(items.drop_last().drop_first(), items.last());
        assert(items.drop_last().drop_first().push(items.last()) =~= items.drop_first());
        assert(join_comma(items) == join_comma(items.drop_last()) + seq![','] + items.last());
        assert(items[0] + (comma_tail(items.drop_last().drop_first()) + seq![','] + items.last())
            =~= (items[0] + comma_tail(items.drop_last().drop_first())) + seq![','] + items.last());
    }
}

proof fn lemma_point_text_shape(p: RPointV)
    ensures
        render_point(p).len() >= 7,
        render_point(p)[0] == '{',
{
    reveal_strlit("{\"lat\":");
    let l = "{\"lat\":"@;
    let t1 = l + render_centi(p.0);
    let t2 = t1 + ",\"lon\":"@;
    let t3 = t2 + render_centi(p.1);
    let t4 = t3 + ",\"ele\":"@;
    let t5 = t4 + render_centi(p.2);
    assert(render_point(p) == t5 + "}"@);
    assert(l.len() == 7);
    assert(t1[0] == l[0]);
    assert(t2[0] == t1[0]);
    assert(t3[0] == t2[0]);
    assert(t4[0] == t3[0]);
    assert(t5[0] == t4[0]);
    assert(render_point(p)[0] == t5[0]);
}

proof fn lemma_subrange_split2(s: Seq<char>, i: int, a: Seq<char>, b: Seq<char>)
    requires
        0 <= i,
        i + a.len() + b.len() <= s.len(),
        s.subrange(i, i + a.len() + b.len()) == a + b,
    ensures
        s.subrange(i, i + a.len()) == a,
        s.subrange(i + a.len(), i + a.len() + b.len()) == b,
{
    let whole = s.subrange(i, i + a.len() + b.len());
    assert forall|q: int| 0 <= q < a.len() implies s.subrange(i, i + a.len())[q] == a[q] by {
        assert(s.subrange(i, i + a.len())[q] == s[i + q]);
        assert(whole[q] == s[i + q]);
        assert(whole[q] == (a + b)[q]);
    }
    assert(s.subrange(i, i + a.len()) =~= a);
    assert forall|q: int|
        0 <= q < b.len() implies s.subrange(i + a.len(), i + a.len() + b.len())[q] == b[q] by {
        assert(s.subrange(i + a.len(), i + a.len() + b.len())[q] == s[i + a.len() + q]);
        assert(whole[a.len() + q] == s[i + a.len() + q]);
        assert(whole[a.len() + q] == (a + b)[a.len() + q]);
    }
    assert(s.subrange(i + a.len(), i + a.len() + b.len()) =~= b);
}

proof fn lemma_subrange_split3(s: Seq<char>, i: int, a: Seq<char>, b: Seq<char>, c: Seq<char>)
    requires
        0 <= i,
        i + a.len() + b.len() + c.len() <= s.len(),
        s.subrange(i, i + a.len() + b.len() + c.len()) == a + b + c,
    ensures
        s.subrange(i, i + a.len()) == a,
        s.subrange(i + a.len(), i + a.len() + b.len()) == b,
        s.subrange(i + a.len() + b.len(), i + a.len() + b.len() + c.len()) == c,
{
    assert(a + b + c =~= a + (b + c));
    lemma_subrange_split2(s, i, a, b + c);
    lemma_subrange_split2(s, i + a.len(), b, c);
}

proof fn lemma_seg_text_shape(sv: Seq<RPointV>)
    ensures
        render_seg_text(sv).len() >= 12,
        render_seg_text(sv)[0] == '{',
{
    reveal_strlit("{\"trkpt\":[");
    reveal_strlit("]}");
    let l = "{\"trkpt\":["@;
    let jn = join_comma(sv.map_values(|p: RPointV| render_point(p)));
    assert(render_seg_text(sv) == l + jn + "]}"@);
    assert(l.len() == 10);
    assert(render_seg_text(sv)[0] == l[0]);
}

proof fn lemma_track_text_shape(tv: Seq<Seq<RPointV>>)
    ensures
        render_track_text(tv).len() >= 13,
        render_track_text(tv)[0] == '{',
{
    reveal_strlit("{\"trkseg\":[");
    reveal_strlit("]}");
    let l = "{\"trkseg\":["@;
    let jn = join_comma(tv.map_values(|sg: Seq<RPointV>| render_seg_text(sg)));
    assert(render_track_text(tv) == l + jn + "]}"@);
    assert(l.len() == 11);
    assert(render_track_text(tv)[0] == l[0]);
}

/// At the end of a comma-separated list only the closing `]}` remains.
#[verifier::rlimit(100)]
proof fn lemma_more_setup_empty(s: Seq<char>, i: int)
    requires
        0 <= i,
        i + 2 <= s.len(),
        s.subrange(i, i + 2) == "]}"@,
    ensures
        expect_lit(s, i, "]}"@) == Some(i + 2),
        s[i] == ']',
        s[i] != ',',
{
    reveal_strlit("]}");
    assert(s[i] == ']') by {
        assert(s.subrange(i, i + 2)[0] == s[i]);
    }
    assert((']') as u32 == 93);
    assert((',') as u32 == 44);
}

/// In the middle of a comma-separated list, a comma is followed by the next
/// item, after which the rest of the list continues.
#[verifier::rlimit(100)]
proof fn lemma_more_setup(s: Seq<char>, i: int, items: Seq<Seq<char>>)
    requires
        items.len() > 0,
        0 <= i,
        i + comma_tail(items).len() + 2 <= s.len(),
        s.subrange(i, i + comma_tail(items).len() + 2) == comma_tail(items) + "]}"@,
    ensures
        s[i] == ',',
        i + comma_tail(items).len() + 2 == (i + 1 + items[0].len()) + comma_tail(
            items.drop_first(),
        ).len() + 2,
        i + 1 + items[0].len() <= s.len(),
        s.subrange(i + 1, i + 1 + items[0].len()) == items[0],
        s.subrange(i + 1 + items[0].len(), i + comma_tail(items).len() + 2) == comma_tail(
            items.drop_first(),
        ) + "]}"@,
{
    reveal_strlit("]}");
    let ct = comma_tail(items);
    let ct1 = comma_tail(items.drop_first());
    assert(ct == seq![','] + items[0] + ct1);
    let end = i + ct.len() + 2;
    assert(s.subrange(i, end) == seq![','] + items[0] + (ct1 + "]}"@)) by {
        assert(ct + "]}"@ =~= seq![','] + items[0] + (ct1 + "]}"@));
    }
    lemma_subrange_split3(s, i, seq![','], items[0], ct1 + "]}"@);
    assert(s[i] == ',') by {
        assert(s.subrange(i, i + 1)[0] == s[i]);
    }
}

/// A rendered container decomposes into its key literal, its first item (if
/// any), and the remaining comma-separated items.
#[verifier::rlimit(100)]
proof fn lemma_container_setup(s: Seq<char>, i: int, l: Seq<char>, items: Seq<Seq<char>>)
    requires
        0 <= i,
        i + l.len() + join_comma(items).len() + 2 <= s.len(),
        s.subrange(i, i + l.len() + join_comma(items).len() + 2) == l + join_comma(items) + "]}"@,
    ensures
        expect_lit(s, i, l) == Some(i + l.len()),
        items.len() == 0 ==> join_comma(items).len() == 0 && s.subrange(
            i + l.len(),
            i + l.len() + 2,
        ) == "]}"@,
        items.len() > 0 ==> ({
            let j = i + l.len();
            let end = i + l.len() + join_comma(items).len() + 2;
            &&& j + items[0].len() <= s.len()
            &&& s.subrange(j, j + items[0].len()) == items[0]
            &&& s.subrange(j + items[0].len(), end) == comma_tail(items.drop_first()) + "]}"@
            &&& end == j + items[0].len() + comma_tail(items.drop_first()).len() + 2
            &&& (items[0].len() > 0 ==> s[j] == items[0][0])
        }),
{
    reveal_strlit("]}");
    let j = i + l.len();
    let jc = join_comma(items);
    let end = i + l.len() + jc.len() + 2;
    if items.len() == 0 {
        assert(jc == Seq::<char>::empty());
        assert(s.subrange(i, end) == l + Seq::<char>::empty() + "]}"@) by {
            assert(l + jc + "]}"@ =~= l + Seq::<char>::empty() + "]}"@);
        }
        lemma_subrange_split3(s, i, l, Seq::<char>::empty(), "]}"@);
    } else {
        lemma_join_comma_decompose(items);
        let ct1 = comma_tail(items.drop_first());
        assert(s.subrange(i, end) == l + items[0] + (ct1 + "]}"@)) by {
            assert(l + jc + "]}"@ =~= l + items[0] + (ct1 + "]}"@));
        }
        lemma_subrange_split3(s, i, l, items[0], ct1 + "]}"@);
        if items[0].len() > 0 {
            assert(s[j] == items[0][0]) by {
                assert(s.subrange(j, j + items[0].len())[0] == s[j]);
            }
        }
    }
}

#[verifier::rlimit(100)]
proof fn lemma_points_more_inverts(s: Seq<char>, i: int, ps: Seq<RPointV>)
    requires
        rseg_in_range(ps),
        0 <= i,
        i + comma_tail(ps.map_values(|p: RPointV| render_point(p))).len() + 2 <= s.len(),
        s.subrange(i, i + comma_tail(ps.map_values(|p: RPointV| render_point(p))).len() + 2)
            == comma_tail(ps.map_values(|p: RPointV| render_point(p))) + "]}"@,
    ensures
        parse_points_more(s, i) == Some(
            (ps, i + comma_tail(ps.map_values(|p: RPointV| render_point(p))).len() + 2),
        ),
    decreases ps.len(),
{
    let m = ps.map_values(|p: RPointV| render_point(p));
    let ct = comma_tail(m);
    let end = i + ct.len() + 2;
    if ps.len() == 0 {
        assert(m =~= Seq::<Seq<char>>::empty());
        assert(ct == Seq::<char>::empty());
        assert(s.subrange(i, i + 2) == "]}"@) by {
            assert(ct + "]}"@ =~= "]}"@);
        }
        lemma_more_setup_empty(s, i);
        assert(Seq::<RPointV>::empty() =~= ps);
    } else {
        assert(m[0] == render_point(ps[0]));
        lemma_more_setup(s, i, m);
        lemma_point_text_shape(ps[0]);
        assert(rpoint_in_range(ps[0]));
        lemma_parse_point_inverts(s, i + 1, ps[0]);
        let k = i + 1 + render_point(ps[0]).len();
        assert(ps.drop_first().map_values(|p: RPointV| render_point(p)) =~= m.drop_first());
        assert(rseg_in_range(ps.drop_first())) by {
            assert forall|q: int| 0 <= q < ps.drop_first().len() implies rpoint_in_range(
                #[trigger] ps.drop_first()[q],
            ) by {
                assert(ps.drop_first()[q] == ps[q + 1]);
            }
        }
        lemma_points_more_inverts(s, k, ps.drop_first());
        assert(parse_points_more(s, i) == Some((seq![ps[0]] + ps.drop_first(), end)));
        assert(seq![ps[0]] + ps.drop_first() =~= ps);
    }
}

/// Reading a rendered segment back from its place inside a larger text
/// yields exactly that segment.
#[verifier::rlimit(100)]
proof fn lemma_parse_seg_inverts(s: Seq<char>, i: int, sv: Seq<RPointV>)
    requires
        rseg_in_range(sv),
        0 <= i,
        i + render_seg_text(sv).len() <= s.len(),
        s.subrange(i, i + render_seg_text(sv).len()) == render_seg_text(sv),
    ensures
        parse_seg_at(s, i) == Some((sv, i + render_seg_text(sv).len())),
{
    reveal_strlit("]}");
    let l = "{\"trkpt\":["@;
    let m = sv.map_values(|p: RPointV| render_point(p));
    let r = render_seg_text(sv);
    assert(r == l + join_comma(m) + "]}"@);
    let end = i + r.len();
    let j = i + l.len();
    lemma_container_setup(s, i, l, m);
    if sv.len() == 0 {
        assert(m =~= Seq::<Seq<char>>::empty());
        assert(expect_lit(s, j, "]}"@) == Some(j + 2));
        assert(end == j + 2);
        assert(Seq::<RPointV>::empty() =~= sv);
    } else {
        assert(m[0] == render_point(sv[0]));
        lemma_point_text_shape(sv[0]);
        assert(s[j] == '{');
        assert(expect_lit(s, j, "]}"@) is None) by {
            if expect_lit(s, j, "]}"@) is Some {
                assert(s.subrange(j, j + 2)[0] == s[j]);
                assert(s[j] == ']');
                assert(('{') as u32 == 123);
                assert((']') as u32 == 93);
            }
        }
        lemma_parse_point_inverts(s, j, sv[0]);
        let k = j + render_point(sv[0]).len();
        assert(sv.drop_first().map_values(|p: RPointV| render_point(p)) =~= m.drop_first());
        assert(rseg_in_range(sv.drop_first())) by {
            assert forall|q: int| 0 <= q < sv.drop_first().len() implies rpoint_in_range(
                #[trigger] sv.drop_first()[q],
            ) by {
                assert(sv.drop_first()[q] == sv[q + 1]);
            }
        }
        lemma_points_more_inverts(s, k, sv.drop_first());
        assert(parse_seg_at(s, i) == Some((seq![sv[0]] + sv.drop_first(), end)));
        assert(seq![sv[0]] + sv.drop_first() =~= sv);
    }
}

#[verifier::rlimit(100)]
proof fn lemma_segs_more_inverts(s: Seq<char>, i: int, ts: Seq<Seq<RPointV>>)
    requires
        rtrack_in_range(ts),
        0 <= i,
        i + comma_tail(ts.map_values(|sg: Seq<RPointV>| render_seg_text(sg))).len() + 2 <= s.len(),
        s.subrange(
            i,
            i + comma_tail(ts.map_values(|sg: Seq<RPointV>| render_seg_text(sg))).len() + 2,
        ) == comma_tail(ts.map_values(|sg: Seq<RPointV>| render_seg_text(sg))) + "]}"@,
    ensures
        parse_segs_more(s, i) == Some(
            (ts, i + comma_tail(ts.map_values(|sg: Seq<RPointV>| render_seg_text(sg))).len() + 2),
        ),
    decreases ts.len(),
{
    let m = ts.map_values(|sg: Seq<RPointV>| render_seg_text(sg));
    let ct = comma_tail(m);
    let end = i + ct.len() + 2;
    if ts.len() == 0 {
        assert(m =~= Seq::<Seq<char>>::empty());
        assert(ct == Seq::<char>::empty());
        assert(s.subrange(i, i + 2) == "]}"@) by {
            assert(ct + "]}"@ =~= "]}"@);
        }
        lemma_more_setup_empty(s, i);
        assert(Seq::<Seq<RPointV>>::empty() =~= ts);
    } else {
        assert(m[0] == render_seg_text(ts[0]));
        lemma_more_setup(s, i, m);
        lemma_seg_text_shape(ts[0]);
        assert(rseg_in_range(ts[0]));
        lemma_parse_seg_inverts(s, i + 1, ts[0]);
        let k = i + 1 + render_seg_text(ts[0]).len();
        assert(ts.drop_first().map_values(|sg: Seq<RPointV>| render_seg_text(sg)) =~=
        m.drop_first());
        assert(rtrack_in_range(ts.drop_first())) by {
            assert forall|q: int| 0 <= q < ts.drop_first().len() implies rseg_in_range(
                #[trigger] ts.drop_first()[q],
            ) by {
                assert(ts.drop_first()[q] == ts[q + 1]);
            }
        }
        lemma_segs_more_inverts(s, k, ts.drop_first());
        assert(parse_segs_more(s, i) == Some((seq![ts[0]] + ts.drop_first(), end)));
        assert(seq![ts[0]] + ts.drop_first() =~= ts);
    }
}

/// Reading a rendered track back from its place inside a larger text yields
/// exactly that track.
#[verifier::rlimit(100)]
proof fn lemma_parse_track_inverts(s: Seq<char>, i: int, tv: Seq<Seq<RPointV>>)
    requires
        rtrack_in_range(tv),
        0 <= i,
        i + render_track_text(tv).len() <= s.len(),
        s.subrange(i, i + render_track_text(tv).len()) == render_track_text(tv),
    ensures
        parse_track_at(s, i) == Some((tv, i + render_track_text(tv).len())),
{
    reveal_strlit("]}");
    let l = "{\"trkseg\":["@;
    let m = tv.map_values(|sg: Seq<RPointV>| render_seg_text(sg));
    let r = render_track_text(tv);
    assert(r == l + join_comma(m) + "]}"@);
    let end = i + r.len();
    let j = i + l.len();
    lemma_container_setup(s, i, l, m);
    if tv.len() == 0 {
        assert(m =~= Seq::<Seq<char>>::empty());
        assert(expect_lit(s, j, "]}"@) == Some(j + 2));
        assert(end == j + 2);
        assert(Seq::<Seq<RPointV>>::empty() =~= tv);
    } else {
        assert(m[0] == render_seg_text(tv[0]));
        lemma_seg_text_shape(tv[0]);
        assert(s[j] == '{');
        assert(expect_lit(s, j, "]}"@) is None) by {
            if expect_lit(s, j, "]}"@) is Some {
                assert(s.subrange(j, j + 2)[0] == s[j]);
                assert(s[j] == ']');
                assert(('{') as u32 == 123);
                assert((']') as u32 == 93);
            }
        }
        assert(rseg_in_range(tv[0]));
        lemma_parse_seg_inverts(s, j, tv[0]);
        let k = j + render_seg_text(tv[0]).len();
        assert(tv.drop_first().map_values(|sg: Seq<RPointV>| render_seg_text(sg)) =~=
        m.drop_first());
        assert(rtrack_in_range(tv.drop_first())) by {
            assert forall|q: int| 0 <= q < tv.drop_first().len() implies rseg_in_range(
                #[trigger] tv.drop_first()[q],
            ) by {
                assert(tv.drop_first()[q] == tv[q + 1]);
            }
        }
        lemma_segs_more_inverts(s, k, tv.drop_first());
        assert(parse_track_at(s, i) == Some((seq![tv[0]] + tv.drop_first(), end)));
        assert(seq![tv[0]] + tv.drop_first() =~= tv);
    }
}

#[verifier::rlimit(100)]
proof fn lemma_tracks_more_inverts(s: Seq<char>, i: int, ds: Seq<Seq<Seq<RPointV>>>)
    requires
        rdoc_in_range(ds),
        0 <= i,
        i + comma_tail(ds.map_values(|t: Seq<Seq<RPointV>>| render_track_text(t))).len() + 2
            <= s.len(),
        s.subrange(
            i,
            i + comma_tail(ds.map_values(|t: Seq<Seq<RPointV>>| render_track_text(t))).len() + 2,
        ) == comma_tail(ds.map_values(|t: Seq<Seq<RPointV>>| render_track_text(t))) + "]}"@,
    ensures
        parse_tracks_more(s, i) == Some(
            (
                ds,
                i + comma_tail(ds.map_values(|t: Seq<Seq<RPointV>>| render_track_text(t))).len()
                    + 2,
            ),
        ),
    decreases ds.len(),
{
    let m = ds.map_values(|t: Seq<Seq<RPointV>>| render_track_text(t));
    let ct = comma_tail(m);
    let end = i + ct.len() + 2;
    if ds.len() == 0 {
        assert(m =~= Seq::<Seq<char>>::empty());
        assert(ct == Seq::<char>::empty());
        assert(s.subrange(i, i + 2) == "]}"@) by {
            assert(ct + "]}"@ =~= "]}"@);
        }
        lemma_more_setup_empty(s, i);
        assert(Seq::<Seq<Seq<RPointV>>>::empty() =~= ds);
    } else {
        assert(m[0] == render_track_text(ds[0]));
        lemma_more_setup(s, i, m);
        lemma_track_text_shape(ds[0]);
        assert(rtrack_in_range(ds[0]));
        lemma_parse_track_inverts(s, i + 1, ds[0]);
        let k = i + 1 + render_track_text(ds[0]).len();
        assert(ds.drop_first().map_values(|t: Seq<Seq<RPointV>>| render_track_text(t)) =~=
        m.drop_first());
        assert(rdoc_in_range(ds.drop_first())) by {
            assert forall|q: int| 0 <= q < ds.drop_first().len() implies rtrack_in_range(
                #[trigger] ds.drop_first()[q],
            ) by {
                assert(ds.drop_first()[q] == ds[q + 1]);
            }
        }
        lemma_tracks_more_inverts(s, k, ds.drop_first());
        assert(parse_tracks_more(s, i) == Some((seq![ds[0]] + ds.drop_first(), end)));
        assert(seq![ds[0]] + ds.drop_first() =~= ds);
    }
}

/// Reading a rendered document back from its place inside a larger text
/// yields exactly that document.
#[verifier::rlimit(100)]
proof fn lemma_parse_doc_inverts(s: Seq<char>, i: int, rd: RDocV)
    requires
        rdoc_in_range(rd),
        0 <= i,
        i + render_doc_text(rd).len() <= s.len(),
        s.subrange(i, i + render_doc_text(rd).len()) == render_doc_text(rd),
    ensures
        parse_doc_at(s, i) == Some((rd, i + render_doc_text(rd).len())),
{
    reveal_strlit("]}");
    let l = "{\"trk\":["@;
    let m = rd.map_values(|t: Seq<Seq<RPointV>>| render_track_text(t));
    let r = render_doc_text(rd);
    assert(r == l + join_comma(m) + "]}"@);
    let end = i + r.len();
    let j = i + l.len();
    lemma_container_setup(s, i, l, m);
    if rd.len() == 0 {
        assert(m =~= Seq::<Seq<char>>::empty());
        assert(expect_lit(s, j, "]}"@) == Some(j + 2));
        assert(end == j + 2);
        assert(Seq::<Seq<Seq<RPointV>>>::empty() =~= rd);
    } else {
        assert(m[0] == render_track_text(rd[0]));
        lemma_track_text_shape(rd[0]);
        assert(s[j] == '{');
        assert(expect_lit(s, j, "]}"@) is None) by {
            if expect_lit(s, j, "]}"@) is Some {
                assert(s.subrange(j, j + 2)[0] == s[j]);
                assert(s[j] == ']');
                assert(('{') as u32 == 123);
                assert((']') as u32 == 93);
            }
        }
        assert(rtrack_in_range(rd[0]));
        lemma_parse_track_inverts(s, j, rd[0]);
        let k = j + render_track_text(rd[0]).len();
        assert(rd.drop_first().map_values(|t: Seq<Seq<RPointV>>| render_track_text(t)) =~=
        m.drop_first());
        assert(rdoc_in_range(rd.drop_first())) by {
            assert forall|q: int| 0 <= q < rd.drop_first().len() implies rtrack_in_range(
                #[trigger] rd.drop_first()[q],
            ) by {
                assert(rd.drop_first()[q] == rd[q + 1]);
            }
        }
        lemma_tracks_more_inverts(s, k, rd.drop_first());
        assert(parse_doc_at(s, i) == Some((seq![rd[0]] + rd.drop_first(), end)));
        assert(seq![rd[0]] + rd.drop_first() =~= rd);
    }
}


/// The companion reader inverts the serializer: a reduced document within
/// the centi-unit ceiling, serialized and wrapped in the root tag, reads
/// back as exactly itself.
pub proof fn lemma_reader_inverts_renderer(rd: RDocV)
    requires
        rdoc_in_range(rd),
    ensures
        parse_wrapped(wrap_gpx(render_doc_text(rd))) == Some(rd),
{
    reveal_strlit("<gpx>");
    reveal_strlit("</gpx>");
    let rdt = render_doc_text(rd);
    let s = wrap_gpx(rdt);
    assert(s == "<gpx>"@ + rdt + "</gpx>"@);
    let j = 5int;
    assert(s.subrange(0, j) =~= "<gpx>"@);
    assert(expect_lit(s, 0, "<gpx>"@) == Some(j));
    let e = j + rdt.len();
    assert(s.subrange(j, e) =~= rdt);
    lemma_parse_doc_inverts(s, j, rd);
    assert(s.subrange(e, e + 6) =~= "</gpx>"@);
    assert(expect_lit(s, e, "</gpx>"@) == Some(e + 6));
    assert(e + 6 == s.len());
}

/// A whole wrapped reduced text: `<gpx>`, the document, `</gpx>`, and
/// nothing else.
pub open spec fn parse_wrapped(s: Seq<char>) -> Option<RDocV> {
    match expect_lit(s, 0, "<gpx>"@) {
        Some(j) => match parse_doc_at(s, j) {
            Some((d, e)) => if expect_lit(s, e, "</gpx>"@) is Some && e + 6 == s.len() {
                Some(d)
            } else {
                None
            },
            None => None,
        },
        None => None,
    }
}

} // verus!
