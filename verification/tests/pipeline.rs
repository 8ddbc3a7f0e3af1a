use gpx_file_processor::{
    analyze_gpx, compress_gpx, decompress_gpx, process_gpx_with_analytics, read_reduced,
    reduce_compress_gpx, reduce_gpx_size, remove_excess_whitespace, validate_gpx, GpxError,
};

fn sample_gpx() -> String {
    let mut doc = String::new();
    doc.push_str("<?xml version=\"1.0\" encoding=\"UTF-8\"?>\n");
    doc.push_str("<gpx version=\"1.1\" creator=\"unit-test\">\n");
    doc.push_str("  <trk>\n");
    doc.push_str("    <trkseg>\n");
    doc.push_str("      <trkpt lat=\"45.1234\" lon=\"-122.6789\"><ele>10.2</ele></trkpt>\n");
    doc.push_str("      <trkpt lat=\"45.1236\" lon=\"-122.6791\"></trkpt>\n");
    doc.push_str("      <trkpt lat=\"45.1238\" lon=\"-122.6795\"><ele>12.7</ele></trkpt>\n");
    doc.push_str("    </trkseg>\n");
    doc.push_str("  </trk>\n");
    doc.push_str("</gpx>\n");
    doc
}

const SAMPLE_REDUCED: &str = "{\"trk\":[{\"trkseg\":[{\"trkpt\":[{\"lat\":45.12,\"lon\":-122.68,\"ele\":10.2},{\"lat\":45.12,\"lon\":-122.68,\"ele\":0.0},{\"lat\":45.12,\"lon\":-122.68,\"ele\":12.7}]}]}]}";

#[test]
fn validate_accepts_well_formed_document() {
    assert!(validate_gpx(&sample_gpx()));
}

#[test]
fn validate_rejects_missing_xml_declaration() {
    // Well-formed otherwise, but the <?xml prefix is absent.
    let doc = sample_gpx().replace("<?xml version=\"1.0\" encoding=\"UTF-8\"?>\n", "");
    assert!(doc.contains("<gpx"));
    assert!(!validate_gpx(&doc));
}

#[test]
fn validate_rejects_missing_root_tag() {
    let doc = "<?xml version=\"1.0\"?><note>hello</note>";
    assert!(!validate_gpx(doc));
}

#[test]
fn validate_rejects_unparseable_document() {
    let doc = "<?xml version=\"1.0\"?><gpx version=\"1.1\"><trk>";
    assert!(!validate_gpx(doc));
}

#[test]
fn validate_rejects_oversized_input() {
    // Exactly one byte over the 50,000,000-byte ceiling.
    let mut doc = String::with_capacity(50_000_001);
    doc.push_str("<?xml version=\"1.0\"?><gpx version=\"1.1\"></gpx>");
    while doc.len() < 50_000_001 {
        doc.push(' ');
    }
    assert_eq!(doc.len(), 50_000_001);
    assert!(!validate_gpx(&doc));
}

#[test]
fn reduce_rejects_oversized_input() {
    let mut doc = String::with_capacity(50_000_001);
    doc.push_str("<?xml version=\"1.0\"?><gpx version=\"1.1\"></gpx>");
    while doc.len() < 50_000_001 {
        doc.push(' ');
    }
    assert_eq!(doc.len(), 50_000_001);
    assert!(matches!(reduce_gpx_size(&doc), Err(GpxError::InputTooLarge)));
}

#[test]
fn reduce_rounds_three_points_to_two_decimals() {
    let reduced = reduce_gpx_size(&sample_gpx()).unwrap();
    assert_eq!(reduced, SAMPLE_REDUCED);
}

#[test]
fn reduce_fails_on_unparseable_input() {
    let r = reduce_gpx_size("<?xml version=\"1.0\"?><gpx version=\"1.1\"><trk>");
    assert!(matches!(r, Err(GpxError::ParseError(_))));
}

#[test]
fn reduce_rejects_too_many_points() {
    // One point over the 100,000-point ceiling.
    let mut doc = String::new();
    doc.push_str("<?xml version=\"1.0\"?>\n<gpx version=\"1.1\"><trk><trkseg>\n");
    for i in 0..100_001 {
        doc.push_str(&format!(
            "<trkpt lat=\"45.{:05}\" lon=\"-122.6789\"></trkpt>\n",
            i % 10_000
        ));
    }
    doc.push_str("</trkseg></trk></gpx>\n");
    match reduce_gpx_size(&doc) {
        Err(GpxError::TooManyPoints(count, limit)) => {
            assert_eq!(count, 100_001);
            assert_eq!(limit, 100_000);
        }
        other => panic!("expected TooManyPoints, got {:?}", other.map(|_| ())),
    }
}

#[test]
fn reduce_rejects_out_of_range_coordinate() {
    // A coordinate of a billion degrees and beyond is outside the model.
    let doc = "<?xml version=\"1.0\"?><gpx version=\"1.1\"><trk><trkseg><trkpt lat=\"1e300\" lon=\"0.0\"></trkpt></trkseg></trk></gpx>";
    assert!(matches!(reduce_gpx_size(doc), Err(GpxError::ParseError(_))));
}

#[test]
fn reduce_rounds_half_away_from_zero() {
    // Ties at the third decimal go away from zero, for both signs.
    let doc = "<?xml version=\"1.0\"?><gpx version=\"1.1\"><trk><trkseg><trkpt lat=\"1.005\" lon=\"-1.005\"><ele>-0.004</ele></trkpt></trkseg></trk></gpx>";
    let reduced = reduce_gpx_size(doc).unwrap();
    assert_eq!(
        reduced,
        "{\"trk\":[{\"trkseg\":[{\"trkpt\":[{\"lat\":1.01,\"lon\":-1.01,\"ele\":0.0}]}]}]}"
    );
}

#[test]
fn whitespace_cleaning_trims_and_drops_blank_lines() {
    let input = "  <a>\r\n\t <b>x</b>  \n\n   \n<c/> \n";
    assert_eq!(remove_excess_whitespace(input), "<a>\n<b>x</b>\n<c/>");
}

#[test]
fn whitespace_cleaning_handles_unicode_spaces() {
    let input = "\u{a0}\u{2003}line one\u{3000}\n\u{2028}\n second ";
    assert_eq!(remove_excess_whitespace(input), "line one\nsecond");
}

#[test]
fn compress_then_decompress_returns_cleaned_text() {
    let input = "  line one  \n\n\t line two \n";
    let compressed = compress_gpx(input).unwrap();
    let back = decompress_gpx(&compressed).unwrap();
    assert_eq!(back, "line one\nline two");
}

#[test]
fn compress_of_clean_text_round_trips_byte_for_byte() {
    let input = "already-clean";
    let compressed = compress_gpx(input).unwrap();
    assert_eq!(decompress_gpx(&compressed).unwrap(), input);
}

#[test]
fn decompress_rejects_non_gzip_bytes() {
    let junk: Vec<u8> = vec![0x00, 0x01, 0x02, 0x03, 0xff, 0xfe];
    match decompress_gpx(&junk) {
        Err(GpxError::DecompressionError(msg)) => {
            assert!(!msg.is_empty());
        }
        other => panic!("expected DecompressionError, got {:?}", other.map(|_| ())),
    }
}

#[test]
fn decompress_rejects_empty_input() {
    assert!(matches!(
        decompress_gpx(&[]),
        Err(GpxError::DecompressionError(_))
    ));
}

#[test]
fn reduce_compress_rejects_invalid_format() {
    // Missing <?xml declaration: the validation gate turns this into
    // InvalidFormat even though the parser itself might accept it.
    let doc = sample_gpx().replace("<?xml version=\"1.0\" encoding=\"UTF-8\"?>\n", "");
    assert!(matches!(
        reduce_compress_gpx(&doc),
        Err(GpxError::InvalidFormat)
    ));
}

#[test]
fn reduce_compress_emits_gzip_of_reduced_text() {
    let compressed = reduce_compress_gpx(&sample_gpx()).unwrap();
    // The stream decompresses back to the (already whitespace-free)
    // reduced text, without the root wrapper.
    let back = decompress_gpx(&compressed).unwrap();
    assert_eq!(back, SAMPLE_REDUCED);
}

#[test]
fn analyze_reports_counts_and_ranges() {
    let doc = sample_gpx();
    let a = analyze_gpx(&doc).unwrap();
    assert_eq!(a.original_size_bytes, doc.len());
    assert_eq!(a.point_count, 3);
    assert_eq!(a.reduced_point_count, 3);
    assert_eq!(a.tracks_count, 1);
    assert_eq!(a.segments_count, 1);
    // Elevation range over the original document, in nano-meters.
    assert_eq!(a.elevation_range, Some((10_200_000_000, 12_700_000_000)));
    let b = a.bounding_box.as_ref().unwrap();
    assert_eq!(b.min_lat, 45_123_400_000);
    assert_eq!(b.max_lat, 45_123_800_000);
    assert_eq!(b.min_lon, -122_679_500_000);
    assert_eq!(b.max_lon, -122_678_900_000);
    // The reduced size counts the wrapped text.
    assert_eq!(a.reduced_size_bytes, SAMPLE_REDUCED.len() + "<gpx>".len() + "</gpx>".len());
    assert!(a.compressed_size_bytes > 0);
    // Ratios are kept as exact (part, whole) pairs.
    assert_eq!(a.compression_ratio.part, a.compressed_size_bytes);
    assert_eq!(a.compression_ratio.whole, a.original_size_bytes);
    assert_eq!(a.point_reduction_ratio.part, 3);
    assert_eq!(a.point_reduction_ratio.whole, 3);
}

#[test]
fn analyze_round_trip_check_records_failure_of_reparse() {
    // The compressed payload decompresses to the reduced key-value text,
    // which the XML codec does not accept, so the round-trip check records
    // a failure instead of aborting the analysis.
    let a = analyze_gpx(&sample_gpx()).unwrap();
    assert!(!a.decompressed_valid);
    assert_eq!(a.decompressed_size_bytes, 0);
    assert!(a.decompressed_error.is_some());
}

#[test]
fn analyze_fails_on_unparseable_input() {
    assert!(matches!(
        analyze_gpx("not a gpx document"),
        Err(GpxError::ParseError(_))
    ));
}

#[test]
fn analyze_reports_empty_ranges_for_empty_document() {
    let doc = "<?xml version=\"1.0\"?><gpx version=\"1.1\"></gpx>";
    let a = analyze_gpx(doc).unwrap();
    assert_eq!(a.point_count, 0);
    assert_eq!(a.elevation_range, None);
    assert!(a.bounding_box.is_none());
    assert_eq!(a.point_reduction_ratio.part, 0);
    assert_eq!(a.point_reduction_ratio.whole, 0);
}

#[test]
fn process_returns_analysis_and_compressed_data() {
    let out = process_gpx_with_analytics(&sample_gpx()).unwrap();
    assert_eq!(out.analysis.point_count, 3);
    let back = decompress_gpx(&out.data).unwrap();
    assert_eq!(back, SAMPLE_REDUCED);
}

#[test]
fn process_rejects_invalid_input() {
    assert!(process_gpx_with_analytics("plain text").is_err());
}

#[test]
fn process_rejects_analyzable_but_invalid_input() {
    // Parseable and analyzable, but missing the <?xml prefix: the analysis
    // succeeds, yet the compression pipeline's own validation still rejects
    // the input, so the whole call fails with InvalidFormat.
    let doc = sample_gpx().replace("<?xml version=\"1.0\" encoding=\"UTF-8\"?>\n", "");
    assert!(analyze_gpx(&doc).is_ok());
    assert!(matches!(
        process_gpx_with_analytics(&doc),
        Err(GpxError::InvalidFormat)
    ));
}

#[test]
fn process_data_matches_reduce_compress_data() {
    // The compressed stream is a function of the input text alone, so the
    // combined entry point hands out the same bytes as the separate call.
    let out = process_gpx_with_analytics(&sample_gpx()).unwrap();
    let bytes = reduce_compress_gpx(&sample_gpx()).unwrap();
    assert_eq!(out.data, bytes);
    assert_eq!(out.analysis.compressed_size_bytes > 0, true);
}

#[test]
fn compress_always_succeeds_in_memory() {
    // Compressing into memory has no failure path, whatever the text.
    assert!(compress_gpx("").is_ok());
    assert!(compress_gpx("   \n\n  ").is_ok());
    let mut big = String::new();
    while big.len() < 20_000 {
        big.push_str("some repetitive line of text\n");
    }
    assert!(compress_gpx(&big).is_ok());
}

#[test]
fn reader_reads_back_wrapped_reduced_text() {
    let reduced = reduce_gpx_size(&sample_gpx()).unwrap();
    let wrapped = format!("<gpx>{}</gpx>", reduced);
    let doc = read_reduced(&wrapped).unwrap();
    assert_eq!(doc.trk.len(), 1);
    assert_eq!(doc.trk[0].trkseg.len(), 1);
    let pts = &doc.trk[0].trkseg[0].trkpt;
    assert_eq!(pts.len(), 3);
    // Centi-unit values: 45.12 degrees is 4512 centi-degrees.
    assert_eq!(pts[0].lat, 4512);
    assert_eq!(pts[0].lon, -12268);
    assert_eq!(pts[0].ele, 1020);
    assert_eq!(pts[1].ele, 0);
    assert_eq!(pts[2].ele, 1270);
}

#[test]
fn reader_reads_back_empty_document() {
    let doc = read_reduced("<gpx>{\"trk\":[]}</gpx>").unwrap();
    assert_eq!(doc.trk.len(), 0);
}

#[test]
fn reader_rejects_unwrapped_text() {
    assert!(read_reduced("{\"trk\":[]}").is_none());
    assert!(read_reduced("<gpx>{\"trk\":[]}</gpx> ").is_none());
    assert!(read_reduced("<gpx>{\"trk\":[}</gpx>").is_none());
}
