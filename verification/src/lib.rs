//! A track-log processing library: it validates GPX documents, reduces them to
//! a compact precision-truncated form, compresses the result, and reports
//! analytic metrics about the transformation.
#![verifier::loop_isolation(false)]

mod analyze;
mod compress;
mod errors;
mod model;
mod numbers;
mod parse;
mod reader;
mod reduce;
mod text;
mod validate;

pub use analyze::{
    analyze_gpx, lemma_ratio_in_unit_interval, process_gpx_with_analytics, reduce_compress_gpx,
    BoundingBox, GpxAnalysis, GpxProcessOutput, Ratio,
};
pub use compress::{compress_gpx, decompress_gpx, lemma_compress_roundtrip};
pub use errors::GpxError;
pub use model::{DocPoint, DocSegment, DocTrack, Document};
pub use reader::{lemma_reader_inverts_renderer, read_reduced};
pub use reduce::{
    lemma_reduce_preserves_structure, reduce_gpx_size, SmlrGpx, SmlrTrack, SmlrTrackPoint,
    SmlrTrackSegment,
};
pub use text::remove_excess_whitespace;
pub use validate::validate_gpx;
