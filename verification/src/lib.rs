//! Verified core of a batch image-captioning pipeline.
//!
//! A directory of images is captioned by sending each image, base64-encoded,
//! to a generative-model HTTP endpoint and persisting one JSON result file
//! per input image.  This crate holds the logic of that pipeline: the image
//! codec, the request builder, the response classifier and extractor, the
//! output writer and the batch orchestration rules.  The surrounding binary
//! performs the I/O (directory listing, the HTTP call, file writes) and
//! hands this crate plain values.

use vstd::prelude::*;

mod batch;
mod codec;
mod json;
mod output;
mod request;
mod response;
mod text;

pub use batch::FileEntry;
pub use batch::RunProgress;
pub use batch::keeps;
pub use batch::kept;
pub use batch::lemma_skip_existing_idempotent;
pub use batch::make_batches;
pub use batch::pair_outputs;
pub use batch::select_files;
pub use codec::EncodedImage;
pub use codec::ascii_lower;
pub use codec::ascii_lower_str;
pub use codec::base64_of;
pub use codec::encode_image;
pub use codec::media_type_for;
pub use codec::media_type_of;
pub use json::Json;
pub use json::JsonV;
pub use json::field_in;
pub use json::get_field;
pub use json::json_parse_of;
pub use json::jv;
pub use json::jv_field;
pub use json::jv_seq;
pub use json::lemma_compact_single_line;
pub use json::lemma_field_in_num_plain;
pub use json::lemma_pretty_multiline;
pub use json::newline_free;
pub use json::num_plain;
pub use json::parse_json;
pub use json::render;
pub use json::to_text;
pub use output::lemma_output_path_injective;
pub use output::output_file_name;
pub use output::output_name;
pub use output::output_path;
pub use output::output_path_of;
pub use output::resolve_output_value;
pub use output::resolve_v;
pub use request::build_request;
pub use request::jv_opt;
pub use request::parse_options;
pub use request::request_v;
pub use response::classify_response;
pub use response::extract_contents;
pub use response::content_of;
pub use response::extracted;
pub use response::lemma_extracted_num_plain;
pub use response::status_success;

verus! {

/// Why an item of the run failed.
#[derive(Debug, PartialEq, Eq)]
pub enum PipelineError {
    /// The file's extension is absent or not in the supported table.
    UnsupportedFormat,
    /// A file could not be read or written; the text says which and why.
    IOFailure(String),
    /// The HTTP request could not be sent; the text is the transport's message.
    TransportError(String),
    /// The endpoint answered with a non-success status; the raw body is kept
    /// for diagnostics.
    ServerError { status: u16, body: String },
    /// The endpoint answered success, but the body was not valid JSON.
    MalformedResponse,
}

/// How many batches `n` items make at `b` per batch: the last may be short.
pub open spec fn batch_count(n: nat, b: nat) -> nat
    recommends
        b >= 1,
{
    ((n + b - 1) / (b as int)) as nat
}

} // verus!
