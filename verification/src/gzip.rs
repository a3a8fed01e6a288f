//! Decompressing the fetched dataset. The gzip decoding itself is done by
//! an outside crate behind one trusted wrapper; everything after it — the
//! line scan — is verified in `scan`.

use vstd::prelude::*;
use crate::scan::{scan_text, scan_text_spec, OutcomeModel, SearchOutcome};

verus! {

/// What decompressing `compressed` as a single gzip stream of UTF-8 text
/// yields: the text, or a description of why decoding fails. Decompression
/// is a pure computation, so the outcome depends on the bytes alone.
pub uninterp spec fn gunzip_text_of(compressed: Seq<u8>) -> Result<Seq<char>, Seq<char>>;

/// Relies on `flate2::read::GzDecoder`: reading it to the end decompresses
/// the underlying bytes as one gzip stream, and both the decoded text and
/// the description of a decoding failure (malformed gzip, or bytes that are
/// not UTF-8) are computed from those bytes alone.
#[verifier::external_body]
fn gunzip_to_text(compressed: &Vec<u8>) -> (r: Result<String, String>)
    ensures
        match r {
            Ok(text) => gunzip_text_of(compressed@) == Ok::<Seq<char>, Seq<char>>(text@),
            Err(cause) => gunzip_text_of(compressed@) == Err::<Seq<char>, Seq<char>>(cause@),
        },
{
    let mut decoder = flate2::read::GzDecoder::new(compressed.as_slice());
    let mut text = String::new();
    match std::io::Read::read_to_string(&mut decoder, &mut text) {
        Ok(_) => Ok(text),
        Err(e) => Err(e.to_string()),
    }
}

/// The outcome of decompressing the fetched bytes and scanning them: a
/// decompression error carries the cause; otherwise the scan of the decoded
/// text decides.
pub open spec fn find_row_spec(compressed: Seq<u8>, term: Seq<char>) -> OutcomeModel {
    match gunzip_text_of(compressed) {
        Ok(text) => scan_text_spec(text, term),
        Err(cause) => OutcomeModel::DecompressError(cause),
    }
}

/// Decompress the fetched gzip bytes and scan the text for the first line
/// containing `search` in any tab-separated field.
pub fn find_row_in_gzipped_tsv(compressed: &Vec<u8>, search: &str) -> (r: SearchOutcome)
    ensures
        r@ == find_row_spec(compressed@, search@),
{
    match gunzip_to_text(compressed) {
        Ok(text) => scan_text(text.as_str(), search),
        Err(cause) => SearchOutcome::DecompressError(cause),
    }
}

} // verus!
