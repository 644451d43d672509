//! Script assets: the text content of a script and the validation that
//! turns raw asset bytes into one.  Reading the bytes from disk is the
//! embedding application's concern; the decoding and validation logic lives
//! here.

use vstd::prelude::*;

verus! {

/// A script asset: its text content and the path it was loaded from.
#[derive(Debug)]
pub struct RhaiScript {
    pub content: String,
    pub path: String,
}

/// Errors of script asset loading.
#[derive(Debug)]
#[non_exhaustive]
pub enum RhaiAssetLoaderError {
    /// The underlying byte source could not be read; carries the reader's
    /// message.
    Io(String),
    /// Invalid characters found in script; carries the decoded text with
    /// replacement characters.
    InvalidCharactersFound(String),
    /// Could not read path from asset.
    ReadingPathFailed,
}

/// What the UTF-8 decode returns for a byte sequence: the decoded
/// characters, with replacement characters standing in for malformed
/// sequences, and whether any replacement happened.  The result depends on
/// the bytes alone.
pub uninterp spec fn utf8_decode_of(bytes: Seq<u8>) -> (Seq<char>, bool);

/// Relies on encoding_rs: `UTF_8.decode` decodes the whole buffer to text
/// (with byte-order-mark sniffing, the mark itself removed), stands U+FFFD
/// in for malformed sequences, and reports whether any replacement
/// happened.  The length bound keeps the decoder's output-size calculation
/// away from overflow, where it would panic.
#[verifier::external_body]
fn decode_utf8(bytes: &Vec<u8>) -> (r: (String, bool))
    requires
        bytes@.len() <= 0x1000_0000_0000_0000,
    ensures
        (r.0@, r.1) == utf8_decode_of(bytes@),
{
    let (text, _, had_errors) = encoding_rs::UTF_8.decode(bytes.as_slice());
    (text.into_owned(), had_errors)
}

/// Build a script asset from raw bytes and the asset path.  Empty input
/// yields an empty script without touching the decoder; text with malformed
/// characters is rejected, carrying the decoded text; clean text becomes
/// the script content.
pub fn script_from_bytes(bytes: Vec<u8>, path: String) -> (r: Result<
    RhaiScript,
    RhaiAssetLoaderError,
>)
    requires
        bytes@.len() <= 0x1000_0000_0000_0000,
    ensures
        bytes@.len() == 0 ==> (r matches Ok(s) && s.content@ == Seq::<char>::empty() && s.path@
            == path@),
        bytes@.len() > 0 && utf8_decode_of(bytes@).1 ==> (r matches Err(e) && e matches
            RhaiAssetLoaderError::InvalidCharactersFound(t) && t@ == utf8_decode_of(bytes@).0),
        bytes@.len() > 0 && !utf8_decode_of(bytes@).1 ==> (r matches Ok(s) && s.content@
            == utf8_decode_of(bytes@).0 && s.path@ == path@),
{
    if bytes.len() == 0 {
        return Ok(RhaiScript { content: String::new(), path });
    }
    let (text, malformed) = decode_utf8(&bytes);
    if malformed {
        return Err(RhaiAssetLoaderError::InvalidCharactersFound(text));
    }
    Ok(RhaiScript { content: text, path })
}

} // verus!
