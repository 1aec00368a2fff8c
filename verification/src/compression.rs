//! Chunks at rest: Zstandard frames.

use vstd::prelude::*;

verus! {

/// The Zstandard frame that the encoder makes of `data` at `level`, or
/// `None` where it reports a failure.
pub uninterp spec fn zstd_frame(data: Seq<u8>, level: int) -> Option<Seq<u8>>;

/// The data that the Zstandard decoder reads out of `frame`, or `None`
/// where it rejects the input.
pub uninterp spec fn zstd_content(frame: Seq<u8>) -> Option<Seq<u8>>;

/// Trusted: `zstd::stream::encode_all` compresses the whole input into one
/// Zstandard frame at the given level and returns it, or returns the
/// encoder's error. The outcome depends on the data and the level alone.
/// Zstandard is lossless: decoding the frame gives the data back.
#[verifier::external_body]
fn zstd_encode_all(input: &[u8], level: i32) -> (frame: Option<Vec<u8>>)
    ensures
        frame matches Some(f) ==> zstd_frame(input@, level as int) == Some(f@) && zstd_content(f@)
            == Some(input@),
        frame is None ==> zstd_frame(input@, level as int) is None,
{
    zstd::stream::encode_all(input, level).ok()
}

/// Trusted: `zstd::stream::decode_all` decodes the Zstandard frames that
/// make up the whole input and returns their content, or returns the
/// decoder's error where the input is not made of complete frames. The
/// outcome depends on the input alone.
#[verifier::external_body]
fn zstd_decode_all(input: &[u8]) -> (content: Option<Vec<u8>>)
    ensures
        content matches Some(c) ==> zstd_content(input@) == Some(c@),
        content is None ==> zstd_content(input@) is None,
{
    zstd::stream::decode_all(input).ok()
}

/// Compresses `input` at `level`.
///
/// Whatever comes back decompresses to `input` again.
pub fn compress_file(input: &Vec<u8>, level: i32) -> (frame: Option<Vec<u8>>)
    ensures
        frame matches Some(f) ==> zstd_frame(input@, level as int) == Some(f@) && zstd_content(f@)
            == Some(input@),
        frame is None ==> zstd_frame(input@, level as int) is None,
{
    zstd_encode_all(input.as_slice(), level)
}

/// Decompresses `input`; `None` where it is not compressed data.
pub fn decompress_file(input: &Vec<u8>) -> (content: Option<Vec<u8>>)
    ensures
        content matches Some(c) ==> zstd_content(input@) == Some(c@),
        content is None ==> zstd_content(input@) is None,
{
    zstd_decode_all(input.as_slice())
}

} // verus!
