//! Text of unknown encoding.
use vstd::prelude::*;

verus! {

/// The text that the bytes stand for, in the encoding that they are most
/// likely written in.
pub uninterp spec fn decoded_text(bytes: Seq<u8>) -> Seq<char>;

/// `chardetng::EncodingDetector` fed with all the bytes guesses their
/// encoding, and `encoding_rs::Encoding::decode` decodes them in it, with
/// malformed sequences replaced.
#[verifier::external_body]
fn detect_and_decode(bytes: &[u8]) -> (r: String)
    ensures
        r@ == decoded_text(bytes@),
{
    let mut detector = chardetng::EncodingDetector::new();
    detector.feed(bytes, false);
    let encoding = detector.guess(None, true);
    encoding.decode(bytes).0.to_string()
}

/// Decodes the content of a file whose encoding is not known.
pub fn read_with_unknown_encoding(bytes: &[u8]) -> (r: String)
    ensures
        r@ == decoded_text(bytes@),
{
    detect_and_decode(bytes)
}

} // verus!
