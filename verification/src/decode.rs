//! Decoding of the character sets that source files are written in.

use vstd::prelude::*;

verus! {

/// The largest number of bytes that is decoded in one piece. The decoder sizes its buffer at up
/// to three bytes for each byte of input and may double it once.
pub const MAX_DECODED_BYTES: usize = usize::MAX / 16;

/// The text that `encoding_rs` reads from bytes in the GBK encoding.
pub uninterp spec fn gbk_text(bytes: Seq<u8>) -> Seq<char>;

/// Calls `Encoding::decode` of `encoding_rs` on `GBK`, with byte order marks obeyed and malformed
/// sequences replaced. The text is a function of the bytes; the decoder panics only where the
/// size of its buffer overflows, which the bound on the number of bytes rules out.
#[verifier::external_body]
pub(crate) fn decode_gbk(bytes: &[u8]) -> (r: String)
    requires
        bytes@.len() <= MAX_DECODED_BYTES,
    ensures
        r@ == gbk_text(bytes@),
{
    let (decoded, _, _) = encoding_rs::GBK.decode(bytes);
    decoded.into_owned()
}

/// The text that `encoding_rs` reads from bytes in the GB18030 encoding.
pub uninterp spec fn gb18030_text(bytes: Seq<u8>) -> Seq<char>;

/// Calls `Encoding::decode` of `encoding_rs` on `GB18030`, with byte order marks obeyed and
/// malformed sequences replaced. The text is a function of the bytes; the decoder panics only
/// where the size of its buffer overflows, which the bound on the number of bytes rules out.
#[verifier::external_body]
pub(crate) fn decode_gb18030(bytes: &[u8]) -> (r: String)
    requires
        bytes@.len() <= MAX_DECODED_BYTES,
    ensures
        r@ == gb18030_text(bytes@),
{
    let (decoded, _, _) = encoding_rs::GB18030.decode(bytes);
    decoded.into_owned()
}

/// The text of bytes in the Latin-1 encoding: each byte is the code point of a character.
pub open spec fn latin1_text(bytes: Seq<u8>) -> Seq<char> {
    bytes.map_values(|b: u8| b as char)
}

/// Decodes bytes in the Latin-1 encoding.
pub fn decode_latin1(bytes: &[u8]) -> (r: String)
    ensures
        r@ == latin1_text(bytes@),
{
    let ghost goal = latin1_text(bytes@);
    let mut r: String = String::new();
    assert(r@ =~= goal.take(0));
    for i in 0..bytes.len()
        invariant
            goal == latin1_text(bytes@),
            r@ == goal.take(i as int),
    {
        r.push(bytes[i] as char);
        assert(goal.take(i + 1) =~= goal.take(i as int).push(bytes@[i as int] as char));
    }
    assert(goal.take(bytes@.len() as int) == goal);
    r
}

/// Every byte is decoded to the character of its number.
pub proof fn bytes_are_the_numbers_of_their_characters(bytes: Seq<u8>, i: int)
    requires
        0 <= i < bytes.len(),
    ensures
        latin1_text(bytes).len() == bytes.len(),
        latin1_text(bytes)[i] as int == bytes[i] as int,
{
}

} // verus!
