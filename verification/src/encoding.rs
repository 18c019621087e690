use vstd::prelude::*;
use crate::error::ExtractError;

verus! {

/// The byte sequence with a leading UTF-8 byte-order mark (0xEF, 0xBB, 0xBF)
/// removed, when one is present.
pub open spec fn strip_bom_spec(data: Seq<u8>) -> Seq<u8> {
    if data.len() >= 3 && data[0] == 0xef && data[1] == 0xbb && data[2] == 0xbf {
        data.subrange(3, data.len() as int)
    } else {
        data
    }
}

/// Relies on `core::str::from_utf8`: it succeeds exactly on valid UTF-8 and
/// returns the decoded characters; on failure, `Utf8Error::valid_up_to` is the
/// length of the longest prefix that is valid UTF-8 — the bytes before it are
/// valid, and taking one byte more reaches into a malformed or incomplete
/// sequence.
#[verifier::external_body]
fn utf8_to_string(bytes: &Vec<u8>) -> (r: Result<String, usize>)
    ensures
        r is Ok <==> vstd::utf8::valid_utf8(bytes@),
        r matches Ok(s) ==> s@ == vstd::utf8::decode_utf8(bytes@),
        r matches Err(n) ==> ({
            &&& n <= bytes@.len()
            &&& vstd::utf8::valid_utf8(bytes@.take(n as int))
            &&& n < bytes@.len() ==> !vstd::utf8::valid_utf8(bytes@.take(n + 1))
        }),
{
    match std::str::from_utf8(bytes.as_slice()) {
        Ok(s) => Ok(s.to_string()),
        Err(e) => Err(e.valid_up_to()),
    }
}

/// Decodes raw bytes to text: strips a leading UTF-8 byte-order mark when one
/// is present, then decodes the remainder as UTF-8. Bytes that are not valid
/// UTF-8 give an `Encoding` error whose diagnostic is the length of the
/// longest valid prefix of the stripped bytes; no other encodings are
/// supported.
pub fn decode_bytes_to_string(data: &[u8]) -> (r: Result<String, ExtractError>)
    ensures
        r is Ok <==> vstd::utf8::valid_utf8(strip_bom_spec(data@)),
        r matches Ok(s) ==> s@ == vstd::utf8::decode_utf8(strip_bom_spec(data@)),
        r matches Err(e) ==> ({
            let rest = strip_bom_spec(data@);
            &&& e matches ExtractError::Encoding { valid_up_to }
            &&& valid_up_to <= rest.len()
            &&& vstd::utf8::valid_utf8(rest.take(valid_up_to as int))
            &&& valid_up_to < rest.len() ==> !vstd::utf8::valid_utf8(rest.take(valid_up_to + 1))
        }),
{
    let mut rest: Vec<u8> = Vec::new();
    let start: usize = if data.len() >= 3 && data[0] == 0xef && data[1] == 0xbb && data[2] == 0xbf {
        3
    } else {
        0
    };
    let mut i: usize = start;
    while i < data.len()
        invariant
            start <= i <= data@.len(),
            rest@ == data@.subrange(start as int, i as int),
        decreases data@.len() - i,
    {
        let b = data[i];
        rest.push(b);
        i = i + 1;
    }
    proof {
        assert(rest@ =~= strip_bom_spec(data@));
    }
    match utf8_to_string(&rest) {
        Ok(s) => Ok(s),
        Err(valid_up_to) => Err(ExtractError::Encoding { valid_up_to }),
    }
}

} // verus!
