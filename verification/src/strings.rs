//! Conversions between byte buffers and strings.

use vstd::prelude::*;
use vstd::utf8::*;
use vstd::string::*;
use core::str::Utf8Error;

verus! {

/// `core::str::Utf8Error`, the error of a failed UTF-8 conversion.
#[verifier::external_type_specification]
#[verifier::external_body]
pub struct ExUtf8Error(Utf8Error);

/// Every byte of `s` is ASCII.
pub open spec fn is_ascii_bytes(s: Seq<u8>) -> bool {
    forall|i: int| 0 <= i < s.len() ==> #[trigger] s[i] < 128
}

/// `core::str::from_utf8`: the bytes as a string slice when they are valid
/// UTF-8. Claimed: success exactly on valid UTF-8, and the slice holds the
/// same bytes.
#[verifier::external_body]
pub fn str_from_utf8(bytes: &[u8]) -> (r: Result<&str, Utf8Error>)
    ensures
        r is Ok <==> valid_utf8(bytes@),
        r matches Ok(s) ==> s.spec_bytes() == bytes@,
{
    core::str::from_utf8(bytes)
}

/// ASCII bytes are valid UTF-8.
pub proof fn lemma_ascii_valid_utf8(s: Seq<u8>)
    requires
        is_ascii_bytes(s),
    ensures
        valid_utf8(s),
{
    assert(s.subrange(0, 0) =~= Seq::<u8>::empty());
    assert(valid_utf8(Seq::<u8>::empty()));
    assert forall|i: int| 0 <= 0 <= i < s.len() <= s.len() implies #[trigger] is_leading_byte_width_1(s[i]) by {}
    partial_valid_utf8_extend_ascii_block(s, 0, s.len() as int);
    assert(s.subrange(0, s.len() as int) =~= s);
}

/// The bytes of a string slice are valid UTF-8.
pub proof fn lemma_str_valid_utf8(s: &str)
    ensures
        valid_utf8(s.spec_bytes()),
{
    encode_utf8_valid_utf8(s@);
}

/// An owned string holding exactly the (valid UTF-8) bytes `v`.
pub fn bytes_to_string(v: &[u8]) -> (r: String)
    requires
        valid_utf8(v@),
    ensures
        encode_utf8(r@) == v@,
{
    match str_from_utf8(v) {
        Ok(s) => {
            let r = s.to_owned();
            r
        },
        Err(_) => String::new(),
    }
}

} // verus!
