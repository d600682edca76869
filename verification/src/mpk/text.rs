//! Bytes as UTF-8 text.
use std::string::FromUtf8Error;
use vstd::prelude::*;
use vstd::string::StringSliceAdditionalSpecFns;
use vstd::utf8::decode_utf8;
use vstd::utf8::encode_utf8_decode_utf8;
use vstd::utf8::valid_utf8;

verus! {

/// `std::string::FromUtf8Error`, with which `String::from_utf8` returns the
/// bytes that it could not take. It is never looked into.
#[verifier::external_type_specification]
#[verifier::external_body]
pub struct ExFromUtf8Error(FromUtf8Error);

/// `String::from_utf8` succeeds on exactly the byte sequences that are valid
/// UTF-8, and the string it returns is made of the characters that the bytes
/// encode.
pub assume_specification[ String::from_utf8 ](vec: Vec<u8>) -> (result: Result<
    String,
    FromUtf8Error,
>)
    ensures
        result is Ok <==> valid_utf8(vec@),
        result matches Ok(text) ==> text@ == decode_utf8(vec@),
;

/// Whether two strings hold the same characters.
pub fn same_text(left: &str, right: &str) -> (same: bool)
    ensures
        same == (left@ == right@),
{
    let a = left.as_bytes();
    let b = right.as_bytes();
    proof {
        encode_utf8_decode_utf8(left@);
        encode_utf8_decode_utf8(right@);
    }
    if a.len() != b.len() {
        return false;
    }
    let mut index: usize = 0;
    while index < a.len()
        invariant
            index <= a@.len() == b@.len(),
            a@.subrange(0, index as int) == b@.subrange(0, index as int),
            a@ == left.spec_bytes(),
            b@ == right.spec_bytes(),
            decode_utf8(left.spec_bytes()) == left@,
            decode_utf8(right.spec_bytes()) == right@,
        decreases a@.len() - index,
    {
        if a[index] != b[index] {
            return false;
        }
        assert(a@.subrange(0, index + 1) == a@.subrange(0, index as int).push(a@[index as int]));
        assert(b@.subrange(0, index + 1) == b@.subrange(0, index as int).push(b@[index as int]));
        index += 1;
    }
    assert(a@ == a@.subrange(0, index as int));
    assert(b@ == b@.subrange(0, index as int));
    true
}

} // verus!
