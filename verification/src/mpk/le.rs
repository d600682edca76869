//! Little-endian integers in byte sequences.
use vstd::arithmetic::div_mod::lemma_fundamental_div_mod_converse;
use vstd::prelude::*;

verus! {

/// The unsigned 32-bit integer that the four bytes from `at` on spell in
/// little-endian order.
pub open spec fn u32_le(bytes: Seq<u8>, at: int) -> u32
    recommends
        0 <= at,
        at + 4 <= bytes.len(),
{
    (bytes[at] as int + bytes[at + 1] as int * 0x100 + bytes[at + 2] as int * 0x1_0000 + bytes[at
        + 3] as int * 0x100_0000) as u32
}

/// The four bytes that spell `value` in little-endian order.
pub open spec fn u32_le_bytes(value: u32) -> Seq<u8> {
    seq![
        (value as int % 0x100) as u8,
        (value as int / 0x100 % 0x100) as u8,
        (value as int / 0x1_0000 % 0x100) as u8,
        (value as int / 0x100_0000) as u8,
    ]
}

/// Reads the little-endian `u32` that starts at `at`, where `bytes` holds
/// four bytes from there on.
pub fn read_u32_le(bytes: &[u8], at: usize) -> (value: Option<u32>)
    ensures
        match value {
            Some(value) => at + 4 <= bytes@.len() && value == u32_le(bytes@, at as int),
            None => at + 4 > bytes@.len(),
        },
{
    if bytes.len() < 4 || at > bytes.len() - 4 {
        return None;
    }
    let b0: u32 = bytes[at] as u32;
    let b1: u32 = bytes[at + 1] as u32;
    let b2: u32 = bytes[at + 2] as u32;
    let b3: u32 = bytes[at + 3] as u32;
    Some(b0 + b1 * 0x100 + b2 * 0x1_0000 + b3 * 0x100_0000)
}

/// Spelling a number and reading it back gives the number.
pub proof fn lemma_u32_le_of_bytes(value: u32)
    ensures
        u32_le_bytes(value).len() == 4,
        u32_le(u32_le_bytes(value), 0) == value,
{
}

/// The digits of a number written in base 256 are found again by division.
proof fn lemma_base_256_digits(b0: int, b1: int, b2: int, b3: int)
    requires
        0 <= b0 < 0x100,
        0 <= b1 < 0x100,
        0 <= b2 < 0x100,
        0 <= b3 < 0x100,
    ensures
        ({
            let v = b0 + b1 * 0x100 + b2 * 0x1_0000 + b3 * 0x100_0000;
            &&& 0 <= v <= u32::MAX
            &&& v % 0x100 == b0
            &&& v / 0x100 % 0x100 == b1
            &&& v / 0x1_0000 % 0x100 == b2
            &&& v / 0x100_0000 == b3
        }),
{
    let v = b0 + b1 * 0x100 + b2 * 0x1_0000 + b3 * 0x100_0000;
    let q1 = b1 + b2 * 0x100 + b3 * 0x1_0000;
    let q2 = b2 + b3 * 0x100;
    lemma_fundamental_div_mod_converse(v, 0x100, q1, b0);
    lemma_fundamental_div_mod_converse(q1, 0x100, q2, b1);
    lemma_fundamental_div_mod_converse(v, 0x1_0000, q2, b0 + b1 * 0x100);
    lemma_fundamental_div_mod_converse(q2, 0x100, b3, b2);
    lemma_fundamental_div_mod_converse(v, 0x100_0000, b3, b0 + b1 * 0x100 + b2 * 0x1_0000);
}

/// Reading four bytes and spelling the number gives the four bytes.
pub proof fn lemma_bytes_of_u32_le(bytes: Seq<u8>, at: int)
    requires
        0 <= at,
        at + 4 <= bytes.len(),
    ensures
        u32_le_bytes(u32_le(bytes, at)) == bytes.subrange(at, at + 4),
{
    lemma_base_256_digits(
        bytes[at] as int,
        bytes[at + 1] as int,
        bytes[at + 2] as int,
        bytes[at + 3] as int,
    );
    assert(u32_le_bytes(u32_le(bytes, at)) =~= bytes.subrange(at, at + 4));
}

/// Where four bytes of a sequence spell `value`, reading them gives `value`.
pub proof fn lemma_u32_le_at(bytes: Seq<u8>, at: int, value: u32)
    requires
        0 <= at,
        at + 4 <= bytes.len(),
        bytes.subrange(at, at + 4) == u32_le_bytes(value),
    ensures
        u32_le(bytes, at) == value,
{
    let four = bytes.subrange(at, at + 4);
    assert(bytes[at] == four[0]);
    assert(bytes[at + 1] == four[1]);
    assert(bytes[at + 2] == four[2]);
    assert(bytes[at + 3] == four[3]);
    lemma_u32_le_of_bytes(value);
}

} // verus!
