use vstd::prelude::*;

verus! {

/// Number of bytes the size prefix occupies on the wire.
pub const PREFIX_LEN: usize = 8;

/// The size prefix of a payload of `size` bytes: `size` written as eight
/// bytes, least significant first.
pub open spec fn le_bytes(size: u64) -> Seq<u8> {
    seq![
        (size % 0x100) as u8,
        (size / 0x100 % 0x100) as u8,
        (size / 0x1_0000 % 0x100) as u8,
        (size / 0x100_0000 % 0x100) as u8,
        (size / 0x1_0000_0000 % 0x100) as u8,
        (size / 0x100_0000_0000 % 0x100) as u8,
        (size / 0x1_0000_0000_0000 % 0x100) as u8,
        (size / 0x100_0000_0000_0000 % 0x100) as u8,
    ]
}

/// The number that eight bytes denote when read least significant first.
pub open spec fn le_value(bytes: Seq<u8>) -> int
    recommends
        bytes.len() == PREFIX_LEN,
{
    bytes[0] as int
        + bytes[1] as int * 0x100
        + bytes[2] as int * 0x1_0000
        + bytes[3] as int * 0x100_0000
        + bytes[4] as int * 0x1_0000_0000
        + bytes[5] as int * 0x100_0000_0000
        + bytes[6] as int * 0x1_0000_0000_0000
        + bytes[7] as int * 0x100_0000_0000_0000
}

/// Decoding inverts encoding: every length survives the wire unchanged.
pub proof fn lemma_value_of_bytes(size: u64)
    ensures
        le_bytes(size).len() == PREFIX_LEN,
        le_value(le_bytes(size)) == size,
{
    assert(size == size % 0x100
        + (size / 0x100 % 0x100) * 0x100
        + (size / 0x1_0000 % 0x100) * 0x1_0000
        + (size / 0x100_0000 % 0x100) * 0x100_0000
        + (size / 0x1_0000_0000 % 0x100) * 0x1_0000_0000
        + (size / 0x100_0000_0000 % 0x100) * 0x100_0000_0000
        + (size / 0x1_0000_0000_0000 % 0x100) * 0x1_0000_0000_0000
        + (size / 0x100_0000_0000_0000 % 0x100) * 0x100_0000_0000_0000) by (bit_vector);
}

/// Encoding inverts decoding: eight bytes are the prefix of exactly one
/// length, the one they denote.
pub proof fn lemma_bytes_of_value(bytes: Seq<u8>)
    requires
        bytes.len() == PREFIX_LEN,
    ensures
        0 <= le_value(bytes) <= u64::MAX,
        le_bytes(le_value(bytes) as u64) == bytes,
{
    let b0 = bytes[0] as u64;
    let b1 = bytes[1] as u64;
    let b2 = bytes[2] as u64;
    let b3 = bytes[3] as u64;
    let b4 = bytes[4] as u64;
    let b5 = bytes[5] as u64;
    let b6 = bytes[6] as u64;
    let b7 = bytes[7] as u64;
    let v = (b0 + b1 * 0x100 + b2 * 0x1_0000 + b3 * 0x100_0000 + b4 * 0x1_0000_0000
        + b5 * 0x100_0000_0000 + b6 * 0x1_0000_0000_0000 + b7 * 0x100_0000_0000_0000) as u64;
    assert(v == le_value(bytes));
    assert(v % 0x100 == b0 && v / 0x100 % 0x100 == b1 && v / 0x1_0000 % 0x100 == b2
        && v / 0x100_0000 % 0x100 == b3 && v / 0x1_0000_0000 % 0x100 == b4
        && v / 0x100_0000_0000 % 0x100 == b5 && v / 0x1_0000_0000_0000 % 0x100 == b6
        && v / 0x100_0000_0000_0000 % 0x100 == b7) by (bit_vector)
        requires
            b0 < 0x100,
            b1 < 0x100,
            b2 < 0x100,
            b3 < 0x100,
            b4 < 0x100,
            b5 < 0x100,
            b6 < 0x100,
            b7 < 0x100,
            v == b0 + b1 * 0x100 + b2 * 0x1_0000 + b3 * 0x100_0000 + b4 * 0x1_0000_0000
                + b5 * 0x100_0000_0000 + b6 * 0x1_0000_0000_0000 + b7 * 0x100_0000_0000_0000,
    ;
    assert(le_bytes(v) =~= bytes);
}

/// Two lengths with the same prefix are the same length.
pub proof fn lemma_bytes_injective(a: u64, b: u64)
    requires
        le_bytes(a) == le_bytes(b),
    ensures
        a == b,
{
    lemma_value_of_bytes(a);
    lemma_value_of_bytes(b);
}

/// Writes `size` as the eight bytes that precede the payload on the wire.
pub fn encode_size(size: u64) -> (bytes: [u8; 8])
    ensures
        bytes@ == le_bytes(size),
{
    let bytes: [u8; 8] = [
        (size % 0x100) as u8,
        (size / 0x100 % 0x100) as u8,
        (size / 0x1_0000 % 0x100) as u8,
        (size / 0x100_0000 % 0x100) as u8,
        (size / 0x1_0000_0000 % 0x100) as u8,
        (size / 0x100_0000_0000 % 0x100) as u8,
        (size / 0x1_0000_0000_0000 % 0x100) as u8,
        (size / 0x100_0000_0000_0000 % 0x100) as u8,
    ];
    assert(bytes@ =~= le_bytes(size));
    bytes
}

/// Reads a size prefix back. Exactly eight bytes decode to the length they
/// denote; any other number of bytes is no prefix.
pub fn decode_size(bytes: &[u8]) -> (size: Option<u64>)
    ensures
        bytes@.len() == PREFIX_LEN <==> size.is_some(),
        size.is_some() ==> size.unwrap() == le_value(bytes@),
        size.is_some() ==> le_bytes(size.unwrap()) == bytes@,
{
    if bytes.len() != PREFIX_LEN {
        return None;
    }
    proof {
        lemma_bytes_of_value(bytes@);
    }
    let value: u64 = bytes[0] as u64
        + bytes[1] as u64 * 0x100
        + bytes[2] as u64 * 0x1_0000
        + bytes[3] as u64 * 0x100_0000
        + bytes[4] as u64 * 0x1_0000_0000
        + bytes[5] as u64 * 0x100_0000_0000
        + bytes[6] as u64 * 0x1_0000_0000_0000
        + bytes[7] as u64 * 0x100_0000_0000_0000;
    Some(value)
}

} // verus!
