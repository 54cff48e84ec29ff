//! Accounts derived from a four-byte kind tag and a numeric index, the way
//! a `TypeId` wrapper turns an identifier into an account: the SCALE
//! encoding of `(tag, index)`, read back as an account id, padded with
//! zeros and cut to the account's width.
use parity_scale_codec::{Decode, Encode};
use vstd::prelude::*;

verus! {

broadcast use vstd::array::group_array_axioms;

/// The eight little-endian bytes of `v`.
pub open spec fn le_bytes_u64(v: u64) -> Seq<u8> {
    seq![
        (v % 0x100) as u8,
        ((v / 0x100) % 0x100) as u8,
        ((v / 0x1_0000) % 0x100) as u8,
        ((v / 0x100_0000) % 0x100) as u8,
        ((v / 0x1_0000_0000) % 0x100) as u8,
        ((v / 0x100_0000_0000) % 0x100) as u8,
        ((v / 0x1_0000_0000_0000) % 0x100) as u8,
        ((v / 0x100_0000_0000_0000) % 0x100) as u8,
    ]
}

/// The number whose little-endian bytes are the first eight of `b`.
pub open spec fn le_value(b: Seq<u8>) -> int {
    b[0] + b[1] * 0x100 + b[2] * 0x1_0000 + b[3] * 0x100_0000 + b[4] * 0x1_0000_0000 + b[5]
        * 0x100_0000_0000 + b[6] * 0x1_0000_0000_0000 + b[7] * 0x100_0000_0000_0000
}

/// The account that the kind tag `type_id` and the index `index` stand for.
pub open spec fn derived_account(type_id: [u8; 4], index: u64) -> u64 {
    le_value(type_id@ + le_bytes_u64(index)) as u64
}

/// Calls `Encode::encode` of `parity-scale-codec` on the pair `(type_id, index)`.
/// Claimed: a byte array is written as its bytes, with no length, a `u64`
/// as its eight little-endian bytes, and a pair as its two parts in order.
#[verifier::external_body]
fn scale_encode_tagged_index(type_id: [u8; 4], index: u64) -> (bytes: Vec<u8>)
    ensures
        bytes@ == type_id@ + le_bytes_u64(index),
{
    (type_id, index).encode()
}

/// Calls `Decode::decode` of `parity-scale-codec` for a `u64` on `bytes`.
/// Claimed: it reads the first eight bytes as a little-endian number, and
/// fails when fewer than eight bytes are there.
#[verifier::external_body]
fn scale_decode_u64(bytes: &[u8]) -> (r: Option<u64>)
    ensures
        bytes@.len() >= 8 ==> r == Some(le_value(bytes@) as u64),
        bytes@.len() < 8 ==> r is None,
{
    let mut input: &[u8] = bytes;
    u64::decode(&mut input).ok()
}

/// The account of kind `type_id` and index `index`: the encoding of the
/// pair, read as an account id.
pub fn into_account_truncating(type_id: [u8; 4], index: u64) -> (account: u64)
    ensures
        account == derived_account(type_id, index),
{
    let bytes = scale_encode_tagged_index(type_id, index);
    assert(bytes@.len() == 12);
    match scale_decode_u64(bytes.as_slice()) {
        Some(account) => account,
        None => {
            assert(false);
            0
        },
    }
}


/// The account of kind `type_id` and index `index` holds the tag in its low
/// four bytes and the low four bytes of the index above them.
pub proof fn derived_account_layout(type_id: [u8; 4], index: u64)
    ensures
        derived_account(type_id, index) == type_id@[0] + type_id@[1] * 0x100 + type_id@[2] * 0x1_0000 + type_id@[3]
            * 0x100_0000 + (index % 0x1_0000_0000) * 0x1_0000_0000,
{
    let b = type_id@ + le_bytes_u64(index);
    assert(b[4] == (index % 0x100) as u8);
    assert(b[5] == ((index / 0x100) % 0x100) as u8);
    assert(b[6] == ((index / 0x1_0000) % 0x100) as u8);
    assert(b[7] == ((index / 0x100_0000) % 0x100) as u8);
    assert((index % 0x100) + ((index / 0x100) % 0x100) * 0x100 + ((index / 0x1_0000) % 0x100) * 0x1_0000 + ((index
        / 0x100_0000) % 0x100) * 0x100_0000 == index % 0x1_0000_0000) by (bit_vector);
    assert(le_value(b) == type_id@[0] + type_id@[1] * 0x100 + type_id@[2] * 0x1_0000 + type_id@[3] * 0x100_0000
        + (index % 0x1_0000_0000) * 0x1_0000_0000) by (nonlinear_arith)
        requires
            le_value(b) == b[0] + b[1] * 0x100 + b[2] * 0x1_0000 + b[3] * 0x100_0000 + b[4] * 0x1_0000_0000 + b[5]
                * 0x100_0000_0000 + b[6] * 0x1_0000_0000_0000 + b[7] * 0x100_0000_0000_0000,
            b[0] == type_id@[0],
            b[1] == type_id@[1],
            b[2] == type_id@[2],
            b[3] == type_id@[3],
            b[4] == index % 0x100,
            b[5] == (index / 0x100) % 0x100,
            b[6] == (index / 0x1_0000) % 0x100,
            b[7] == (index / 0x100_0000) % 0x100,
            (index % 0x100) + ((index / 0x100) % 0x100) * 0x100 + ((index / 0x1_0000) % 0x100) * 0x1_0000 + ((index
                / 0x100_0000) % 0x100) * 0x100_0000 == index % 0x1_0000_0000,
    ;
}

/// Indices below 2^32 of one kind have accounts of their own.
pub proof fn derived_accounts_distinct(type_id: [u8; 4], i: u64, j: u64)
    requires
        i < 0x1_0000_0000,
        j < 0x1_0000_0000,
        i != j,
    ensures
        derived_account(type_id, i) != derived_account(type_id, j),
{
    derived_account_layout(type_id, i);
    derived_account_layout(type_id, j);
    assert(i % 0x1_0000_0000 == i) by (bit_vector)
        requires
            i < 0x1_0000_0000,
    ;
    assert(j % 0x1_0000_0000 == j) by (bit_vector)
        requires
            j < 0x1_0000_0000,
    ;
}

} // verus!
