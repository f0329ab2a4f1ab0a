//! What a proved batch publishes: the ABI encoding of its public values,
//! which the guest commits, and the summary the prover hands to the
//! sequencer, with both roots as `0x`-prefixed lower-case hexadecimal.
use vstd::prelude::*;
use vstd::string::StringExecFns;
use alloy_sol_types::SolValue;
use crate::encoding::{hex_encode, le_bytes, le_value, lemma_le_bytes_len};
use crate::transaction::BatchResult;

verus! {

/// The characters of the lower-case hexadecimal of `bytes`.
pub open spec fn hex_chars(bytes: Seq<u8>) -> Seq<char> {
    hex_encode(bytes).map_values(|c: u8| c as char)
}

/// `0x` followed by the lower-case hexadecimal of `bytes`.
pub open spec fn prefixed_hex(bytes: Seq<u8>) -> Seq<char> {
    seq!['0', 'x'] + hex_chars(bytes)
}

/// Calls `hex::encode` on `bytes`. Trusted: as the crate documents and its
/// source does, the string holds two lower-case hexadecimal digits per
/// byte, the high nibble first.
#[verifier::external_body]
fn hex_string(bytes: &[u8]) -> (res: String)
    ensures
        res@ == hex_chars(bytes@),
{
    hex::encode(bytes)
}

/// The ABI encoding of `(bytes32, bytes32, uint32)`: three 32-byte words,
/// the two byte strings as they are, the integer big-endian and
/// left-padded with zeros.
pub open spec fn abi_public_values(old_root: Seq<u8>, new_root: Seq<u8>, end_block_height: u32) -> Seq<u8> {
    old_root + new_root + Seq::new(28, |i: int| 0u8) + le_bytes(end_block_height as nat, 4).reverse()
}

/// Calls `SolValue::abi_encode` of alloy-sol-types on the tuple
/// `(old_root, new_root, end_block_height)`, whose Solidity type is
/// `(bytes32, bytes32, uint32)`. Trusted: the bytes are the standard ABI
/// encoding of that static tuple, as `abi_public_values` writes it out.
#[verifier::external_body]
fn abi_encode_public_values(old_root: &[u8; 32], new_root: &[u8; 32], end_block_height: u32) -> (res: Vec<u8>)
    ensures
        res@ == abi_public_values(old_root@, new_root@, end_block_height),
{
    (*old_root, *new_root, end_block_height).abi_encode()
}

impl BatchResult {
    /// The public values the guest commits for this batch.
    pub fn abi_encode(&self) -> (res: Vec<u8>)
        ensures
            res@ == abi_public_values(self.old_root@, self.new_root@, self.end_block_height),
    {
        abi_encode_public_values(&self.old_root, &self.new_root, self.end_block_height)
    }
}

/// The result record of a proved batch.
pub struct FinalResultJson {
    pub old_root: String,
    pub new_root: String,
    pub end_block_height: u32,
}

impl FinalResultJson {
    /// The record of a batch that moved the tree from `old_root` to `new_root`.
    pub fn new(old_root: &[u8; 32], new_root: &[u8; 32], end_block_height: u32) -> (res: FinalResultJson)
        ensures
            res.old_root@ == prefixed_hex(old_root@),
            res.new_root@ == prefixed_hex(new_root@),
            res.end_block_height == end_block_height,
    {
        FinalResultJson {
            old_root: prefixed(old_root),
            new_root: prefixed(new_root),
            end_block_height,
        }
    }
}

/// `0x` followed by the hexadecimal of a 32-byte value.
fn prefixed(bytes: &[u8; 32]) -> (res: String)
    ensures
        res@ == prefixed_hex(bytes@),
{
    let mut s = String::from_str("0x");
    proof {
        reveal_strlit("0x");
    }
    let h = hex_string(bytes.as_slice());
    s.append(h.as_str());
    assert(s@ =~= prefixed_hex(bytes@));
    s
}


/// The public values are three 32-byte words: the old root, the new root,
/// and the height as a big-endian integer padded on the left with zeros.
pub proof fn lemma_public_values_layout(old_root: [u8; 32], new_root: [u8; 32], end_block_height: u32)
    ensures
        ({
            let v = abi_public_values(old_root@, new_root@, end_block_height);
            &&& v.len() == 96
            &&& v.subrange(0, 32) == old_root@
            &&& v.subrange(32, 64) == new_root@
            &&& forall|i: int| 64 <= i < 92 ==> v[i] == 0
            &&& le_value(v.subrange(92, 96).reverse()) == end_block_height
        }),
{
    let v = abi_public_values(old_root@, new_root@, end_block_height);
    let h = le_bytes(end_block_height as nat, 4);
    lemma_le_bytes_len(end_block_height as nat, 4);
    assert(v.subrange(0, 32) =~= old_root@);
    assert(v.subrange(32, 64) =~= new_root@);
    assert(v.subrange(92, 96).reverse() =~= h);
    assert(le_value(h) == end_block_height) by {
        reveal_with_fuel(le_bytes, 5);
        reveal_with_fuel(le_value, 5);
        let x = end_block_height as nat;
        assert(h =~= seq![(x % 256) as u8, (x / 256 % 256) as u8, (x / 256 / 256 % 256) as u8, (x / 256 / 256 / 256 % 256) as u8]);
        assert(h.drop_first() =~= seq![(x / 256 % 256) as u8, (x / 256 / 256 % 256) as u8, (x / 256 / 256 / 256 % 256) as u8]);
        assert(h.drop_first().drop_first() =~= seq![(x / 256 / 256 % 256) as u8, (x / 256 / 256 / 256 % 256) as u8]);
        assert(h.drop_first().drop_first().drop_first() =~= seq![(x / 256 / 256 / 256 % 256) as u8]);
        assert(h.drop_first().drop_first().drop_first().drop_first() =~= Seq::<u8>::empty());
        assert(x < 4294967296);
    }
}


/// A root in the result record is `0x` and then two lower-case
/// hexadecimal characters per byte.
pub proof fn lemma_prefixed_hex_form(bytes: Seq<u8>)
    ensures
        prefixed_hex(bytes).len() == 2 + 2 * bytes.len(),
        prefixed_hex(bytes)[0] == '0',
        prefixed_hex(bytes)[1] == 'x',
        forall|i: int| 0 <= i < 2 * bytes.len() ==> #[trigger] prefixed_hex(bytes)[i + 2] == hex_encode(bytes)[i] as char,
{
}

} // verus!
