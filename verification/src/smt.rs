//! The sparse Merkle tree of domain leaves: leaf hashing and the checked
//! update of one leaf along its authentication path.
use vstd::prelude::*;
use vstd::string::StringSliceAdditionalSpecFns;
use crate::crypto::{sha256, sha256_digest};
use crate::encoding::{le_value, lemma_u64_le_value, push_slice, push_u64_le, u64_le};

verus! {

/// Depth of the tree: one level per bit of the first 16 bytes of the
/// SHA-256 of the domain name.
pub const SMT_DEPTH: usize = 128;

/// Why a Merkle update was refused.
#[derive(Debug, Clone, Copy, PartialEq, Eq, Structural)]
pub enum SmtError {
    /// The proof does not hold exactly `SMT_DEPTH` siblings.
    ProofLength,
    /// The old leaf and the proof do not hash to the current root.
    RootMismatch,
}

/// The preimage of a leaf: domain, owner key, target address, price and
/// nonce, the integers as 8 little-endian bytes each.
pub open spec fn leaf_preimage(domain: Seq<u8>, pubkey: Seq<u8>, target: Seq<u8>, price: u64, nonce: u64) -> Seq<u8> {
    domain + pubkey + target + u64_le(price) + u64_le(nonce)
}

/// The leaf hash of a domain record.
pub open spec fn leaf_hash(domain: Seq<u8>, pubkey: Seq<u8>, target: Seq<u8>, price: u64, nonce: u64) -> Seq<u8> {
    sha256_digest(leaf_preimage(domain, pubkey, target, price, nonce))
}

/// Whether the node at `level` (0 = just above the leaf) is a right child.
/// Levels walk the first 16 bytes of `path` from the last to the first,
/// and each byte from its least significant bit to its most significant.
pub open spec fn path_bit(path: Seq<u8>, level: nat) -> bool {
    (path[15 - (level / 8) as int] >> ((level % 8) as u8)) & 1u8 == 1u8
}

/// The parent of `child` and `sibling`, `child` being a right child when `right`.
pub open spec fn node_hash(right: bool, sibling: Seq<u8>, child: Seq<u8>) -> Seq<u8> {
    if right {
        sha256_digest(sibling + child)
    } else {
        sha256_digest(child + sibling)
    }
}

/// The node reached after hashing `leaf` up through the first `n` levels.
pub open spec fn fold_path(path: Seq<u8>, leaf: Seq<u8>, proof: Seq<Seq<u8>>, n: nat) -> Seq<u8>
    decreases n,
{
    if n == 0 {
        leaf
    } else {
        node_hash(
            path_bit(path, (n - 1) as nat),
            proof[n - 1],
            fold_path(path, leaf, proof, (n - 1) as nat),
        )
    }
}

/// The root that `leaf` at the position of `domain` hashes up to with `proof`.
pub open spec fn smt_root(domain: Seq<u8>, leaf: Seq<u8>, proof: Seq<Seq<u8>>) -> Seq<u8> {
    fold_path(sha256_digest(domain), leaf, proof, SMT_DEPTH as nat)
}

/// The siblings of a proof as byte sequences.
pub open spec fn proof_view(proof: Seq<[u8; 32]>) -> Seq<Seq<u8>> {
    proof.map_values(|a: [u8; 32]| a@)
}

/// The outcome of replacing `old_leaf` by `new_leaf` in the tree of root `root`.
pub open spec fn smt_update(domain: Seq<u8>, old_leaf: Seq<u8>, new_leaf: Seq<u8>, proof: Seq<Seq<u8>>, root: Seq<u8>) -> Result<Seq<u8>, SmtError> {
    if proof.len() != SMT_DEPTH {
        Err(SmtError::ProofLength)
    } else if smt_root(domain, old_leaf, proof) != root {
        Err(SmtError::RootMismatch)
    } else {
        Ok(smt_root(domain, new_leaf, proof))
    }
}

/// A root result as byte sequences.
pub open spec fn root_result<E>(r: Result<[u8; 32], E>) -> Result<Seq<u8>, E> {
    match r {
        Ok(root) => Ok(root@),
        Err(e) => Err(e),
    }
}

/// Whether two 32-byte values are equal.
pub fn bytes32_eq(a: &[u8; 32], b: &[u8; 32]) -> (res: bool)
    ensures
        res == (a@ == b@),
{
    let mut i: usize = 0;
    while i < 32
        invariant
            i <= 32,
            forall|k: int| 0 <= k < i ==> a@[k] == b@[k],
        decreases 32 - i,
    {
        if a[i] != b[i] {
            return false;
        }
        i = i + 1;
    }
    assert(a@ =~= b@);
    true
}

/// The concatenation of two 32-byte values.
fn concat32(a: &[u8; 32], b: &[u8; 32]) -> (res: Vec<u8>)
    ensures
        res@ == a@ + b@,
{
    let mut v: Vec<u8> = Vec::new();
    push_slice(&mut v, a.as_slice());
    push_slice(&mut v, b.as_slice());
    v
}

/// The hash of a domain record leaf.
pub fn hash_leaf(domain: &str, pubkey: &[u8; 32], target_address: &str, price: u64, nonce: u64) -> (res: [u8; 32])
    ensures
        res@ == leaf_hash(domain.spec_bytes(), pubkey@, target_address.spec_bytes(), price, nonce),
{
    let mut pre: Vec<u8> = Vec::new();
    push_slice(&mut pre, domain.as_bytes());
    push_slice(&mut pre, pubkey.as_slice());
    push_slice(&mut pre, target_address.as_bytes());
    push_u64_le(&mut pre, price);
    push_u64_le(&mut pre, nonce);
    sha256(pre.as_slice())
}

proof fn lemma_level_split(i: nat, k: nat, j: nat)
    requires
        i == 8 * k + j,
        j < 8,
    ensures
        i / 8 == k,
        i % 8 == j,
{
    assert(i / 8 == k && i % 8 == j) by (nonlinear_arith)
        requires
            i == 8 * k + j,
            j < 8,
    ;
}

/// Checks that `old_leaf` with `proof` hashes up to `current_root` at the
/// position of `domain`, and returns the root with `new_leaf` in its place.
pub fn verify_and_update_smt(
    domain: &str,
    old_leaf: [u8; 32],
    new_leaf: [u8; 32],
    proof: &[[u8; 32]],
    current_root: [u8; 32],
) -> (res: Result<[u8; 32], SmtError>)
    ensures
        root_result(res) == smt_update(domain.spec_bytes(), old_leaf@, new_leaf@, proof_view(proof@), current_root@),
{
    if proof.len() != SMT_DEPTH {
        return Err(SmtError::ProofLength);
    }
    let ghost p = proof_view(proof@);
    let path_hash = sha256(domain.as_bytes());
    let ghost path = path_hash@;
    let mut calc_root = old_leaf;
    let mut new_calc_root = new_leaf;
    let mut i: usize = 0;
    let mut k: usize = 0;
    while k < 16
        invariant
            proof@.len() == SMT_DEPTH,
            p == proof_view(proof@),
            path == path_hash@,
            path.len() == 32,
            k <= 16,
            i == 8 * k,
            calc_root@ == fold_path(path, old_leaf@, p, i as nat),
            new_calc_root@ == fold_path(path, new_leaf@, p, i as nat),
        decreases 16 - k,
    {
        let byte_val = path_hash[15 - k];
        let mut temp_byte = byte_val;
        let mut j: u8 = 0;
        assert(byte_val >> 0u8 == byte_val) by (bit_vector);
        while j < 8
            invariant
                proof@.len() == SMT_DEPTH,
                p == proof_view(proof@),
                path == path_hash@,
                path.len() == 32,
                k < 16,
                j <= 8,
                i == 8 * k + j,
                byte_val == path[15 - k as int],
                temp_byte == byte_val >> j,
                calc_root@ == fold_path(path, old_leaf@, p, i as nat),
                new_calc_root@ == fold_path(path, new_leaf@, p, i as nat),
            decreases 8 - j,
        {
            let is_right_node = (temp_byte & 1) == 1;
            proof {
                lemma_level_split(i as nat, k as nat, j as nat);
                assert(((j as nat) as u8) == j);
                assert(is_right_node == path_bit(path, i as nat));
                assert(temp_byte >> 1u8 == byte_val >> ((j + 1) as u8)) by (bit_vector)
                    requires
                        temp_byte == byte_val >> j,
                        j < 8,
                ;
            }
            temp_byte = temp_byte >> 1;
            let sibling = &proof[i];
            assert(p[i as int] == sibling@);
            let (old_pre, new_pre) = if is_right_node {
                (concat32(sibling, &calc_root), concat32(sibling, &new_calc_root))
            } else {
                (concat32(&calc_root, sibling), concat32(&new_calc_root, sibling))
            };
            calc_root = sha256(old_pre.as_slice());
            new_calc_root = sha256(new_pre.as_slice());
            i = i + 1;
            j = j + 1;
        }
        k = k + 1;
    }
    if bytes32_eq(&calc_root, &current_root) {
        Ok(new_calc_root)
    } else {
        Err(SmtError::RootMismatch)
    }
}


/// Replacing a leaf by itself leaves the root unchanged: where the old leaf
/// and the proof hash to `root`, the update returns `root`.
pub proof fn lemma_update_identity(domain: Seq<u8>, leaf: Seq<u8>, proof: Seq<Seq<u8>>, root: Seq<u8>)
    requires
        smt_update(domain, leaf, leaf, proof, root) is Ok,
    ensures
        smt_update(domain, leaf, leaf, proof, root) == Ok::<Seq<u8>, SmtError>(root),
{
}

/// Two successive updates of the same position with the same siblings
/// compose: after `l0 -> l1` is accepted, the proof is valid for the new
/// root, and `l1 -> l2` from there ends where `l0 -> l2` from the start does.
pub proof fn lemma_update_compose(
    domain: Seq<u8>,
    l0: Seq<u8>,
    l1: Seq<u8>,
    l2: Seq<u8>,
    proof: Seq<Seq<u8>>,
    root: Seq<u8>,
)
    requires
        smt_update(domain, l0, l1, proof, root) is Ok,
    ensures
        smt_update(domain, l1, l2, proof, smt_update(domain, l0, l1, proof, root)->Ok_0)
            == smt_update(domain, l0, l2, proof, root),
        smt_update(domain, l1, l2, proof, smt_update(domain, l0, l1, proof, root)->Ok_0) is Ok,
{
}


/// `2^k` for a bit position of a byte.
pub open spec fn bit_weight(k: nat) -> nat
    decreases k,
{
    if k == 0 { 1 } else { 2 * bit_weight((k - 1) as nat) }
}

proof fn lemma_shift_bit(b: u8, k: u8)
    requires
        k < 8,
    ensures
        (((b >> k) & 1u8) == 1u8) == ((b as nat / bit_weight(k as nat)) % 2 == 1),
{
    reveal_with_fuel(bit_weight, 8);
    if k == 0 {
        assert((((b >> 0u8) & 1u8) == 1u8) == ((b / 1u8) % 2u8 == 1u8)) by (bit_vector);
    } else if k == 1 {
        assert((((b >> 1u8) & 1u8) == 1u8) == ((b / 2u8) % 2u8 == 1u8)) by (bit_vector);
    } else if k == 2 {
        assert((((b >> 2u8) & 1u8) == 1u8) == ((b / 4u8) % 2u8 == 1u8)) by (bit_vector);
    } else if k == 3 {
        assert((((b >> 3u8) & 1u8) == 1u8) == ((b / 8u8) % 2u8 == 1u8)) by (bit_vector);
    } else if k == 4 {
        assert((((b >> 4u8) & 1u8) == 1u8) == ((b / 16u8) % 2u8 == 1u8)) by (bit_vector);
    } else if k == 5 {
        assert((((b >> 5u8) & 1u8) == 1u8) == ((b / 32u8) % 2u8 == 1u8)) by (bit_vector);
    } else if k == 6 {
        assert((((b >> 6u8) & 1u8) == 1u8) == ((b / 64u8) % 2u8 == 1u8)) by (bit_vector);
    } else {
        assert((((b >> 7u8) & 1u8) == 1u8) == ((b / 128u8) % 2u8 == 1u8)) by (bit_vector);
    }
}

/// The path of a domain: level `8 j + k` (0 just above the leaf) turns
/// right exactly when bit `k` (0 the least significant) of byte `15 - j` of
/// the path is set. So the 128 levels read bytes 15 down to 0, each from
/// its low bit up.
pub proof fn lemma_path_bits(path: Seq<u8>, j: nat, k: nat)
    requires
        j < 16,
        k < 8,
    ensures
        path_bit(path, 8 * j + k) == ((path[15 - j] as nat / bit_weight(k)) % 2 == 1),
{
    let level = 8 * j + k;
    assert(level / 8 == j && level % 8 == k) by (nonlinear_arith)
        requires
            level == 8 * j + k,
            k < 8,
    ;
    lemma_shift_bit(path[15 - j], k as u8);
}

/// Each level hashes the node below with that level's sibling, the sibling
/// first when the path turns right there and last otherwise; the root is
/// the node above the leaf after 128 levels, on the path given by the
/// SHA-256 of the domain.
pub proof fn lemma_root_structure(domain: Seq<u8>, leaf: Seq<u8>, proof: Seq<Seq<u8>>, path: Seq<u8>, n: nat)
    ensures
        fold_path(path, leaf, proof, 0) == leaf,
        fold_path(path, leaf, proof, n + 1) == if path_bit(path, n) {
            sha256_digest(proof[n as int] + fold_path(path, leaf, proof, n))
        } else {
            sha256_digest(fold_path(path, leaf, proof, n) + proof[n as int])
        },
        smt_root(domain, leaf, proof) == fold_path(sha256_digest(domain), leaf, proof, 128),
{
}

/// An update is accepted exactly when the proof has 128 siblings and the
/// old leaf hashes up to the current root; the new root is then the new
/// leaf hashed up the same path with the same siblings.
pub proof fn lemma_update_acceptance(domain: Seq<u8>, old_leaf: Seq<u8>, new_leaf: Seq<u8>, proof: Seq<Seq<u8>>, root: Seq<u8>)
    ensures
        (smt_update(domain, old_leaf, new_leaf, proof, root) is Ok) <==> (proof.len() == 128 && smt_root(
            domain,
            old_leaf,
            proof,
        ) == root),
        proof.len() != 128 ==> smt_update(domain, old_leaf, new_leaf, proof, root) == Err::<Seq<u8>, SmtError>(
            SmtError::ProofLength,
        ),
        proof.len() == 128 && smt_root(domain, old_leaf, proof) != root ==> smt_update(
            domain,
            old_leaf,
            new_leaf,
            proof,
            root,
        ) == Err::<Seq<u8>, SmtError>(SmtError::RootMismatch),
        smt_update(domain, old_leaf, new_leaf, proof, root) is Ok ==> smt_update(
            domain,
            old_leaf,
            new_leaf,
            proof,
            root,
        )->Ok_0 == smt_root(domain, new_leaf, proof),
{
}


/// A leaf's preimage lays its fields end to end: the domain, the key, the
/// target, then the price and the nonce as eight little-endian bytes each,
/// which read back as the price and the nonce.
pub proof fn lemma_leaf_preimage_layout(domain: Seq<u8>, pubkey: Seq<u8>, target: Seq<u8>, price: u64, nonce: u64)
    ensures
        ({
            let pre = leaf_preimage(domain, pubkey, target, price, nonce);
            let a = domain.len() as int;
            let b = a + pubkey.len();
            let c = b + target.len();
            &&& pre.len() == c + 16
            &&& pre.subrange(0, a) == domain
            &&& pre.subrange(a, b) == pubkey
            &&& pre.subrange(b, c) == target
            &&& le_value(pre.subrange(c, c + 8)) == price
            &&& le_value(pre.subrange(c + 8, c + 16)) == nonce
        }),
{
    let pre = leaf_preimage(domain, pubkey, target, price, nonce);
    let a = domain.len() as int;
    let b = a + pubkey.len();
    let c = b + target.len();
    lemma_u64_le_value(price);
    lemma_u64_le_value(nonce);
    assert(pre.subrange(0, a) =~= domain);
    assert(pre.subrange(a, b) =~= pubkey);
    assert(pre.subrange(b, c) =~= target);
    assert(pre.subrange(c, c + 8) =~= u64_le(price));
    assert(pre.subrange(c + 8, c + 16) =~= u64_le(nonce));
}

} // verus!
