use pins_prover::smt::{hash_leaf, verify_and_update_smt, SmtError, SMT_DEPTH};
use sha2::{Digest, Sha256};

fn sha(data: &[u8]) -> [u8; 32] {
    Sha256::digest(data).into()
}

fn reference_root(domain: &str, leaf: [u8; 32], proof: &[[u8; 32]]) -> [u8; 32] {
    let path = sha(domain.as_bytes());
    let mut cur = leaf;
    let mut level = 0;
    for k in (0..16).rev() {
        let mut b = path[k];
        for _ in 0..8 {
            let mut h = Sha256::new();
            if b & 1 == 1 {
                h.update(proof[level]);
                h.update(cur);
            } else {
                h.update(cur);
                h.update(proof[level]);
            }
            cur = h.finalize().into();
            b >>= 1;
            level += 1;
        }
    }
    cur
}

fn siblings() -> Vec<[u8; 32]> {
    (0..SMT_DEPTH).map(|i| [i as u8; 32]).collect()
}

#[test]
fn hash_leaf_hashes_the_record() {
    let pk = [3u8; 32];
    let got = hash_leaf("alice.pivx", &pk, "ps1xyz", 500, 7);
    let mut pre = Vec::new();
    pre.extend_from_slice(b"alice.pivx");
    pre.extend_from_slice(&pk);
    pre.extend_from_slice(b"ps1xyz");
    pre.extend_from_slice(&500u64.to_le_bytes());
    pre.extend_from_slice(&7u64.to_le_bytes());
    assert_eq!(got, sha(&pre));
}

#[test]
fn hash_leaf_known_digest() {
    let got = hash_leaf("", &[0u8; 32], "", 0, 0);
    assert_eq!(got, sha(&[0u8; 48]));
    assert_ne!(got, [0u8; 32]);
}

#[test]
fn update_returns_new_root() {
    let proof = siblings();
    let old_leaf = [1u8; 32];
    let new_leaf = [2u8; 32];
    let root = reference_root("alice.pivx", old_leaf, &proof);
    let got = verify_and_update_smt("alice.pivx", old_leaf, new_leaf, &proof, root);
    assert_eq!(got, Ok(reference_root("alice.pivx", new_leaf, &proof)));
    assert_ne!(got, Ok(root));
}

#[test]
fn update_rejects_wrong_proof_length() {
    let mut proof = siblings();
    proof.pop();
    assert_eq!(
        verify_and_update_smt("alice.pivx", [0u8; 32], [1u8; 32], &proof, [0u8; 32]),
        Err(SmtError::ProofLength)
    );
    let mut longer = siblings();
    longer.push([0u8; 32]);
    assert_eq!(
        verify_and_update_smt("alice.pivx", [0u8; 32], [1u8; 32], &longer, [0u8; 32]),
        Err(SmtError::ProofLength)
    );
}

#[test]
fn update_rejects_wrong_root() {
    let proof = siblings();
    let root = reference_root("alice.pivx", [1u8; 32], &proof);
    assert_eq!(
        verify_and_update_smt("alice.pivx", [9u8; 32], [2u8; 32], &proof, root),
        Err(SmtError::RootMismatch)
    );
    assert_eq!(
        verify_and_update_smt("bob.pivx", [1u8; 32], [2u8; 32], &proof, root),
        Err(SmtError::RootMismatch)
    );
}

#[test]
fn update_to_same_leaf_keeps_root() {
    let proof = siblings();
    let leaf = [5u8; 32];
    let root = reference_root("carol.safe", leaf, &proof);
    assert_eq!(verify_and_update_smt("carol.safe", leaf, leaf, &proof, root), Ok(root));
}

#[test]
fn successive_updates_compose() {
    let proof = siblings();
    let (l0, l1, l2) = ([0u8; 32], [1u8; 32], [2u8; 32]);
    let root = reference_root("dave.secure", l0, &proof);
    let r1 = verify_and_update_smt("dave.secure", l0, l1, &proof, root).unwrap();
    let r2 = verify_and_update_smt("dave.secure", l1, l2, &proof, r1).unwrap();
    assert_eq!(verify_and_update_smt("dave.secure", l0, l2, &proof, root), Ok(r2));
}
