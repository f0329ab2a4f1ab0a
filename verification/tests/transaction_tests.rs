use bech32::{ToBase32, Variant};
use ed25519_dalek::{Signer, SigningKey, VerifyingKey};
use pins_prover::transaction::{
    check_rules, is_signature_valid, parse_op, process_batch, process_transaction, signing_request,
    BatchError, BatchPayload, EitherKey, Op, RuleViolation, Transaction, TxError,
};
use pins_prover::smt::SmtError;
use sha2::{Digest, Sha256};

const DOMAIN: &str = "alice.pivx";

fn sha(data: &[u8]) -> [u8; 32] {
    Sha256::digest(data).into()
}

fn reference_root(domain: &str, leaf: [u8; 32], proof: &[[u8; 32]]) -> [u8; 32] {
    let path = sha(domain.as_bytes());
    let mut cur = leaf;
    let mut level = 0;
    for k in (0..16).rev() {
        let mut b = path[k];
        for _ in 0..8 {
            let mut h = Sha256::new();
            if b & 1 == 1 {
                h.update(proof[level]);
                h.update(cur);
            } else {
                h.update(cur);
                h.update(proof[level]);
            }
            cur = h.finalize().into();
            b >>= 1;
            level += 1;
        }
    }
    cur
}

fn leaf(domain: &str, pk: &[u8; 32], target: &str, price: u64, nonce: u64) -> [u8; 32] {
    let mut pre = Vec::new();
    pre.extend_from_slice(domain.as_bytes());
    pre.extend_from_slice(pk);
    pre.extend_from_slice(target.as_bytes());
    pre.extend_from_slice(&price.to_le_bytes());
    pre.extend_from_slice(&nonce.to_le_bytes());
    sha(&pre)
}

fn siblings() -> Vec<[u8; 32]> {
    (0..128).map(|i| [(i * 7) as u8; 32]).collect()
}

fn signer(seed: u8) -> SigningKey {
    SigningKey::from_bytes(&[seed; 32])
}

fn pk(seed: u8) -> [u8; 32] {
    signer(seed).verifying_key().to_bytes()
}

fn address(tag: u8) -> String {
    bech32::encode("ps", vec![tag, 0x14, 0x75, 0x1e].to_base32(), Variant::Bech32).unwrap()
}

fn bad_point() -> [u8; 32] {
    (0u8..=255)
        .map(|k| {
            let mut b = [k; 32];
            b[0] = 0x5a;
            b
        })
        .find(|b| VerifyingKey::from_bytes(b).is_err())
        .expect("some bytes are not a curve point")
}

#[allow(clippy::too_many_arguments)]
fn tx(
    op: &str,
    old_target: &str,
    target: &str,
    old_pubkey: [u8; 32],
    pubkey: [u8; 32],
    price: u64,
    old_price: u64,
    nonce: u64,
    old_nonce: u64,
) -> Transaction {
    Transaction {
        tx_id: format!("tx-{}", nonce),
        op: op.to_string(),
        domain_name: DOMAIN.to_string(),
        old_target_address: old_target.to_string(),
        target_address: target.to_string(),
        old_pubkey,
        pubkey,
        price,
        old_price,
        nonce,
        old_nonce,
        signature: Vec::new(),
        merkle_proof: siblings(),
    }
}

fn signed(mut t: Transaction, key: &SigningKey, msg: &str) -> Transaction {
    t.signature = key.sign(msg.as_bytes()).to_bytes().to_vec();
    t
}

fn reg() -> Transaction {
    let a = pk(1);
    let msg = format!("PiNS:1:REG:{}:{}:{}:1", DOMAIN, address(1), hex::encode(a));
    signed(tx("REG", "", &address(1), [0u8; 32], a, 0, 0, 1, 0), &signer(1), &msg)
}

fn empty_root() -> [u8; 32] {
    reference_root(DOMAIN, [0u8; 32], &siblings())
}

/// The full life of a domain: registration, update, listing, purchase,
/// ownership change, listing and unlisting.
fn lifecycle() -> (Vec<Transaction>, Vec<[u8; 32]>) {
    let (a, b, c) = (pk(1), pk(2), pk(3));
    let (t1, t2, t3) = (address(1), address(2), address(3));
    let p = siblings();
    let upd = signed(
        tx("UPD", &t1, &t2, a, a, 0, 0, 2, 1),
        &signer(1),
        &format!("PiNS:1:UPD:{}:{}:{}:2", DOMAIN, t2, hex::encode(a)),
    );
    let lst = signed(
        tx("LST", &t2, &t2, a, a, 500, 0, 3, 2),
        &signer(1),
        &format!("PiNS:1:LST:{}:{}:500:3", DOMAIN, hex::encode(a)),
    );
    let buy = signed(
        tx("BUY", &t2, &t3, a, b, 500, 500, 4, 3),
        &signer(2),
        &format!("PiNS:1:BUY:{}:{}:{}:4", DOMAIN, t3, hex::encode(b)),
    );
    let chg = signed(
        tx("CHG", &t3, &t3, b, c, 0, 0, 5, 4),
        &signer(2),
        &format!("PiNS:1:CHG:{}:{}:5", DOMAIN, hex::encode(c)),
    );
    let lst2 = signed(
        tx("LST", &t3, &t3, c, c, 700, 0, 6, 5),
        &signer(3),
        &format!("PiNS:1:LST:{}:{}:700:6", DOMAIN, hex::encode(c)),
    );
    let ult = signed(
        tx("ULT", &t3, &t3, c, c, 0, 700, 7, 6),
        &signer(3),
        &format!("PiNS:1:ULT:{}:{}:7", DOMAIN, hex::encode(c)),
    );
    let leaves = vec![
        leaf(DOMAIN, &a, &t1, 0, 1),
        leaf(DOMAIN, &a, &t2, 0, 2),
        leaf(DOMAIN, &a, &t2, 500, 3),
        leaf(DOMAIN, &b, &t3, 0, 4),
        leaf(DOMAIN, &c, &t3, 0, 5),
        leaf(DOMAIN, &c, &t3, 700, 6),
        leaf(DOMAIN, &c, &t3, 0, 7),
    ];
    let roots = leaves.iter().map(|l| reference_root(DOMAIN, *l, &p)).collect();
    (vec![reg(), upd, lst, buy, chg, lst2, ult], roots)
}

#[test]
fn registration_is_accepted() {
    let got = process_transaction(&reg(), empty_root());
    let expected = reference_root(DOMAIN, leaf(DOMAIN, &pk(1), &address(1), 0, 1), &siblings());
    assert_eq!(got, Ok(expected));
}

#[test]
fn each_operation_of_the_lifecycle_is_accepted() {
    let (txs, roots) = lifecycle();
    let mut root = empty_root();
    for (t, expected) in txs.iter().zip(roots.iter()) {
        let got = process_transaction(t, root);
        assert_eq!(got, Ok(*expected), "{}", t.op);
        root = *expected;
    }
}

#[test]
fn batch_folds_the_lifecycle() {
    let (txs, roots) = lifecycle();
    let payload = BatchPayload { old_root: empty_root(), end_block_height: 99, transactions: txs };
    let r = process_batch(&payload).unwrap();
    assert_eq!(r.old_root, empty_root());
    assert_eq!(r.new_root, *roots.last().unwrap());
    assert_eq!(r.end_block_height, 99);
}

#[test]
fn empty_batch_keeps_root() {
    let payload = BatchPayload { old_root: [4u8; 32], end_block_height: 1, transactions: Vec::new() };
    let r = process_batch(&payload).unwrap();
    assert_eq!(r.new_root, [4u8; 32]);
    assert_eq!(r.old_root, [4u8; 32]);
}

#[test]
fn batch_reports_first_refused_transaction() {
    let (mut txs, _) = lifecycle();
    txs[2].nonce = 1;
    txs.truncate(4);
    let payload = BatchPayload { old_root: empty_root(), end_block_height: 5, transactions: txs };
    let err = process_batch(&payload).unwrap_err();
    assert_eq!(err, BatchError { tx_index: 2, error: TxError::ReplayAttack });
}

#[test]
fn replayed_batch_is_refused() {
    let (txs, roots) = lifecycle();
    let payload = BatchPayload { old_root: *roots.last().unwrap(), end_block_height: 5, transactions: txs };
    let err = process_batch(&payload).unwrap_err();
    assert_eq!(err.tx_index, 0);
    assert_eq!(err.error, TxError::Merkle(SmtError::RootMismatch));
}

#[test]
fn invalid_new_pubkey() {
    let mut t = reg();
    t.pubkey = bad_point();
    assert_eq!(process_transaction(&t, empty_root()), Err(TxError::InvalidPubkey));
}

#[test]
fn replay_attack() {
    let mut t = reg();
    t.nonce = 0;
    assert_eq!(process_transaction(&t, empty_root()), Err(TxError::ReplayAttack));
    t.nonce = 5;
    t.old_nonce = 5;
    assert_eq!(process_transaction(&t, empty_root()), Err(TxError::ReplayAttack));
}

#[test]
fn invalid_domain() {
    let mut t = reg();
    t.domain_name = "Alice.pivx".to_string();
    assert_eq!(process_transaction(&t, empty_root()), Err(TxError::InvalidDomain));
}

#[test]
fn invalid_address() {
    let mut t = reg();
    t.target_address = "ps1notanaddress".to_string();
    assert_eq!(process_transaction(&t, empty_root()), Err(TxError::InvalidAddress));
}

#[test]
fn unknown_operation() {
    let mut t = reg();
    t.op = "DEL".to_string();
    assert_eq!(process_transaction(&t, empty_root()), Err(TxError::UnknownOperation));
    t.op = "reg".to_string();
    assert_eq!(process_transaction(&t, empty_root()), Err(TxError::UnknownOperation));
}

#[test]
fn registration_rules() {
    let mut t = reg();
    t.old_pubkey = pk(2);
    assert_eq!(process_transaction(&t, empty_root()), Err(TxError::Rule(RuleViolation::OldPubkeyNotEmpty)));
    let mut t = reg();
    t.old_price = 1;
    assert_eq!(process_transaction(&t, empty_root()), Err(TxError::Rule(RuleViolation::OldPriceNotZero)));
    let mut t = reg();
    t.price = 1;
    assert_eq!(process_transaction(&t, empty_root()), Err(TxError::Rule(RuleViolation::PriceNotZero)));
    let t = tx("REG", "", &address(1), [0u8; 32], [0u8; 32], 0, 0, 1, 0);
    assert_eq!(check_rules(Op::Reg, &t), Some(RuleViolation::PubkeyEmpty));
}

#[test]
fn update_rules() {
    let (a, b) = (pk(1), pk(2));
    let t = tx("UPD", &address(1), &address(2), b, a, 0, 0, 2, 1);
    assert_eq!(process_transaction(&t, [0u8; 32]), Err(TxError::Rule(RuleViolation::PubkeysDiffer)));
    let t = tx("UPD", &address(1), &address(1), a, a, 0, 0, 2, 1);
    assert_eq!(process_transaction(&t, [0u8; 32]), Err(TxError::Rule(RuleViolation::TargetUnchanged)));
    let t = tx("UPD", &address(1), &address(2), a, a, 3, 0, 2, 1);
    assert_eq!(process_transaction(&t, [0u8; 32]), Err(TxError::Rule(RuleViolation::PriceNotZero)));
    let t = tx("UPD", &address(1), &address(2), a, a, 0, 3, 2, 1);
    assert_eq!(process_transaction(&t, [0u8; 32]), Err(TxError::Rule(RuleViolation::OldPriceNotZero)));
}

#[test]
fn change_rules() {
    let (a, b) = (pk(1), pk(2));
    let t = tx("CHG", "", &address(1), a, a, 0, 0, 2, 1);
    assert_eq!(process_transaction(&t, [0u8; 32]), Err(TxError::Rule(RuleViolation::PubkeysEqual)));
    let t = tx("CHG", "", &address(1), [0u8; 32], b, 0, 0, 2, 1);
    assert_eq!(process_transaction(&t, [0u8; 32]), Err(TxError::Rule(RuleViolation::OldPubkeyEmpty)));
    let t = tx("CHG", "", &address(1), a, b, 0, 1, 2, 1);
    assert_eq!(process_transaction(&t, [0u8; 32]), Err(TxError::Rule(RuleViolation::OldPriceNotZero)));
}

#[test]
fn listing_rules() {
    let (a, b) = (pk(1), pk(2));
    let t = tx("LST", "", &address(1), a, a, 0, 0, 2, 1);
    assert_eq!(process_transaction(&t, [0u8; 32]), Err(TxError::Rule(RuleViolation::PriceZero)));
    let t = tx("LST", "", &address(1), b, a, 5, 0, 2, 1);
    assert_eq!(process_transaction(&t, [0u8; 32]), Err(TxError::Rule(RuleViolation::PubkeysDiffer)));
    let t = tx("ULT", "", &address(1), a, a, 0, 0, 2, 1);
    assert_eq!(process_transaction(&t, [0u8; 32]), Err(TxError::Rule(RuleViolation::NotListed)));
    let t = tx("ULT", "", &address(1), a, a, 4, 4, 2, 1);
    assert_eq!(process_transaction(&t, [0u8; 32]), Err(TxError::Rule(RuleViolation::PriceNotZero)));
}

#[test]
fn purchase_rules() {
    let (a, b) = (pk(1), pk(2));
    let t = tx("BUY", "", &address(1), a, b, 400, 500, 2, 1);
    assert_eq!(process_transaction(&t, [0u8; 32]), Err(TxError::Rule(RuleViolation::PriceMismatch)));
    let t = tx("BUY", "", &address(1), a, b, 0, 0, 2, 1);
    assert_eq!(process_transaction(&t, [0u8; 32]), Err(TxError::Rule(RuleViolation::NotListed)));
    let t = tx("BUY", "", &address(1), b, b, 5, 5, 2, 1);
    assert_eq!(process_transaction(&t, [0u8; 32]), Err(TxError::Rule(RuleViolation::PubkeysEqual)));
}

#[test]
fn change_with_invalid_owner_key() {
    let t = tx("CHG", "", &address(1), bad_point(), pk(2), 0, 0, 2, 1);
    assert_eq!(process_transaction(&t, [0u8; 32]), Err(TxError::InvalidOldPubkey));
}

#[test]
fn invalid_signatures() {
    let a = pk(1);
    let msg = format!("PiNS:1:REG:{}:{}:{}:1", DOMAIN, address(1), hex::encode(a));
    let t = signed(tx("REG", "", &address(1), [0u8; 32], a, 0, 0, 1, 0), &signer(2), &msg);
    assert_eq!(process_transaction(&t, empty_root()), Err(TxError::InvalidSignature));
    let mut t = reg();
    t.signature.pop();
    assert_eq!(process_transaction(&t, empty_root()), Err(TxError::InvalidSignature));
    let t = signed(tx("REG", "", &address(1), [0u8; 32], a, 0, 0, 1, 0), &signer(1), &format!("{}0", msg));
    assert_eq!(process_transaction(&t, empty_root()), Err(TxError::InvalidSignature));
}

#[test]
fn merkle_errors() {
    let mut t = reg();
    t.merkle_proof.pop();
    assert_eq!(process_transaction(&t, empty_root()), Err(TxError::Merkle(SmtError::ProofLength)));
    assert_eq!(process_transaction(&reg(), [1u8; 32]), Err(TxError::Merkle(SmtError::RootMismatch)));
}

#[test]
fn signing_request_chooses_signer_and_message() {
    let (a, b) = (pk(1), pk(2));
    let t = tx("CHG", "", &address(1), a, b, 0, 0, 9, 8);
    let (key, msg) = signing_request(Op::Chg, &t);
    assert!(matches!(key, EitherKey::Old(k) if k == a));
    assert_eq!(msg, format!("PiNS:1:CHG:{}:{}:9", DOMAIN, hex::encode(b)).into_bytes());
    let (key, msg) = signing_request(Op::Lst, &t);
    assert!(matches!(key, EitherKey::New(k) if k == b));
    assert_eq!(msg, format!("PiNS:1:LST:{}:{}:0:9", DOMAIN, hex::encode(b)).into_bytes());
    assert_eq!(*EitherKey::Old(a).get(), a);
}

#[test]
fn parse_op_names() {
    assert_eq!(parse_op("REG"), Some(Op::Reg));
    assert_eq!(parse_op("UPD"), Some(Op::Upd));
    assert_eq!(parse_op("CHG"), Some(Op::Chg));
    assert_eq!(parse_op("LST"), Some(Op::Lst));
    assert_eq!(parse_op("ULT"), Some(Op::Ult));
    assert_eq!(parse_op("BUY"), Some(Op::Buy));
    assert_eq!(parse_op("BUYS"), None);
    assert_eq!(parse_op(""), None);
}

#[test]
fn signature_check_uses_the_given_key() {
    let msg = b"hello";
    let sig = signer(1).sign(msg).to_bytes();
    assert!(is_signature_valid(&EitherKey::New(pk(1)), msg, &sig));
    assert!(!is_signature_valid(&EitherKey::New(pk(2)), msg, &sig));
    assert!(!is_signature_valid(&EitherKey::Old(bad_point()), msg, &sig));
    assert!(!is_signature_valid(&EitherKey::New(pk(1)), msg, &sig[..63]));
}
