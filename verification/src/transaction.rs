//! Domain transactions and the rules a batch of them must follow: replay
//! protection, input validation, per-operation invariants, owner signatures
//! and the sparse Merkle tree transition of the domain's leaf.
use vstd::prelude::*;
use vstd::string::StringSliceAdditionalSpecFns;
use vstd::utf8::encode_utf8;
use crate::crypto::{ed25519_key_decodes, ed25519_key_is_valid, ed25519_signature_verifies, ed25519_verify};
use crate::domain::{is_address_valid, is_domain_valid, is_valid_address, is_valid_domain_name};
use crate::encoding::{decimal, hex_encode, push_slice, push_u64_bytes, write_hex};
use crate::smt::{bytes32_eq, hash_leaf, leaf_hash, proof_view, root_result, smt_update, verify_and_update_smt, SmtError};

verus! {

/// One update of a domain record, as signed by its owner.
#[derive(Debug, Clone)]
pub struct Transaction {
    pub tx_id: String,
    pub op: String,
    pub domain_name: String,
    pub old_target_address: String,
    pub target_address: String,
    /// The previous owner.
    pub old_pubkey: [u8; 32],
    /// The new or current owner.
    pub pubkey: [u8; 32],
    /// The requested action price.
    pub price: u64,
    /// The previous price state.
    pub old_price: u64,
    /// The current nonce.
    pub nonce: u64,
    /// The previous nonce.
    pub old_nonce: u64,
    pub signature: Vec<u8>,
    pub merkle_proof: Vec<[u8; 32]>,
}

/// A batch of transactions applied to the tree of root `old_root`.
#[derive(Debug, Clone)]
pub struct BatchPayload {
    pub old_root: [u8; 32],
    pub end_block_height: u32,
    pub transactions: Vec<Transaction>,
}

/// The operations of the name service.
#[derive(Debug, Clone, Copy, PartialEq, Eq, Structural)]
pub enum Op {
    /// `REG`: register a domain.
    Reg,
    /// `UPD`: change the target address.
    Upd,
    /// `CHG`: transfer ownership to a new key.
    Chg,
    /// `LST`: list the domain for sale.
    Lst,
    /// `ULT`: remove a listing.
    Ult,
    /// `BUY`: buy a listed domain.
    Buy,
}

/// A per-operation rule that a transaction broke.
#[derive(Debug, Clone, Copy, PartialEq, Eq, Structural)]
pub enum RuleViolation {
    /// The previous owner key must be all zeros.
    OldPubkeyNotEmpty,
    /// The new owner key must not be all zeros.
    PubkeyEmpty,
    /// The previous owner key must not be all zeros.
    OldPubkeyEmpty,
    /// The previous price must be 0.
    OldPriceNotZero,
    /// The price must be 0.
    PriceNotZero,
    /// The price must be greater than 0.
    PriceZero,
    /// The two keys must be equal.
    PubkeysDiffer,
    /// The two keys must differ.
    PubkeysEqual,
    /// The target address must change.
    TargetUnchanged,
    /// The domain must be listed (previous price greater than 0).
    NotListed,
    /// The price paid must be the listed price.
    PriceMismatch,
}

/// Why a transaction was refused.
#[derive(Debug, Clone, Copy, PartialEq, Eq, Structural)]
pub enum TxError {
    /// The new key is not an Ed25519 curve point.
    InvalidPubkey,
    /// The nonce is not greater than the previous nonce.
    ReplayAttack,
    /// The domain name breaks the naming rules.
    InvalidDomain,
    /// The target address is not a `ps` Bech32 string.
    InvalidAddress,
    /// The operation is none of the six known ones.
    UnknownOperation,
    /// A rule of the operation is broken.
    Rule(RuleViolation),
    /// The current owner key of a `CHG` is not an Ed25519 curve point.
    InvalidOldPubkey,
    /// The signature does not verify.
    InvalidSignature,
    /// The Merkle proof was refused.
    Merkle(SmtError),
}

/// Which transaction of a batch was refused, and why.
#[derive(Debug, Clone, Copy, PartialEq, Eq, Structural)]
pub struct BatchError {
    pub tx_index: usize,
    pub error: TxError,
}

/// The public values of an accepted batch.
#[derive(Debug, Clone, Copy)]
pub struct BatchResult {
    pub old_root: [u8; 32],
    pub new_root: [u8; 32],
    pub end_block_height: u32,
}

/// The key a signature is checked against: the new owner's or the current one's.
#[derive(Debug, Clone, Copy)]
pub enum EitherKey {
    New([u8; 32]),
    Old([u8; 32]),
}

impl EitherKey {
    /// The key bytes, whichever the side.
    pub open spec fn key(self) -> [u8; 32] {
        match self {
            EitherKey::New(k) => k,
            EitherKey::Old(k) => k,
        }
    }

    /// The key bytes, whichever the side.
    pub fn get(&self) -> (res: &[u8; 32])
        ensures
            *res == self.key(),
    {
        match self {
            EitherKey::New(key) => key,
            EitherKey::Old(key) => key,
        }
    }
}

/// The UTF-8 bytes of a string.
pub open spec fn text_bytes(s: Seq<char>) -> Seq<u8> {
    encode_utf8(s)
}

/// The three bytes that name an operation.
pub open spec fn op_name(op: Op) -> Seq<u8> {
    match op {
        Op::Reg => seq![82u8, 69, 71],
        Op::Upd => seq![85u8, 80, 68],
        Op::Chg => seq![67u8, 72, 71],
        Op::Lst => seq![76u8, 83, 84],
        Op::Ult => seq![85u8, 76, 84],
        Op::Buy => seq![66u8, 85, 89],
    }
}

/// The operation that `name` spells, if any.
pub open spec fn op_of(name: Seq<u8>) -> Option<Op> {
    if name == op_name(Op::Reg) {
        Some(Op::Reg)
    } else if name == op_name(Op::Upd) {
        Some(Op::Upd)
    } else if name == op_name(Op::Chg) {
        Some(Op::Chg)
    } else if name == op_name(Op::Lst) {
        Some(Op::Lst)
    } else if name == op_name(Op::Ult) {
        Some(Op::Ult)
    } else if name == op_name(Op::Buy) {
        Some(Op::Buy)
    } else {
        None
    }
}

/// Whether a key is all zeros.
pub open spec fn is_zero_key(k: [u8; 32]) -> bool {
    forall|i: int| 0 <= i < 32 ==> #[trigger] k@[i] == 0
}

/// The first rule of `op` that `tx` breaks, in the order they are checked.
pub open spec fn rule_violation(op: Op, tx: Transaction) -> Option<RuleViolation> {
    match op {
        Op::Reg => {
            if !is_zero_key(tx.old_pubkey) {
                Some(RuleViolation::OldPubkeyNotEmpty)
            } else if is_zero_key(tx.pubkey) {
                Some(RuleViolation::PubkeyEmpty)
            } else if tx.old_price != 0 {
                Some(RuleViolation::OldPriceNotZero)
            } else if tx.price != 0 {
                Some(RuleViolation::PriceNotZero)
            } else {
                None
            }
        },
        Op::Upd => {
            if is_zero_key(tx.pubkey) {
                Some(RuleViolation::PubkeyEmpty)
            } else if tx.old_pubkey@ != tx.pubkey@ {
                Some(RuleViolation::PubkeysDiffer)
            } else if tx.old_target_address@ == tx.target_address@ {
                Some(RuleViolation::TargetUnchanged)
            } else if tx.price != 0 {
                Some(RuleViolation::PriceNotZero)
            } else if tx.old_price != 0 {
                Some(RuleViolation::OldPriceNotZero)
            } else {
                None
            }
        },
        Op::Chg => {
            if is_zero_key(tx.pubkey) {
                Some(RuleViolation::PubkeyEmpty)
            } else if is_zero_key(tx.old_pubkey) {
                Some(RuleViolation::OldPubkeyEmpty)
            } else if tx.old_pubkey@ == tx.pubkey@ {
                Some(RuleViolation::PubkeysEqual)
            } else if tx.price != 0 {
                Some(RuleViolation::PriceNotZero)
            } else if tx.old_price != 0 {
                Some(RuleViolation::OldPriceNotZero)
            } else {
                None
            }
        },
        Op::Lst => {
            if tx.old_pubkey@ != tx.pubkey@ {
                Some(RuleViolation::PubkeysDiffer)
            } else if tx.price == 0 {
                Some(RuleViolation::PriceZero)
            } else if tx.old_price != 0 {
                Some(RuleViolation::OldPriceNotZero)
            } else {
                None
            }
        },
        Op::Ult => {
            if tx.old_pubkey@ != tx.pubkey@ {
                Some(RuleViolation::PubkeysDiffer)
            } else if tx.old_price == 0 {
                Some(RuleViolation::NotListed)
            } else if tx.price != 0 {
                Some(RuleViolation::PriceNotZero)
            } else {
                None
            }
        },
        Op::Buy => {
            if is_zero_key(tx.pubkey) {
                Some(RuleViolation::PubkeyEmpty)
            } else if is_zero_key(tx.old_pubkey) {
                Some(RuleViolation::OldPubkeyEmpty)
            } else if tx.old_pubkey@ == tx.pubkey@ {
                Some(RuleViolation::PubkeysEqual)
            } else if tx.old_price == 0 {
                Some(RuleViolation::NotListed)
            } else if tx.old_price != tx.price {
                Some(RuleViolation::PriceMismatch)
            } else {
                None
            }
        },
    }
}

/// `PiNS:1:` followed by the operation name and `:`.
pub open spec fn message_prefix(op: Op) -> Seq<u8> {
    seq![80u8, 105, 78, 83, 58, 49, 58] + op_name(op) + seq![58u8]
}

/// The bytes the signer signs for `tx` under `op`.
pub open spec fn signing_message(op: Op, tx: Transaction) -> Seq<u8> {
    let head = message_prefix(op) + text_bytes(tx.domain_name@) + seq![58u8];
    let key_hex = hex_encode(tx.pubkey@);
    match op {
        Op::Reg | Op::Upd | Op::Buy => head + text_bytes(tx.target_address@) + seq![58u8] + key_hex
            + seq![58u8] + decimal(tx.nonce as nat),
        Op::Chg | Op::Ult => head + key_hex + seq![58u8] + decimal(tx.nonce as nat),
        Op::Lst => head + key_hex + seq![58u8] + decimal(tx.price as nat) + seq![58u8] + decimal(
            tx.nonce as nat,
        ),
    }
}

/// Who signs: the current owner for `CHG`, the new or unchanged owner otherwise.
pub open spec fn signer(op: Op, tx: Transaction) -> [u8; 32] {
    if op == Op::Chg {
        tx.old_pubkey
    } else {
        tx.pubkey
    }
}

/// Whether `sig` is a 64-byte Ed25519 signature of `message` by `key`.
pub open spec fn signature_accepted(key: Seq<u8>, message: Seq<u8>, sig: Seq<u8>) -> bool {
    &&& sig.len() == 64
    &&& ed25519_key_decodes(key)
    &&& ed25519_signature_verifies(key, message, sig)
}

/// The 32 zero bytes of an unused leaf.
pub open spec fn empty_leaf() -> Seq<u8> {
    Seq::new(32, |i: int| 0u8)
}

/// The leaf the tree must hold before `tx`, and the leaf it holds after.
pub open spec fn leaf_transition(op: Op, tx: Transaction) -> (Seq<u8>, Seq<u8>) {
    let d = text_bytes(tx.domain_name@);
    let t = text_bytes(tx.target_address@);
    let ot = text_bytes(tx.old_target_address@);
    match op {
        Op::Reg => (empty_leaf(), leaf_hash(d, tx.pubkey@, t, 0, tx.nonce)),
        Op::Upd => (
            leaf_hash(d, tx.pubkey@, ot, 0, tx.old_nonce),
            leaf_hash(d, tx.pubkey@, t, 0, tx.nonce),
        ),
        Op::Chg => (
            leaf_hash(d, tx.old_pubkey@, t, 0, tx.old_nonce),
            leaf_hash(d, tx.pubkey@, t, 0, tx.nonce),
        ),
        Op::Lst => (
            leaf_hash(d, tx.pubkey@, t, tx.old_price, tx.old_nonce),
            leaf_hash(d, tx.pubkey@, t, tx.price, tx.nonce),
        ),
        Op::Ult => (
            leaf_hash(d, tx.pubkey@, t, tx.old_price, tx.old_nonce),
            leaf_hash(d, tx.pubkey@, t, 0, tx.nonce),
        ),
        Op::Buy => (
            leaf_hash(d, tx.old_pubkey@, ot, tx.old_price, tx.old_nonce),
            leaf_hash(d, tx.pubkey@, t, 0, tx.nonce),
        ),
    }
}

/// The outcome of applying `tx` to the tree of root `root`: the new root,
/// or the first check it fails.
#[verifier::opaque]
pub open spec fn tx_outcome(tx: Transaction, root: Seq<u8>) -> Result<Seq<u8>, TxError> {
    if !ed25519_key_decodes(tx.pubkey@) {
        Err(TxError::InvalidPubkey)
    } else if tx.nonce <= tx.old_nonce {
        Err(TxError::ReplayAttack)
    } else if !is_valid_domain_name(text_bytes(tx.domain_name@)) {
        Err(TxError::InvalidDomain)
    } else if !is_valid_address(tx.target_address@) {
        Err(TxError::InvalidAddress)
    } else {
        match op_of(text_bytes(tx.op@)) {
            None => Err(TxError::UnknownOperation),
            Some(op) => match rule_violation(op, tx) {
                Some(v) => Err(TxError::Rule(v)),
                None => {
                    if op == Op::Chg && !ed25519_key_decodes(tx.old_pubkey@) {
                        Err(TxError::InvalidOldPubkey)
                    } else if !signature_accepted(
                        signer(op, tx)@,
                        signing_message(op, tx),
                        tx.signature@,
                    ) {
                        Err(TxError::InvalidSignature)
                    } else {
                        let (old_leaf, new_leaf) = leaf_transition(op, tx);
                        match smt_update(
                            text_bytes(tx.domain_name@),
                            old_leaf,
                            new_leaf,
                            proof_view(tx.merkle_proof@),
                            root,
                        ) {
                            Ok(r) => Ok(r),
                            Err(e) => Err(TxError::Merkle(e)),
                        }
                    }
                },
            },
        }
    }
}

/// The root after the first `n` transactions of `txs`, starting from `root`,
/// or the first transaction refused and why.
pub open spec fn batch_fold(txs: Seq<Transaction>, root: Seq<u8>, n: nat) -> Result<Seq<u8>, BatchError>
    decreases n,
{
    if n == 0 {
        Ok(root)
    } else {
        match batch_fold(txs, root, (n - 1) as nat) {
            Err(e) => Err(e),
            Ok(r) => match tx_outcome(txs[n - 1], r) {
                Ok(r2) => Ok(r2),
                Err(e) => Err(BatchError { tx_index: (n - 1) as usize, error: e }),
            },
        }
    }
}


/// The operation that `op` names, if it is one of the six.
pub fn parse_op(op: &str) -> (res: Option<Op>)
    ensures
        res == op_of(op.spec_bytes()),
{
    let b = op.as_bytes();
    if b.len() != 3 {
        return None;
    }
    let c0 = b[0];
    let c1 = b[1];
    let c2 = b[2];
    assert(b@ =~= seq![c0, c1, c2]);
    if c0 == 82 && c1 == 69 && c2 == 71 {
        assert(b@ =~= op_name(Op::Reg));
        Some(Op::Reg)
    } else if c0 == 85 && c1 == 80 && c2 == 68 {
        assert(b@ =~= op_name(Op::Upd));
        Some(Op::Upd)
    } else if c0 == 67 && c1 == 72 && c2 == 71 {
        assert(b@ =~= op_name(Op::Chg));
        Some(Op::Chg)
    } else if c0 == 76 && c1 == 83 && c2 == 84 {
        assert(b@ =~= op_name(Op::Lst));
        Some(Op::Lst)
    } else if c0 == 85 && c1 == 76 && c2 == 84 {
        assert(b@ =~= op_name(Op::Ult));
        Some(Op::Ult)
    } else if c0 == 66 && c1 == 85 && c2 == 89 {
        assert(b@ =~= op_name(Op::Buy));
        Some(Op::Buy)
    } else {
        proof {
            if b@ == op_name(Op::Reg) {
                assert(b@[0] == 82 && b@[1] == 69 && b@[2] == 71);
            }
            if b@ == op_name(Op::Upd) {
                assert(b@[0] == 85 && b@[1] == 80 && b@[2] == 68);
            }
            if b@ == op_name(Op::Chg) {
                assert(b@[0] == 67 && b@[1] == 72 && b@[2] == 71);
            }
            if b@ == op_name(Op::Lst) {
                assert(b@[0] == 76 && b@[1] == 83 && b@[2] == 84);
            }
            if b@ == op_name(Op::Ult) {
                assert(b@[0] == 85 && b@[1] == 76 && b@[2] == 84);
            }
            if b@ == op_name(Op::Buy) {
                assert(b@[0] == 66 && b@[1] == 85 && b@[2] == 89);
            }
        }
        None
    }
}

/// The three bytes that name `op`.
fn op_name_bytes(op: Op) -> (res: [u8; 3])
    ensures
        res@ == op_name(op),
{
    let r: [u8; 3] = match op {
        Op::Reg => [82u8, 69, 71],
        Op::Upd => [85u8, 80, 68],
        Op::Chg => [67u8, 72, 71],
        Op::Lst => [76u8, 83, 84],
        Op::Ult => [85u8, 76, 84],
        Op::Buy => [66u8, 85, 89],
    };
    assert(r@ =~= op_name(op));
    r
}

/// Whether a key is all zeros.
pub fn key_is_zero(k: &[u8; 32]) -> (res: bool)
    ensures
        res == is_zero_key(*k),
{
    let mut i: usize = 0;
    while i < 32
        invariant
            i <= 32,
            forall|j: int| 0 <= j < i ==> k@[j] == 0,
        decreases 32 - i,
    {
        if k[i] != 0 {
            return false;
        }
        i = i + 1;
    }
    true
}

/// The first rule of `op` that `tx` breaks, if any.
pub fn check_rules(op: Op, tx: &Transaction) -> (res: Option<RuleViolation>)
    ensures
        res == rule_violation(op, *tx),
{
    match op {
        Op::Reg => {
            if !key_is_zero(&tx.old_pubkey) {
                Some(RuleViolation::OldPubkeyNotEmpty)
            } else if key_is_zero(&tx.pubkey) {
                Some(RuleViolation::PubkeyEmpty)
            } else if tx.old_price != 0 {
                Some(RuleViolation::OldPriceNotZero)
            } else if tx.price != 0 {
                Some(RuleViolation::PriceNotZero)
            } else {
                None
            }
        },
        Op::Upd => {
            if key_is_zero(&tx.pubkey) {
                Some(RuleViolation::PubkeyEmpty)
            } else if !bytes32_eq(&tx.old_pubkey, &tx.pubkey) {
                Some(RuleViolation::PubkeysDiffer)
            } else if tx.old_target_address == tx.target_address {
                Some(RuleViolation::TargetUnchanged)
            } else if tx.price != 0 {
                Some(RuleViolation::PriceNotZero)
            } else if tx.old_price != 0 {
                Some(RuleViolation::OldPriceNotZero)
            } else {
                None
            }
        },
        Op::Chg => {
            if key_is_zero(&tx.pubkey) {
                Some(RuleViolation::PubkeyEmpty)
            } else if key_is_zero(&tx.old_pubkey) {
                Some(RuleViolation::OldPubkeyEmpty)
            } else if bytes32_eq(&tx.old_pubkey, &tx.pubkey) {
                Some(RuleViolation::PubkeysEqual)
            } else if tx.price != 0 {
                Some(RuleViolation::PriceNotZero)
            } else if tx.old_price != 0 {
                Some(RuleViolation::OldPriceNotZero)
            } else {
                None
            }
        },
        Op::Lst => {
            if !bytes32_eq(&tx.old_pubkey, &tx.pubkey) {
                Some(RuleViolation::PubkeysDiffer)
            } else if tx.price == 0 {
                Some(RuleViolation::PriceZero)
            } else if tx.old_price != 0 {
                Some(RuleViolation::OldPriceNotZero)
            } else {
                None
            }
        },
        Op::Ult => {
            if !bytes32_eq(&tx.old_pubkey, &tx.pubkey) {
                Some(RuleViolation::PubkeysDiffer)
            } else if tx.old_price == 0 {
                Some(RuleViolation::NotListed)
            } else if tx.price != 0 {
                Some(RuleViolation::PriceNotZero)
            } else {
                None
            }
        },
        Op::Buy => {
            if key_is_zero(&tx.pubkey) {
                Some(RuleViolation::PubkeyEmpty)
            } else if key_is_zero(&tx.old_pubkey) {
                Some(RuleViolation::OldPubkeyEmpty)
            } else if bytes32_eq(&tx.old_pubkey, &tx.pubkey) {
                Some(RuleViolation::PubkeysEqual)
            } else if tx.old_price == 0 {
                Some(RuleViolation::NotListed)
            } else if tx.old_price != tx.price {
                Some(RuleViolation::PriceMismatch)
            } else {
                None
            }
        },
    }
}

/// The key that must sign `tx` under `op`, and the message it must sign.
pub fn signing_request(op: Op, tx: &Transaction) -> (res: (EitherKey, Vec<u8>))
    ensures
        res.0 == (if op == Op::Chg { EitherKey::Old(tx.old_pubkey) } else { EitherKey::New(tx.pubkey) }),
        res.0.key() == signer(op, *tx),
        res.1@ == signing_message(op, *tx),
{
    let mut pubkey_hex_bytes = [0u8; 64];
    write_hex(&mut pubkey_hex_bytes, tx.pubkey.as_slice());
    assert(pubkey_hex_bytes@ =~= hex_encode(tx.pubkey@));
    let mut msg: Vec<u8> = Vec::new();
    let prefix: [u8; 7] = [80u8, 105, 78, 83, 58, 49, 58];
    push_slice(&mut msg, prefix.as_slice());
    let name = op_name_bytes(op);
    push_slice(&mut msg, name.as_slice());
    msg.push(58u8);
    push_slice(&mut msg, tx.domain_name.as_str().as_bytes());
    msg.push(58u8);
    match op {
        Op::Reg | Op::Upd | Op::Buy => {
            push_slice(&mut msg, tx.target_address.as_str().as_bytes());
            msg.push(58u8);
        },
        _ => {},
    }
    push_slice(&mut msg, pubkey_hex_bytes.as_slice());
    msg.push(58u8);
    if op == Op::Lst {
        push_u64_bytes(&mut msg, tx.price);
        msg.push(58u8);
    }
    push_u64_bytes(&mut msg, tx.nonce);
    assert(msg@ =~= signing_message(op, *tx));
    let key = if op == Op::Chg {
        EitherKey::Old(tx.old_pubkey)
    } else {
        EitherKey::New(tx.pubkey)
    };
    (key, msg)
}

/// Whether `sig_bytes` is a valid Ed25519 signature of `message` by the key.
pub fn is_signature_valid(pubkey: &EitherKey, message: &[u8], sig_bytes: &[u8]) -> (res: bool)
    ensures
        res == signature_accepted(pubkey.key()@, message@, sig_bytes@),
{
    if sig_bytes.len() != 64 {
        return false;
    }
    let mut sig = [0u8; 64];
    let mut i: usize = 0;
    while i < 64
        invariant
            sig_bytes@.len() == 64,
            i <= 64,
            forall|j: int| 0 <= j < i ==> sig@[j] == sig_bytes@[j],
        decreases 64 - i,
    {
        sig[i] = sig_bytes[i];
        i = i + 1;
    }
    assert(sig@ =~= sig_bytes@);
    ed25519_verify(pubkey.get(), message, &sig)
}

/// The leaf the tree must hold before `tx`, and the one it holds after.
pub fn compute_leaves(op: Op, tx: &Transaction) -> (res: ([u8; 32], [u8; 32]))
    ensures
        (res.0@, res.1@) == leaf_transition(op, *tx),
{
    let d = tx.domain_name.as_str();
    let t = tx.target_address.as_str();
    let ot = tx.old_target_address.as_str();
    let res = match op {
        Op::Reg => {
            let new_leaf = hash_leaf(d, &tx.pubkey, t, 0, tx.nonce);
            ([0u8; 32], new_leaf)
        },
        Op::Upd => {
            let old_leaf = hash_leaf(d, &tx.pubkey, ot, 0, tx.old_nonce);
            let new_leaf = hash_leaf(d, &tx.pubkey, t, 0, tx.nonce);
            (old_leaf, new_leaf)
        },
        Op::Chg => {
            let old_leaf = hash_leaf(d, &tx.old_pubkey, t, 0, tx.old_nonce);
            let new_leaf = hash_leaf(d, &tx.pubkey, t, 0, tx.nonce);
            (old_leaf, new_leaf)
        },
        Op::Lst => {
            let old_leaf = hash_leaf(d, &tx.pubkey, t, tx.old_price, tx.old_nonce);
            let new_leaf = hash_leaf(d, &tx.pubkey, t, tx.price, tx.nonce);
            (old_leaf, new_leaf)
        },
        Op::Ult => {
            let old_leaf = hash_leaf(d, &tx.pubkey, t, tx.old_price, tx.old_nonce);
            let new_leaf = hash_leaf(d, &tx.pubkey, t, 0, tx.nonce);
            (old_leaf, new_leaf)
        },
        Op::Buy => {
            let old_leaf = hash_leaf(d, &tx.old_pubkey, ot, tx.old_price, tx.old_nonce);
            let new_leaf = hash_leaf(d, &tx.pubkey, t, 0, tx.nonce);
            (old_leaf, new_leaf)
        },
    };
    assert(op == Op::Reg ==> res.0@ =~= empty_leaf());
    res
}

/// Applies `tx` to the tree of root `current_root`: runs every check in
/// order and returns the new root, or the first check that failed.
pub fn process_transaction(tx: &Transaction, current_root: [u8; 32]) -> (res: Result<[u8; 32], TxError>)
    ensures
        root_result(res) == tx_outcome(*tx, current_root@),
{
    proof {
        reveal(tx_outcome);
    }
    // Replay protection and input validation.
    if !ed25519_key_is_valid(&tx.pubkey) {
        return Err(TxError::InvalidPubkey);
    }
    if tx.nonce <= tx.old_nonce {
        return Err(TxError::ReplayAttack);
    }
    if !is_domain_valid(tx.domain_name.as_str()) {
        return Err(TxError::InvalidDomain);
    }
    if !is_address_valid(tx.target_address.as_str()) {
        return Err(TxError::InvalidAddress);
    }
    // Per-operation rules.
    let op = match parse_op(tx.op.as_str()) {
        Some(op) => op,
        None => return Err(TxError::UnknownOperation),
    };
    if let Some(v) = check_rules(op, tx) {
        return Err(TxError::Rule(v));
    }
    // Owner signature.
    if op == Op::Chg && !ed25519_key_is_valid(&tx.old_pubkey) {
        return Err(TxError::InvalidOldPubkey);
    }
    let (signer_pubkey, message_bytes) = signing_request(op, tx);
    if !is_signature_valid(&signer_pubkey, message_bytes.as_slice(), tx.signature.as_slice()) {
        return Err(TxError::InvalidSignature);
    }
    // Leaf transition in the sparse Merkle tree.
    let (expected_old_leaf, new_leaf) = compute_leaves(op, tx);
    match verify_and_update_smt(
        tx.domain_name.as_str(),
        expected_old_leaf,
        new_leaf,
        tx.merkle_proof.as_slice(),
        current_root,
    ) {
        Ok(r) => Ok(r),
        Err(e) => Err(TxError::Merkle(e)),
    }
}

/// Applies the transactions of `payload` in order, starting from its old
/// root, and returns the public values of the batch, or the first
/// transaction refused and why.
pub fn process_batch(payload: &BatchPayload) -> (res: Result<BatchResult, BatchError>)
    ensures
        match res {
            Ok(r) => {
                &&& r.old_root == payload.old_root
                &&& r.end_block_height == payload.end_block_height
                &&& batch_fold(payload.transactions@, payload.old_root@, payload.transactions@.len())
                    == Ok::<Seq<u8>, BatchError>(r.new_root@)
            },
            Err(e) => batch_fold(payload.transactions@, payload.old_root@, payload.transactions@.len())
                == Err::<Seq<u8>, BatchError>(e),
        },
{
    let mut current_root = payload.old_root;
    let n = payload.transactions.len();
    let mut i: usize = 0;
    while i < n
        invariant
            n == payload.transactions@.len(),
            i <= n,
            batch_fold(payload.transactions@, payload.old_root@, i as nat) == Ok::<Seq<u8>, BatchError>(current_root@),
        decreases n - i,
    {
        match process_transaction(&payload.transactions[i], current_root) {
            Ok(r) => {
                current_root = r;
            },
            Err(e) => {
                let err = BatchError { tx_index: i, error: e };
                assert(batch_fold(payload.transactions@, payload.old_root@, (i + 1) as nat) == Err::<Seq<u8>, BatchError>(err));
                proof {
                    lemma_batch_error_persists(payload.transactions@, payload.old_root@, (i + 1) as nat, n as nat);
                }
                return Err(err);
            },
        }
        i = i + 1;
    }
    Ok(BatchResult { old_root: payload.old_root, new_root: current_root, end_block_height: payload.end_block_height })
}

/// Once a transaction of a batch is refused, the batch stays refused with
/// that same error, however many transactions follow.
pub proof fn lemma_batch_error_persists(txs: Seq<Transaction>, root: Seq<u8>, m: nat, n: nat)
    requires
        m <= n,
        batch_fold(txs, root, m) is Err,
    ensures
        batch_fold(txs, root, n) == batch_fold(txs, root, m),
    decreases n - m,
{
    if m < n {
        lemma_batch_error_persists(txs, root, m, (n - 1) as nat);
    }
}


/// What an accepted transaction guarantees: its new key is a curve point,
/// its nonce is fresh, its domain and target address are valid, its
/// operation is known and its rules hold, the key that must sign it did
/// sign its message (for every operation but a registration or a purchase
/// that key is the current owner's), the proof has one sibling per level,
/// the replaced leaf hashes up to the old root, and the new root is the
/// new leaf hashed up the same path.
pub proof fn lemma_accepted_transaction(tx: Transaction, root: Seq<u8>)
    requires
        tx_outcome(tx, root) is Ok,
    ensures
        ed25519_key_decodes(tx.pubkey@),
        tx.nonce > tx.old_nonce,
        is_valid_domain_name(text_bytes(tx.domain_name@)),
        is_valid_address(tx.target_address@),
        op_of(text_bytes(tx.op@)) is Some,
        ({
            let op = op_of(text_bytes(tx.op@))->0;
            let (old_leaf, new_leaf) = leaf_transition(op, tx);
            let d = text_bytes(tx.domain_name@);
            let p = proof_view(tx.merkle_proof@);
            &&& rule_violation(op, tx) is None
            &&& signature_accepted(signer(op, tx)@, signing_message(op, tx), tx.signature@)
            &&& (op != Op::Reg && op != Op::Buy) ==> signature_accepted(
                tx.old_pubkey@,
                signing_message(op, tx),
                tx.signature@,
            )
            &&& (op == Op::Reg || op == Op::Buy) ==> signature_accepted(
                tx.pubkey@,
                signing_message(op, tx),
                tx.signature@,
            )
            &&& p.len() == 128
            &&& crate::smt::smt_root(d, old_leaf, p) == root
            &&& tx_outcome(tx, root) == Ok::<Seq<u8>, TxError>(crate::smt::smt_root(d, new_leaf, p))
        }),
{
    reveal(tx_outcome);
    let op = op_of(text_bytes(tx.op@))->0;
    if op == Op::Upd || op == Op::Lst || op == Op::Ult {
        assert(tx.old_pubkey == tx.pubkey);
    }
}

/// After any transaction the domain's leaf records the transaction's key,
/// target address and nonce; only a listing records a price, the listed one.
pub proof fn lemma_new_leaf_records_transaction(op: Op, tx: Transaction)
    ensures
        leaf_transition(op, tx).1 == leaf_hash(
            text_bytes(tx.domain_name@),
            tx.pubkey@,
            text_bytes(tx.target_address@),
            if op == Op::Lst { tx.price } else { 0 },
            tx.nonce,
        ),
{
}

/// The replay check refuses exactly the stale nonces: a transaction whose
/// new key decodes is refused as a replay when its nonce is not greater
/// than the previous one, and a replay refusal only ever happens then.
/// Any larger nonce (a timestamp, say) passes this check.
pub proof fn lemma_replay_check_is_nonce_order(tx: Transaction, root: Seq<u8>)
    ensures
        tx_outcome(tx, root) == Err::<Seq<u8>, TxError>(TxError::ReplayAttack) ==> tx.nonce <= tx.old_nonce,
        ed25519_key_decodes(tx.pubkey@) && tx.nonce <= tx.old_nonce ==> tx_outcome(tx, root) == Err::<
            Seq<u8>,
            TxError,
        >(TxError::ReplayAttack),
{
    reveal(tx_outcome);
}

/// The leaf a transaction replaces is the current record of the domain: it
/// names the current owner (`old_pubkey`), the previous nonce and the
/// previous price; the target is the previous one for the operations that
/// change it (`UPD`, `BUY`) and the unchanged one for the others. This holds
/// for every operation but a registration, whose replaced leaf is empty,
/// once the operation's rules hold.
pub proof fn lemma_old_leaf_is_current_record(op: Op, tx: Transaction)
    requires
        rule_violation(op, tx) is None,
    ensures
        op == Op::Reg ==> leaf_transition(op, tx).0 == Seq::new(32, |i: int| 0u8),
        op != Op::Reg ==> leaf_transition(op, tx).0 == leaf_hash(
            text_bytes(tx.domain_name@),
            tx.old_pubkey@,
            if op == Op::Upd || op == Op::Buy {
                text_bytes(tx.old_target_address@)
            } else {
                text_bytes(tx.target_address@)
            },
            tx.old_price,
            tx.old_nonce,
        ),
{
    if op == Op::Upd || op == Op::Lst || op == Op::Ult {
        assert(tx.old_pubkey@ == tx.pubkey@);
    }
}

/// Whether every byte of a key is zero.
pub open spec fn all_zero(k: Seq<u8>) -> bool {
    forall|i: int| 0 <= i < k.len() ==> k[i] == 0
}

/// The rules of each operation, as the protocol states them: an operation's
/// rules hold exactly when all of its conditions do.
/// - `REG`: no previous owner, a non-zero new owner, no price before or after.
/// - `UPD`: a non-zero owner that stays the same, a new target, no price.
/// - `CHG`: two non-zero and different owners, no price before or after.
/// - `LST`: the same owner, a positive price, not listed before.
/// - `ULT`: the same owner, listed before, no price after.
/// - `BUY`: two non-zero and different owners, listed before, paid at the
///   listed price.
pub proof fn lemma_operation_rules(op: Op, tx: Transaction)
    ensures
        (rule_violation(op, tx) is None) <==> match op {
            Op::Reg => all_zero(tx.old_pubkey@) && !all_zero(tx.pubkey@) && tx.old_price == 0
                && tx.price == 0,
            Op::Upd => !all_zero(tx.pubkey@) && tx.old_pubkey@ == tx.pubkey@ && tx.old_target_address@
                != tx.target_address@ && tx.price == 0 && tx.old_price == 0,
            Op::Chg => !all_zero(tx.pubkey@) && !all_zero(tx.old_pubkey@) && tx.old_pubkey@
                != tx.pubkey@ && tx.price == 0 && tx.old_price == 0,
            Op::Lst => tx.old_pubkey@ == tx.pubkey@ && tx.price > 0 && tx.old_price == 0,
            Op::Ult => tx.old_pubkey@ == tx.pubkey@ && tx.old_price > 0 && tx.price == 0,
            Op::Buy => !all_zero(tx.pubkey@) && !all_zero(tx.old_pubkey@) && tx.old_pubkey@
                != tx.pubkey@ && tx.old_price > 0 && tx.price == tx.old_price,
        },
{
    assert(all_zero(tx.old_pubkey@) == is_zero_key(tx.old_pubkey));
    assert(all_zero(tx.pubkey@) == is_zero_key(tx.pubkey));
}

/// Which rule a transaction is refused for, operation by operation: the
/// rules are checked in the protocol's order and the first broken one is
/// reported.
/// - `REG`: empty previous owner, non-empty new owner, no previous price, no price.
/// - `UPD`: non-empty owner, unchanged owner, changed target, no price, no previous price.
/// - `CHG`: non-empty new owner, non-empty previous owner, changed owner, no price, no previous price.
/// - `LST`: unchanged owner, positive price, no previous price.
/// - `ULT`: unchanged owner, positive previous price, no price.
/// - `BUY`: non-empty new owner, non-empty previous owner, changed owner,
///   positive previous price, price equal to the previous one.
pub proof fn lemma_first_broken_rule(tx: Transaction)
    ensures
        ({
            let old_empty = all_zero(tx.old_pubkey@);
            let new_empty = all_zero(tx.pubkey@);
            let same_owner = tx.old_pubkey@ == tx.pubkey@;
            &&& (rule_violation(Op::Reg, tx) == Some(RuleViolation::OldPubkeyNotEmpty)) == !old_empty
            &&& (rule_violation(Op::Reg, tx) == Some(RuleViolation::PubkeyEmpty)) == (old_empty && new_empty)
            &&& (rule_violation(Op::Reg, tx) == Some(RuleViolation::OldPriceNotZero)) == (old_empty && !new_empty
                && tx.old_price != 0)
            &&& (rule_violation(Op::Reg, tx) == Some(RuleViolation::PriceNotZero)) == (old_empty && !new_empty
                && tx.old_price == 0 && tx.price != 0)
            &&& (rule_violation(Op::Upd, tx) == Some(RuleViolation::PubkeyEmpty)) == new_empty
            &&& (rule_violation(Op::Upd, tx) == Some(RuleViolation::PubkeysDiffer)) == (!new_empty && !same_owner)
            &&& (rule_violation(Op::Upd, tx) == Some(RuleViolation::TargetUnchanged)) == (!new_empty && same_owner
                && tx.old_target_address@ == tx.target_address@)
            &&& (rule_violation(Op::Upd, tx) == Some(RuleViolation::PriceNotZero)) == (!new_empty && same_owner
                && tx.old_target_address@ != tx.target_address@ && tx.price != 0)
            &&& (rule_violation(Op::Upd, tx) == Some(RuleViolation::OldPriceNotZero)) == (!new_empty && same_owner
                && tx.old_target_address@ != tx.target_address@ && tx.price == 0 && tx.old_price != 0)
            &&& (rule_violation(Op::Chg, tx) == Some(RuleViolation::PubkeyEmpty)) == new_empty
            &&& (rule_violation(Op::Chg, tx) == Some(RuleViolation::OldPubkeyEmpty)) == (!new_empty && old_empty)
            &&& (rule_violation(Op::Chg, tx) == Some(RuleViolation::PubkeysEqual)) == (!new_empty && !old_empty
                && same_owner)
            &&& (rule_violation(Op::Chg, tx) == Some(RuleViolation::PriceNotZero)) == (!new_empty && !old_empty
                && !same_owner && tx.price != 0)
            &&& (rule_violation(Op::Chg, tx) == Some(RuleViolation::OldPriceNotZero)) == (!new_empty && !old_empty
                && !same_owner && tx.price == 0 && tx.old_price != 0)
            &&& (rule_violation(Op::Lst, tx) == Some(RuleViolation::PubkeysDiffer)) == !same_owner
            &&& (rule_violation(Op::Lst, tx) == Some(RuleViolation::PriceZero)) == (same_owner && tx.price == 0)
            &&& (rule_violation(Op::Lst, tx) == Some(RuleViolation::OldPriceNotZero)) == (same_owner && tx.price
                != 0 && tx.old_price != 0)
            &&& (rule_violation(Op::Ult, tx) == Some(RuleViolation::PubkeysDiffer)) == !same_owner
            &&& (rule_violation(Op::Ult, tx) == Some(RuleViolation::NotListed)) == (same_owner && tx.old_price == 0)
            &&& (rule_violation(Op::Ult, tx) == Some(RuleViolation::PriceNotZero)) == (same_owner && tx.old_price
                != 0 && tx.price != 0)
            &&& (rule_violation(Op::Buy, tx) == Some(RuleViolation::PubkeyEmpty)) == new_empty
            &&& (rule_violation(Op::Buy, tx) == Some(RuleViolation::OldPubkeyEmpty)) == (!new_empty && old_empty)
            &&& (rule_violation(Op::Buy, tx) == Some(RuleViolation::PubkeysEqual)) == (!new_empty && !old_empty
                && same_owner)
            &&& (rule_violation(Op::Buy, tx) == Some(RuleViolation::NotListed)) == (!new_empty && !old_empty
                && !same_owner && tx.old_price == 0)
            &&& (rule_violation(Op::Buy, tx) == Some(RuleViolation::PriceMismatch)) == (!new_empty && !old_empty
                && !same_owner && tx.old_price != 0 && tx.old_price != tx.price)
        }),
{
    assert(all_zero(tx.old_pubkey@) == is_zero_key(tx.old_pubkey));
    assert(all_zero(tx.pubkey@) == is_zero_key(tx.pubkey));
}

/// Every signed message starts with `PiNS:1:`, the operation's name, `:`,
/// the domain and `:`, and ends with `:` and the decimal nonce. In between
/// stand the new target and `:` (for `REG`, `UPD`, `BUY`), the hexadecimal
/// of the transaction's key, and for a listing `:` and the decimal price.
pub proof fn lemma_signing_message_frame(op: Op, tx: Transaction)
    ensures
        ({
            let m = signing_message(op, tx);
            let head = seq![80u8, 105, 78, 83, 58, 49, 58] + op_name(op) + seq![58u8] + text_bytes(
                tx.domain_name@,
            ) + seq![58u8];
            let tail = seq![58u8] + decimal(tx.nonce as nat);
            let key_hex = hex_encode(tx.pubkey@);
            let middle = if op == Op::Reg || op == Op::Upd || op == Op::Buy {
                text_bytes(tx.target_address@) + seq![58u8] + key_hex
            } else if op == Op::Lst {
                key_hex + seq![58u8] + decimal(tx.price as nat)
            } else {
                key_hex
            };
            &&& m == head + middle + tail
            &&& m.take(head.len() as int) == head
            &&& m.skip(m.len() - tail.len()) == tail
        }),
{
    let m = signing_message(op, tx);
    let head = seq![80u8, 105, 78, 83, 58, 49, 58] + op_name(op) + seq![58u8] + text_bytes(
        tx.domain_name@,
    ) + seq![58u8];
    let tail = seq![58u8] + decimal(tx.nonce as nat);
    let key_hex = hex_encode(tx.pubkey@);
    let middle = if op == Op::Reg || op == Op::Upd || op == Op::Buy {
        text_bytes(tx.target_address@) + seq![58u8] + key_hex
    } else if op == Op::Lst {
        key_hex + seq![58u8] + decimal(tx.price as nat)
    } else {
        key_hex
    };
    assert(m =~= head + middle + tail);
    assert((head + middle + tail).take(head.len() as int) =~= head);
    assert((head + middle + tail).skip(m.len() - tail.len()) =~= tail);
}

/// The six operations are spelled `REG`, `UPD`, `CHG`, `LST`, `ULT` and
/// `BUY`; each spelling names its operation and nothing else names one.
pub proof fn lemma_op_names(name: Seq<u8>, op: Op)
    ensures
        op_name(Op::Reg) == seq!['R' as u8, 'E' as u8, 'G' as u8],
        op_name(Op::Upd) == seq!['U' as u8, 'P' as u8, 'D' as u8],
        op_name(Op::Chg) == seq!['C' as u8, 'H' as u8, 'G' as u8],
        op_name(Op::Lst) == seq!['L' as u8, 'S' as u8, 'T' as u8],
        op_name(Op::Ult) == seq!['U' as u8, 'L' as u8, 'T' as u8],
        op_name(Op::Buy) == seq!['B' as u8, 'U' as u8, 'Y' as u8],
        op_of(op_name(op)) == Some(op),
        op_of(name) == Some(op) ==> name == op_name(op),
{
}

/// Each refusal names a check that really fails: a key that does not
/// decode, a stale nonce, an invalid domain or address, an unknown
/// operation, a broken rule, an undecodable current owner of a `CHG`, a
/// signature that does not verify, or a proof of the wrong length or that
/// does not lead from the old leaf to the current root.
pub proof fn lemma_refusal_reasons(tx: Transaction, root: Seq<u8>)
    ensures
        ({
            let d = text_bytes(tx.domain_name@);
            let p = proof_view(tx.merkle_proof@);
            let op = op_of(text_bytes(tx.op@));
            match tx_outcome(tx, root) {
                Ok(_) => true,
                Err(TxError::InvalidPubkey) => !ed25519_key_decodes(tx.pubkey@),
                Err(TxError::ReplayAttack) => tx.nonce <= tx.old_nonce,
                Err(TxError::InvalidDomain) => !is_valid_domain_name(d),
                Err(TxError::InvalidAddress) => !is_valid_address(tx.target_address@),
                Err(TxError::UnknownOperation) => op is None,
                Err(TxError::Rule(v)) => op is Some && rule_violation(op->0, tx) == Some(v),
                Err(TxError::InvalidOldPubkey) => op == Some(Op::Chg) && !ed25519_key_decodes(
                    tx.old_pubkey@,
                ),
                Err(TxError::InvalidSignature) => op is Some && !signature_accepted(
                    signer(op->0, tx)@,
                    signing_message(op->0, tx),
                    tx.signature@,
                ),
                Err(TxError::Merkle(SmtError::ProofLength)) => p.len() != 128,
                Err(TxError::Merkle(SmtError::RootMismatch)) => op is Some && p.len() == 128
                    && crate::smt::smt_root(d, leaf_transition(op->0, tx).0, p) != root,
            }
        }),
{
    reveal(tx_outcome);
}

/// A transaction that passes every check is accepted: a decodable new key,
/// a fresh nonce, a valid domain and address, a known operation whose rules
/// hold, a decodable current owner for a `CHG`, the signature of the
/// required key, and a 128-sibling proof from the replaced leaf to the
/// current root. The new root is the new leaf on the same path.
pub proof fn lemma_acceptance_conditions(tx: Transaction, root: Seq<u8>, op: Op)
    requires
        ed25519_key_decodes(tx.pubkey@),
        tx.nonce > tx.old_nonce,
        is_valid_domain_name(text_bytes(tx.domain_name@)),
        is_valid_address(tx.target_address@),
        op_of(text_bytes(tx.op@)) == Some(op),
        rule_violation(op, tx) is None,
        op == Op::Chg ==> ed25519_key_decodes(tx.old_pubkey@),
        signature_accepted(signer(op, tx)@, signing_message(op, tx), tx.signature@),
        tx.merkle_proof@.len() == 128,
        crate::smt::smt_root(text_bytes(tx.domain_name@), leaf_transition(op, tx).0, proof_view(tx.merkle_proof@))
            == root,
    ensures
        tx_outcome(tx, root) == Ok::<Seq<u8>, TxError>(
            crate::smt::smt_root(
                text_bytes(tx.domain_name@),
                leaf_transition(op, tx).1,
                proof_view(tx.merkle_proof@),
            ),
        ),
{
    reveal(tx_outcome);
}

/// A refused batch names the first transaction refused: every earlier one
/// is accepted in turn, and the named one is refused, for the reason given,
/// against the root the earlier ones left.
pub proof fn lemma_refused_batch(txs: Seq<Transaction>, root: Seq<u8>, n: nat)
    requires
        n <= txs.len(),
        txs.len() <= usize::MAX,
        batch_fold(txs, root, n) is Err,
    ensures
        ({
            let e = batch_fold(txs, root, n)->Err_0;
            &&& e.tx_index < n
            &&& batch_fold(txs, root, e.tx_index as nat) is Ok
            &&& tx_outcome(txs[e.tx_index as int], batch_fold(txs, root, e.tx_index as nat)->Ok_0)
                == Err::<Seq<u8>, TxError>(e.error)
        }),
    decreases n,
{
    if n > 0 {
        if batch_fold(txs, root, (n - 1) as nat) is Err {
            lemma_refused_batch(txs, root, (n - 1) as nat);
        } else {
            let r = batch_fold(txs, root, (n - 1) as nat)->Ok_0;
            let o = tx_outcome(txs[n - 1], r);
            assert(o is Err);
            assert(batch_fold(txs, root, n) == Err::<Seq<u8>, BatchError>(
                BatchError { tx_index: (n - 1) as usize, error: o->Err_0 },
            ));
        }
    }
}

/// What an accepted batch guarantees: each of its transactions, taken in
/// order, is accepted against the root the previous ones left, so each has
/// a fresh nonce and a valid signature of its message.
pub proof fn lemma_accepted_batch(txs: Seq<Transaction>, root: Seq<u8>, n: nat)
    requires
        n <= txs.len(),
        batch_fold(txs, root, n) is Ok,
    ensures
        forall|i: int|
            0 <= i < n ==> {
                &&& #[trigger] batch_fold(txs, root, i as nat) is Ok
                &&& tx_outcome(txs[i], batch_fold(txs, root, i as nat)->Ok_0) == Ok::<Seq<u8>, TxError>(
                    batch_fold(txs, root, (i + 1) as nat)->Ok_0,
                )
                &&& txs[i].nonce > txs[i].old_nonce
            },
    decreases n,
{
    if n > 0 {
        lemma_accepted_batch(txs, root, (n - 1) as nat);
        assert forall|i: int| 0 <= i < n implies {
            &&& #[trigger] batch_fold(txs, root, i as nat) is Ok
            &&& tx_outcome(txs[i], batch_fold(txs, root, i as nat)->Ok_0) == Ok::<Seq<u8>, TxError>(
                batch_fold(txs, root, (i + 1) as nat)->Ok_0,
            )
            &&& txs[i].nonce > txs[i].old_nonce
        } by {
            if i == n - 1 {
                let r = batch_fold(txs, root, i as nat)->Ok_0;
                assert(tx_outcome(txs[i], r) is Ok);
                lemma_accepted_transaction(txs[i], r);
            } else {
            }
        }
    }
}

} // verus!
