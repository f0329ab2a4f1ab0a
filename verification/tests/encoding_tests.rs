use pins_prover::encoding::{push_u64_bytes, push_u64_le, push_slice, write_hex};
use pins_prover::report::FinalResultJson;

#[test]
fn write_hex_encodes_high_nibble_first() {
    let mut buf = [b'?'; 8];
    write_hex(&mut buf, &[0x00, 0xab, 0xff]);
    assert_eq!(&buf, b"00abff??");
}

#[test]
fn write_hex_of_nothing_leaves_buffer() {
    let mut buf = [9u8; 3];
    write_hex(&mut buf, &[]);
    assert_eq!(buf, [9u8; 3]);
}

#[test]
fn write_hex_full_key() {
    let key: Vec<u8> = (0u8..32).collect();
    let mut buf = [0u8; 64];
    write_hex(&mut buf, &key);
    assert_eq!(std::str::from_utf8(&buf).unwrap(), hex::encode(&key));
}

#[test]
fn push_u64_bytes_zero() {
    let mut v = b"n:".to_vec();
    push_u64_bytes(&mut v, 0);
    assert_eq!(v, b"n:0".to_vec());
}

#[test]
fn push_u64_bytes_values() {
    for (n, s) in [(7u64, "7"), (10, "10"), (120, "120"), (1_700_000_000, "1700000000")] {
        let mut v = Vec::new();
        push_u64_bytes(&mut v, n);
        assert_eq!(v, s.as_bytes().to_vec());
    }
}

#[test]
fn push_u64_bytes_max() {
    let mut v = Vec::new();
    push_u64_bytes(&mut v, u64::MAX);
    assert_eq!(v, b"18446744073709551615".to_vec());
}

#[test]
fn decimal_reads_back() {
    for n in [0u64, 1, 9, 10, 99, 100, 12345, u64::MAX] {
        let mut v = Vec::new();
        push_u64_bytes(&mut v, n);
        let back: u64 = std::str::from_utf8(&v).unwrap().parse().unwrap();
        assert_eq!(back, n);
        assert!(v.len() == 1 || v[0] != b'0');
    }
}

#[test]
fn push_u64_le_matches_std() {
    let mut v = vec![1u8];
    push_u64_le(&mut v, 0x0102030405060708);
    let mut expected = vec![1u8];
    expected.extend_from_slice(&0x0102030405060708u64.to_le_bytes());
    assert_eq!(v, expected);
}

#[test]
fn push_slice_appends() {
    let mut v = vec![1u8, 2];
    push_slice(&mut v, &[3, 4]);
    assert_eq!(v, vec![1, 2, 3, 4]);
}

#[test]
fn hex_of_distinct_keys_differs() {
    let mut a = [0u8; 4];
    let mut b = [0u8; 4];
    write_hex(&mut a, &[0x12, 0x34]);
    write_hex(&mut b, &[0x21, 0x43]);
    assert_ne!(a, b);
}

#[test]
fn final_result_json_roots_are_prefixed_hex() {
    let old_root = [0u8; 32];
    let mut new_root = [0u8; 32];
    new_root[0] = 0xde;
    new_root[31] = 0x0f;
    let r = FinalResultJson::new(&old_root, &new_root, 4242);
    assert_eq!(r.old_root, format!("0x{}", "00".repeat(32)));
    assert_eq!(r.new_root, format!("0x{}", hex::encode(new_root)));
    assert!(r.new_root.starts_with("0xde"));
    assert!(r.new_root.ends_with("0f"));
    assert_eq!(r.end_block_height, 4242);
}

#[test]
fn public_values_are_three_abi_words() {
    let r = pins_prover::transaction::BatchResult {
        old_root: [0x11u8; 32],
        new_root: [0x22u8; 32],
        end_block_height: 0x01020304,
    };
    let bytes = r.abi_encode();
    let mut expected = vec![0x11u8; 32];
    expected.extend_from_slice(&[0x22u8; 32]);
    expected.extend_from_slice(&[0u8; 28]);
    expected.extend_from_slice(&[1, 2, 3, 4]);
    assert_eq!(bytes.len(), 96);
    assert_eq!(bytes, expected);
}
