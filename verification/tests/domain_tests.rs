use bech32::{ToBase32, Variant};
use pins_prover::domain::{is_address_valid, is_domain_valid, is_target_prefix};

#[test]
fn accepts_domains_in_each_zone() {
    for d in ["alice.pivx", "a.private", "x-y.secure", "abc123.safe", "0.pivx"] {
        assert!(is_domain_valid(d), "{}", d);
    }
}

#[test]
fn rejects_empty_and_dotless() {
    assert!(!is_domain_valid(""));
    assert!(!is_domain_valid("alice"));
    assert!(!is_domain_valid("pivx"));
}

#[test]
fn rejects_bad_name_parts() {
    assert!(!is_domain_valid(".pivx"));
    assert!(!is_domain_valid("-alice.pivx"));
    assert!(!is_domain_valid("alice-.pivx"));
    assert!(!is_domain_valid("al--ice.pivx"));
    assert!(!is_domain_valid("Alice.pivx"));
    assert!(!is_domain_valid("al_ice.pivx"));
    assert!(!is_domain_valid("alïce.pivx"));
}

#[test]
fn rejects_bad_zones_and_extra_dots() {
    assert!(!is_domain_valid("alice.com"));
    assert!(!is_domain_valid("alice.PIVX"));
    assert!(!is_domain_valid("alice."));
    assert!(!is_domain_valid("a.b.pivx"));
    assert!(!is_domain_valid("alice.pivx."));
    assert!(!is_domain_valid("alice.pi-vx"));
}

#[test]
fn length_limit_is_64_bytes() {
    let ok = format!("{}.pivx", "a".repeat(59));
    assert_eq!(ok.len(), 64);
    assert!(is_domain_valid(&ok));
    let long = format!("{}.pivx", "a".repeat(60));
    assert_eq!(long.len(), 65);
    assert!(!is_domain_valid(&long));
}

fn address(hrp: &str) -> String {
    bech32::encode(hrp, vec![0x00u8, 0x14, 0x75, 0x1e].to_base32(), Variant::Bech32).unwrap()
}

#[test]
fn accepts_ps_addresses() {
    assert!(is_address_valid(&address("ps")));
    assert!(is_address_valid(&address("ps").to_uppercase()));
}

#[test]
fn rejects_other_prefixes() {
    assert!(!is_address_valid(&address("pts")));
    assert!(!is_address_valid(&address("bc")));
    assert!(!is_address_valid(&address("psx")));
    assert!(!is_address_valid(&address("p")));
}

#[test]
fn rejects_malformed_addresses() {
    let a = address("ps");
    let mut broken = a.clone();
    let last = broken.pop().unwrap();
    broken.push(if last == 'q' { 'p' } else { 'q' });
    assert!(!is_address_valid(&broken));
    assert!(!is_address_valid(""));
    assert!(!is_address_valid("ps"));
    assert!(!is_address_valid("not an address"));
}

#[test]
fn target_prefix_is_ps() {
    assert!(is_target_prefix(&Some("ps".to_string())));
    assert!(!is_target_prefix(&Some("pts".to_string())));
    assert!(!is_target_prefix(&Some("PS".to_string())));
    assert!(!is_target_prefix(&None));
}
