//! The naming rules: which domain names and which target addresses a
//! transaction may carry.
use vstd::prelude::*;
use vstd::string::StringSliceAdditionalSpecFns;
use vstd::string::StrSliceExecFns;
use crate::crypto::{bech32_decode_hrp, bech32_hrp};

verus! {

/// A byte allowed in the name part of a domain: `a`-`z`, `0`-`9` or `-`.
pub open spec fn is_label_byte(c: u8) -> bool {
    (97 <= c <= 122) || (48 <= c <= 57) || c == 45
}

/// The name part of a domain: non-empty, made of label bytes, neither
/// starting nor ending with `-`, and without two `-` in a row.
pub open spec fn is_valid_prefix(p: Seq<u8>) -> bool {
    &&& p.len() > 0
    &&& p[0] != 45
    &&& p.last() != 45
    &&& forall|i: int| 0 <= i < p.len() ==> is_label_byte(#[trigger] p[i])
    &&& forall|i: int| 0 <= i < p.len() - 1 ==> !(#[trigger] p[i] == 45 && p[i + 1] == 45)
}

/// The zones a domain may live in: `pivx`, `private`, `secure` or `safe`.
pub open spec fn is_allowed_zone(z: Seq<u8>) -> bool {
    ||| z == seq![112u8, 105, 118, 120]
    ||| z == seq![112u8, 114, 105, 118, 97, 116, 101]
    ||| z == seq![115u8, 101, 99, 117, 114, 101]
    ||| z == seq![115u8, 97, 102, 101]
}

/// A valid domain name: at most 64 bytes, of the form `name.zone` with a
/// valid name and an allowed zone.
pub open spec fn is_valid_domain_name(b: Seq<u8>) -> bool {
    &&& b.len() <= 64
    &&& exists|d: int|
        0 < d < b.len() && #[trigger] b[d] == 46 && is_valid_prefix(b.take(d)) && is_allowed_zone(
            b.skip(d + 1),
        )
}

/// The human readable part of a target address: `ps`.
pub open spec fn is_target_hrp(hrp: Option<Seq<char>>) -> bool {
    hrp == Some(seq!['p', 's'])
}

/// A target address: a Bech32 string with the human readable part `ps`.
pub open spec fn is_valid_address(address: Seq<char>) -> bool {
    is_target_hrp(bech32_hrp(address))
}

/// The number of `.` bytes in `s`.
pub open spec fn dot_count(s: Seq<u8>) -> nat
    decreases s.len(),
{
    if s.len() == 0 {
        0
    } else {
        dot_count(s.drop_last()) + if s.last() == 46 { 1nat } else { 0nat }
    }
}

proof fn lemma_single_dot_count(b: Seq<u8>, d: int, n: int)
    requires
        0 <= d < b.len(),
        0 <= n <= b.len(),
        b[d] == 46,
        forall|j: int| 0 <= j < b.len() && j != d ==> b[j] != 46,
    ensures
        dot_count(b.take(n)) == if n > d { 1nat } else { 0nat },
    decreases n,
{
    if n > 0 {
        lemma_single_dot_count(b, d, n - 1);
        assert(b.take(n).drop_last() =~= b.take(n - 1));
    }
}

/// Zones hold no `.` and no `-`.
proof fn lemma_zone_bytes(z: Seq<u8>, k: int)
    requires
        is_allowed_zone(z),
        0 <= k < z.len(),
    ensures
        z[k] != 46,
        z[k] != 45,
{
}

/// Whether `b` from `start` on is exactly `lit`.
fn matches_at(b: &[u8], start: usize, lit: &[u8]) -> (res: bool)
    requires
        start <= b@.len(),
    ensures
        res == (b@.skip(start as int) == lit@),
{
    if b.len() - start != lit.len() {
        proof {
            assert(b@.skip(start as int).len() != lit@.len());
        }
        return false;
    }
    let blen = b.len();
    let mut i: usize = 0;
    while i < lit.len()
        invariant
            blen == b@.len(),
            start <= b@.len(),
            b@.len() - start == lit@.len(),
            i <= lit@.len(),
            forall|k: int| 0 <= k < i ==> b@[start + k] == lit@[k],
        decreases lit@.len() - i,
    {
        if b[start + i] != lit[i] {
            assert(b@.skip(start as int)[i as int] != lit@[i as int]);
            return false;
        }
        i = i + 1;
    }
    assert(b@.skip(start as int) =~= lit@);
    true
}

/// Whether `b` from `start` on is an allowed zone.
fn zone_is_allowed(b: &[u8], start: usize) -> (res: bool)
    requires
        start <= b@.len(),
    ensures
        res == is_allowed_zone(b@.skip(start as int)),
{
    let pivx: [u8; 4] = [112u8, 105, 118, 120];
    let private: [u8; 7] = [112u8, 114, 105, 118, 97, 116, 101];
    let secure: [u8; 6] = [115u8, 101, 99, 117, 114, 101];
    let safe: [u8; 4] = [115u8, 97, 102, 101];
    assert(pivx@ =~= seq![112u8, 105, 118, 120]);
    assert(private@ =~= seq![112u8, 114, 105, 118, 97, 116, 101]);
    assert(secure@ =~= seq![115u8, 101, 99, 117, 114, 101]);
    assert(safe@ =~= seq![115u8, 97, 102, 101]);
    matches_at(b, start, pivx.as_slice()) || matches_at(b, start, private.as_slice())
        || matches_at(b, start, secure.as_slice()) || matches_at(b, start, safe.as_slice())
}

/// A valid domain splits at any dot it holds: that dot is its only one,
/// the name before it is valid, the zone after it is allowed; so the
/// domain starts with no hyphen and holds no two hyphens in a row.
pub proof fn lemma_valid_domain_split(b: Seq<u8>)
    requires
        is_valid_domain_name(b),
    ensures
        dot_count(b) == 1,
        b[0] != 45,
        forall|k: int| 0 <= k < b.len() - 1 ==> !(#[trigger] b[k] == 45 && b[k + 1] == 45),
        forall|e: int|
            0 <= e < b.len() && #[trigger] b[e] == 46 ==> 0 < e && is_valid_prefix(b.take(e))
                && is_allowed_zone(b.skip(e + 1)),
{
    let d = choose|d: int|
        0 < d < b.len() && #[trigger] b[d] == 46 && is_valid_prefix(b.take(d)) && is_allowed_zone(
            b.skip(d + 1),
        );
    let p = b.take(d);
    let z = b.skip(d + 1);
    assert forall|j: int| 0 <= j < b.len() && j != d implies b[j] != 46 && (j > d ==> b[j] != 45) by {
        if j < d {
            assert(p[j] == b[j]);
            assert(is_label_byte(p[j]));
        } else {
            assert(z[j - d - 1] == b[j]);
            lemma_zone_bytes(z, j - d - 1);
        }
    }
    lemma_single_dot_count(b, d, b.len() as int);
    assert(b.take(b.len() as int) =~= b);
    assert(p[0] == b[0]);
    assert forall|k: int| 0 <= k < b.len() - 1 implies !(#[trigger] b[k] == 45 && b[k + 1] == 45) by {
        if k + 1 < d {
            assert(p[k] == b[k]);
            assert(p[k + 1] == b[k + 1]);
        }
    }
}

/// Whether `domain` is a valid domain name (see `is_valid_domain_name`).
pub fn is_domain_valid(domain: &str) -> (res: bool)
    ensures
        res == is_valid_domain_name(domain.spec_bytes()),
{
    let bytes = domain.as_bytes();
    let ghost b = bytes@;
    let ghost valid = is_valid_domain_name(b);
    proof {
        if valid {
            lemma_valid_domain_split(b);
        }
    }
    let len = bytes.len();
    if len == 0 || len > 64 {
        return false;
    }
    // Exactly one dot.
    let mut count: usize = 0;
    let mut i: usize = 0;
    while i < len
        invariant
            len == b.len(),
            b == bytes@,
            i <= len,
            count == dot_count(b.take(i as int)),
            count <= i,
        decreases len - i,
    {
        assert(b.take(i + 1).drop_last() =~= b.take(i as int));
        if bytes[i] == 46 {
            count = count + 1;
        }
        i = i + 1;
    }
    assert(b.take(len as int) =~= b);
    if count != 1 {
        return false;
    }
    // No leading hyphen and no double hyphen.
    if bytes[0] == 45 {
        return false;
    }
    let mut h: usize = 0;
    while h + 1 < len
        invariant
            len == b.len(),
            h < len,
            b == bytes@,
            b == domain.spec_bytes(),
            valid == is_valid_domain_name(b),
            valid ==> forall|k: int| 0 <= k < b.len() - 1 ==> !(#[trigger] b[k] == 45 && b[k + 1] == 45),
            forall|k: int| 0 <= k < h ==> !(#[trigger] b[k] == 45 && b[k + 1] == 45),
        decreases len - h,
    {
        if bytes[h] == 45 && bytes[h + 1] == 45 {
            return false;
        }
        h = h + 1;
    }
    // Split at the (only) dot.
    let mut e: usize = 0;
    while e < len && bytes[e] != 46
        invariant
            len == b.len(),
            b == bytes@,
            e <= len,
            forall|k: int| 0 <= k < e ==> b[k] != 46,
        decreases len - e,
    {
        e = e + 1;
    }
    if e == len {
        proof {
            lemma_no_dot_count(b, len as int);
        }
        return false;
    }
    assert(valid ==> is_valid_prefix(b.take(e as int)) && is_allowed_zone(b.skip(e + 1)));
    // The name part.
    if e == 0 || bytes[e - 1] == 45 {
        proof {
            if valid {
                assert(b.take(e as int).last() == b[e - 1]);
            }
        }
        return false;
    }
    let mut q: usize = 0;
    while q < e
        invariant
            len == b.len(),
            b == bytes@,
            b == domain.spec_bytes(),
            e < len,
            q <= e,
            valid == is_valid_domain_name(b),
            valid ==> is_valid_prefix(b.take(e as int)),
            forall|k: int| 0 <= k < q ==> is_label_byte(#[trigger] b[k]),
        decreases e - q,
    {
        let c = bytes[q];
        if !((97 <= c && c <= 122) || (48 <= c && c <= 57) || c == 45) {
            proof {
                if valid {
                    assert(b.take(e as int)[q as int] == b[q as int]);
                }
            }
            return false;
        }
        q = q + 1;
    }
    // The zone.
    let ok = zone_is_allowed(bytes, e + 1);
    proof {
        if ok {
            let p = b.take(e as int);
            assert forall|i: int| 0 <= i < p.len() implies is_label_byte(#[trigger] p[i]) by {
                assert(p[i] == b[i]);
            }
            assert forall|i: int| 0 <= i < p.len() - 1 implies !(#[trigger] p[i] == 45 && p[i + 1] == 45) by {
                assert(p[i] == b[i]);
                assert(p[i + 1] == b[i + 1]);
            }
            assert(b[e as int] == 46);
            assert(is_valid_prefix(p));
        }
    }
    ok
}

proof fn lemma_no_dot_count(b: Seq<u8>, n: int)
    requires
        0 <= n <= b.len(),
        forall|k: int| 0 <= k < b.len() ==> b[k] != 46,
    ensures
        dot_count(b.take(n)) == 0,
    decreases n,
{
    if n > 0 {
        lemma_no_dot_count(b, n - 1);
        assert(b.take(n).drop_last() =~= b.take(n - 1));
    }
}

/// A byte that may appear in a domain's name: a lower-case ASCII letter
/// `a`..`z`, an ASCII digit `0`..`9`, or `-`.
pub open spec fn is_name_char(c: u8) -> bool {
    ('a' as u8 <= c && c <= 'z' as u8) || ('0' as u8 <= c && c <= '9' as u8) || c == '-' as u8
}

/// One of the four zone names, spelled out.
pub open spec fn is_zone_name(z: Seq<u8>) -> bool {
    ||| z == seq!['p' as u8, 'i' as u8, 'v' as u8, 'x' as u8]
    ||| z == seq!['p' as u8, 'r' as u8, 'i' as u8, 'v' as u8, 'a' as u8, 't' as u8, 'e' as u8]
    ||| z == seq!['s' as u8, 'e' as u8, 'c' as u8, 'u' as u8, 'r' as u8, 'e' as u8]
    ||| z == seq!['s' as u8, 'a' as u8, 'f' as u8, 'e' as u8]
}

/// Every domain put together from a well-formed name and a zone is valid:
/// a non-empty name of lower-case letters, digits and hyphens, with no
/// hyphen at either end and no two in a row, then `.`, then `pivx`,
/// `private`, `secure` or `safe`, all in at most 64 bytes.
pub proof fn lemma_domain_from_parts(name: Seq<u8>, zone: Seq<u8>)
    requires
        name.len() > 0,
        forall|i: int| 0 <= i < name.len() ==> is_name_char(#[trigger] name[i]),
        name[0] != '-' as u8,
        name.last() != '-' as u8,
        forall|i: int| 0 <= i < name.len() - 1 ==> !(#[trigger] name[i] == '-' as u8 && name[i + 1] == '-' as u8),
        is_zone_name(zone),
        name.len() + 1 + zone.len() <= 64,
    ensures
        is_valid_domain_name(name + seq!['.' as u8] + zone),
{
    let b = name + seq!['.' as u8] + zone;
    let d = name.len() as int;
    assert(b.take(d) =~= name);
    assert(b.skip(d + 1) =~= zone);
    assert(b[d] == 46);
    assert forall|i: int| 0 <= i < name.len() implies is_label_byte(#[trigger] name[i]) by {
        assert(is_name_char(name[i]));
    }
}

/// Every valid domain is put together that way: it is at most 64 bytes
/// and holds a dot before which stands a well-formed name of lower-case
/// letters, digits and hyphens, and after which stands one of the four
/// zone names.
pub proof fn lemma_domain_parts(b: Seq<u8>)
    requires
        is_valid_domain_name(b),
    ensures
        b.len() <= 64,
        exists|d: int|
            0 < d < b.len() && #[trigger] b[d] == '.' as u8 && is_zone_name(b.skip(d + 1))
                && b[0] != '-' as u8 && b[d - 1] != '-' as u8
                && (forall|i: int| 0 <= i < d ==> is_name_char(#[trigger] b[i]))
                && (forall|i: int| 0 <= i < d - 1 ==> !(#[trigger] b[i] == '-' as u8 && b[i + 1] == '-' as u8)),
{
    let d = choose|d: int|
        0 < d < b.len() && #[trigger] b[d] == 46 && is_valid_prefix(b.take(d)) && is_allowed_zone(
            b.skip(d + 1),
        );
    let p = b.take(d);
    assert(p[0] == b[0]);
    assert(p.last() == b[d - 1]);
    assert forall|i: int| 0 <= i < d implies is_name_char(#[trigger] b[i]) by {
        assert(p[i] == b[i]);
        assert(is_label_byte(p[i]));
    }
    assert forall|i: int| 0 <= i < d - 1 implies !(#[trigger] b[i] == '-' as u8 && b[i + 1] == '-' as u8) by {
        assert(p[i] == b[i]);
        assert(p[i + 1] == b[i + 1]);
    }
    assert(is_zone_name(b.skip(d + 1)));
}

/// A target address is valid exactly when it decodes as Bech32 with the
/// human readable part `ps`, upper-case input being decoded to lower case.
pub proof fn lemma_address_rule(address: Seq<char>)
    ensures
        is_valid_address(address) <==> bech32_hrp(address) == Some(seq!['p', 's']),
{
}

/// Whether a decoded human readable part is the one of target addresses.
pub fn is_target_prefix(hrp: &Option<String>) -> (res: bool)
    ensures
        res == is_target_hrp(match hrp {
            Some(h) => Some(h@),
            None => None,
        }),
{
    match hrp {
        Some(h) => {
            let s = h.as_str();
            if s.unicode_len() != 2 {
                return false;
            }
            let ok = s.get_char(0) == 'p' && s.get_char(1) == 's';
            proof {
                if ok {
                    assert(s@ =~= seq!['p', 's']);
                } else {
                    assert(s@ != seq!['p', 's']);
                }
            }
            ok
        },
        None => false,
    }
}

/// Whether `address` decodes as Bech32 with the human readable part `ps`.
pub fn is_address_valid(address: &str) -> (res: bool)
    ensures
        res == is_valid_address(address@),
{
    let hrp = bech32_decode_hrp(address);
    is_target_prefix(&hrp)
}

} // verus!
