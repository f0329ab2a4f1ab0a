//! Byte encodings used by the signed messages and the leaf preimages:
//! lower-case hexadecimal, unsigned decimal, and little-endian `u64`.
use vstd::prelude::*;

verus! {

/// The ASCII character of the lower-case hexadecimal digit `d` (`d < 16`).
pub open spec fn hex_char_spec(d: int) -> u8 {
    if d < 10 { (48 + d) as u8 } else { (87 + d) as u8 }
}

/// Lower-case hexadecimal of `bytes`: two characters per byte, the high
/// nibble first.
pub open spec fn hex_encode(bytes: Seq<u8>) -> Seq<u8> {
    Seq::new(
        (2 * bytes.len()) as nat,
        |i: int|
            if i % 2 == 0 {
                hex_char_spec((bytes[i / 2] / 16) as int)
            } else {
                hex_char_spec((bytes[i / 2] % 16) as int)
            },
    )
}

/// The decimal digits of `n`, most significant first, without leading zeros
/// (`0` is written as a single `0`).
pub open spec fn decimal(n: nat) -> Seq<u8>
    decreases n,
{
    if n < 10 {
        seq![(48 + n) as u8]
    } else {
        decimal(n / 10).push((48 + n % 10) as u8)
    }
}

/// The value that a string of ASCII decimal digits stands for.
pub open spec fn decimal_value(digits: Seq<u8>) -> int
    decreases digits.len(),
{
    if digits.len() == 0 {
        0
    } else {
        10 * decimal_value(digits.drop_last()) + (digits.last() - 48)
    }
}

/// The `n` least significant base-256 digits of `v`, least significant first.
pub open spec fn le_bytes(v: nat, n: nat) -> Seq<u8>
    decreases n,
{
    if n == 0 {
        seq![]
    } else {
        seq![(v % 256) as u8] + le_bytes(v / 256, (n - 1) as nat)
    }
}

/// `u64::to_le_bytes` as a sequence.
pub open spec fn u64_le(v: u64) -> Seq<u8> {
    le_bytes(v as nat, 8)
}

/// The hexadecimal character of a nibble.
fn hex_char(d: u8) -> (c: u8)
    requires
        d < 16,
    ensures
        c == hex_char_spec(d as int),
{
    if d < 10 { 48 + d } else { 87 + d }
}

/// Writes the lower-case hexadecimal of `bytes` at the start of `buf`,
/// leaving the rest of `buf` as it was.
pub fn write_hex(buf: &mut [u8], bytes: &[u8])
    requires
        2 * bytes@.len() <= old(buf)@.len(),
    ensures
        final(buf)@ == hex_encode(bytes@) + old(buf)@.skip(2 * bytes@.len() as int),
{
    let n = bytes.len();
    let blen = buf.len();
    let ghost orig = buf@;
    let mut i: usize = 0;
    while i < n
        invariant
            n == bytes@.len(),
            blen == orig.len(),
            2 * n <= orig.len(),
            i <= n,
            buf@.len() == orig.len(),
            forall|k: int| 0 <= k < 2 * i ==> buf@[k] == #[trigger] hex_encode(bytes@)[k],
            forall|k: int| 2 * i <= k < orig.len() ==> buf@[k] == orig[k],
        decreases n - i,
    {
        let b = bytes[i];
        assert((b >> 4u8) == b / 16 && (b & 0xfu8) == b % 16) by (bit_vector);
        let hi = hex_char(b >> 4);
        let lo = hex_char(b & 0xf);
        buf[2 * i] = hi;
        buf[2 * i + 1] = lo;
        proof {
            assert(hex_encode(bytes@)[2 * i as int] == hi);
            assert(hex_encode(bytes@)[2 * i + 1] == lo);
        }
        i = i + 1;
    }
    assert(buf@ =~= hex_encode(bytes@) + orig.skip(2 * n as int));
}

/// Appends `bytes` to `buf`.
pub fn push_slice(buf: &mut Vec<u8>, bytes: &[u8])
    ensures
        final(buf)@ == old(buf)@ + bytes@,
{
    let ghost orig = buf@;
    let mut i: usize = 0;
    while i < bytes.len()
        invariant
            i <= bytes@.len(),
            buf@ == orig + bytes@.take(i as int),
        decreases bytes@.len() - i,
    {
        buf.push(bytes[i]);
        i = i + 1;
        assert(buf@ =~= orig + bytes@.take(i as int));
    }
    assert(bytes@.take(i as int) =~= bytes@);
}

/// `10^k`.
pub open spec fn pow10(k: nat) -> nat
    decreases k,
{
    if k == 0 { 1 } else { 10 * pow10((k - 1) as nat) }
}

/// The digits of a positive `n`, without the single `0` of `decimal(0)`.
spec fn positive_digits(n: nat) -> Seq<u8>
    decreases n,
{
    if n == 0 {
        seq![]
    } else {
        positive_digits(n / 10).push((48 + n % 10) as u8)
    }
}

proof fn lemma_positive_digits(n: nat)
    requires
        n > 0,
    ensures
        positive_digits(n) == decimal(n),
    decreases n,
{
    if n >= 10 {
        lemma_positive_digits(n / 10);
    } else {
        assert(positive_digits(n / 10) =~= seq![]);
    }
}

proof fn lemma_div10_below(v: nat, p: nat)
    requires
        v < 10 * p,
    ensures
        v / 10 < p,
{
    assert(v / 10 < p) by (nonlinear_arith)
        requires
            v < 10 * p,
    ;
}

/// Appends the decimal digits of `val` to `buf`.
pub fn push_u64_bytes(buf: &mut Vec<u8>, val: u64)
    ensures
        final(buf)@ == old(buf)@ + decimal(val as nat),
{
    if val == 0 {
        buf.push(48u8);
        assert(decimal(0) =~= seq![48u8]);
        return;
    }
    let ghost orig_val = val as nat;
    let mut tmp: [u8; 20] = [0u8; 20];
    let mut idx: usize = 20;
    let mut v: u64 = val;
    assert(pow10(20) == 100000000000000000000nat) by {
        reveal_with_fuel(pow10, 21);
    }
    while v > 0
        invariant
            idx <= 20,
            (v as nat) < pow10(idx as nat),
            positive_digits(orig_val) == positive_digits(v as nat) + tmp@.subrange(idx as int, 20),
        decreases v,
    {
        proof {
            if idx == 0 {
                assert(false);
            }
            lemma_div10_below(v as nat, pow10((idx - 1) as nat));
        }
        let ghost before = tmp@;
        idx = idx - 1;
        let d: u8 = (v % 10) as u8;
        tmp[idx] = 48 + d;
        let ghost vv = v as nat;
        v = v / 10;
        proof {
            assert(tmp@.subrange(idx as int, 20) =~= seq![(48 + vv % 10) as u8] + before.subrange(idx + 1, 20));
            assert(positive_digits(vv) == positive_digits(v as nat).push((48 + vv % 10) as u8));
            assert(positive_digits(v as nat) + tmp@.subrange(idx as int, 20)
                =~= positive_digits(v as nat).push((48 + vv % 10) as u8) + before.subrange(idx + 1, 20));
        }
    }
    proof {
        assert(positive_digits(0) =~= seq![]);
        lemma_positive_digits(orig_val);
        assert(tmp@.subrange(idx as int, 20) =~= decimal(orig_val));
    }
    let ghost orig = buf@;
    let mut k: usize = idx;
    while k < 20
        invariant
            idx <= k <= 20,
            buf@ == orig + tmp@.subrange(idx as int, k as int),
        decreases 20 - k,
    {
        buf.push(tmp[k]);
        k = k + 1;
        assert(buf@ =~= orig + tmp@.subrange(idx as int, k as int));
    }
}

/// Appends `u64::to_le_bytes(val)` to `buf`.
pub fn push_u64_le(buf: &mut Vec<u8>, val: u64)
    ensures
        final(buf)@ == old(buf)@ + u64_le(val),
{
    let ghost orig = buf@;
    let mut v: u64 = val;
    let mut i: usize = 0;
    while i < 8
        invariant
            i <= 8,
            orig + le_bytes(val as nat, 8) == buf@ + le_bytes(v as nat, (8 - i) as nat),
        decreases 8 - i,
    {
        let ghost before = buf@;
        let ghost vv = v as nat;
        buf.push((v % 256) as u8);
        v = v / 256;
        i = i + 1;
        proof {
            assert(le_bytes(vv, (8 - (i - 1)) as nat) == seq![(vv % 256) as u8] + le_bytes(v as nat, (8 - i) as nat));
            assert(buf@ + le_bytes(v as nat, (8 - i) as nat) =~= before + le_bytes(vv, (8 - (i - 1)) as nat));
        }
    }
    assert(le_bytes(v as nat, 0) =~= seq![]);
    assert(buf@ =~= orig + le_bytes(val as nat, 8));
}


/// The decimal form is canonical: it is made of ASCII digits, starts with
/// `0` only for zero, and reads back as the number written.
pub proof fn lemma_decimal_canonical(n: nat)
    ensures
        decimal(n).len() >= 1,
        forall|i: int| 0 <= i < decimal(n).len() ==> 48 <= #[trigger] decimal(n)[i] <= 57,
        decimal(n)[0] == 48 ==> n == 0,
        decimal_value(decimal(n)) == n,
    decreases n,
{
    if n >= 10 {
        lemma_decimal_canonical(n / 10);
        let s = decimal(n / 10);
        assert(decimal(n).drop_last() =~= s);
        assert(decimal(n)[0] == s[0]);
        assert(decimal(n).last() == 48 + n % 10);
        vstd::arithmetic::div_mod::lemma_fundamental_div_mod(n as int, 10);
    } else {
        assert(decimal(n).drop_last() =~= Seq::<u8>::empty());
        assert(decimal_value(Seq::<u8>::empty()) == 0);
    }
}

proof fn lemma_hex_char_injective(x: int, y: int)
    requires
        0 <= x < 16,
        0 <= y < 16,
        hex_char_spec(x) == hex_char_spec(y),
    ensures
        x == y,
{
}

/// Distinct byte strings have distinct hexadecimal forms, so a hex-encoded
/// key in a message determines the key.
pub proof fn lemma_hex_encode_injective(a: Seq<u8>, b: Seq<u8>)
    requires
        hex_encode(a) == hex_encode(b),
    ensures
        a == b,
{
    assert(hex_encode(a).len() == 2 * a.len());
    assert(hex_encode(b).len() == 2 * b.len());
    assert(a.len() == b.len());
    assert forall|i: int| 0 <= i < a.len() implies a[i] == b[i] by {
        assert(hex_encode(a)[2 * i] == hex_encode(b)[2 * i]);
        assert(hex_encode(a)[2 * i + 1] == hex_encode(b)[2 * i + 1]);
        assert((2 * i) / 2 == i && (2 * i) % 2 == 0);
        assert((2 * i + 1) / 2 == i && (2 * i + 1) % 2 == 1);
        assert(hex_encode(a)[2 * i] == hex_char_spec((a[i] / 16) as int));
        assert(hex_encode(b)[2 * i] == hex_char_spec((b[i] / 16) as int));
        assert(hex_encode(a)[2 * i + 1] == hex_char_spec((a[i] % 16) as int));
        assert(hex_encode(b)[2 * i + 1] == hex_char_spec((b[i] % 16) as int));
        lemma_hex_char_injective((a[i] / 16) as int, (b[i] / 16) as int);
        lemma_hex_char_injective((a[i] % 16) as int, (b[i] % 16) as int);
    }
    assert(a =~= b);
}


/// The number that little-endian base-256 digits stand for.
pub open spec fn le_value(s: Seq<u8>) -> nat
    decreases s.len(),
{
    if s.len() == 0 {
        0
    } else {
        s[0] as nat + 256 * le_value(s.drop_first())
    }
}

/// `u64_le` writes eight bytes, least significant first, that read back
/// as the number written.
pub proof fn lemma_u64_le_value(v: u64)
    ensures
        u64_le(v).len() == 8,
        le_value(u64_le(v)) == v,
{
    lemma_le_bytes_value(v as nat, 8);
    assert(pow256(8) == 18446744073709551616nat) by {
        reveal_with_fuel(pow256, 9);
    }
    vstd::arithmetic::div_mod::lemma_small_mod(v as nat, pow256(8));
}

/// `256^k`.
pub open spec fn pow256(k: nat) -> nat
    decreases k,
{
    if k == 0 { 1 } else { 256 * pow256((k - 1) as nat) }
}

/// `le_bytes(v, n)` holds `n` bytes.
pub proof fn lemma_le_bytes_len(v: nat, n: nat)
    ensures
        le_bytes(v, n).len() == n,
    decreases n,
{
    if n > 0 {
        lemma_le_bytes_len(v / 256, (n - 1) as nat);
    }
}

proof fn lemma_le_bytes_value(v: nat, n: nat)
    ensures
        le_bytes(v, n).len() == n,
        le_value(le_bytes(v, n)) == v % pow256(n),
    decreases n,
{
    if n > 0 {
        lemma_le_bytes_value(v / 256, (n - 1) as nat);
        let s = le_bytes(v, n);
        assert(s.drop_first() =~= le_bytes(v / 256, (n - 1) as nat));
        let p = pow256((n - 1) as nat);
        assert(p > 0) by {
            lemma_pow256_positive((n - 1) as nat);
        }
        // v % (256 p) == v % 256 + 256 * ((v / 256) % p)
        vstd::arithmetic::div_mod::lemma_breakdown(v as int, 256, p as int);
        assert(pow256(n) == 256 * p);
    }
}

proof fn lemma_pow256_positive(k: nat)
    ensures
        pow256(k) > 0,
    decreases k,
{
    if k > 0 {
        lemma_pow256_positive((k - 1) as nat);
    }
}

/// The value of a hexadecimal digit character.
pub open spec fn hex_digit_value(c: u8) -> int {
    if c <= '9' as u8 { c - '0' as u8 } else { c - 'a' as u8 + 10 }
}

/// The hexadecimal form uses only `0`..`9` and `a`..`f`, two characters
/// per byte, and each pair reads back as its byte, high digit first.
pub proof fn lemma_hex_encode_reads_back(bytes: Seq<u8>)
    ensures
        hex_encode(bytes).len() == 2 * bytes.len(),
        forall|i: int|
            0 <= i < hex_encode(bytes).len() ==> {
                let c = #[trigger] hex_encode(bytes)[i];
                ('0' as u8 <= c <= '9' as u8) || ('a' as u8 <= c <= 'f' as u8)
            },
        forall|i: int|
            0 <= i < bytes.len() ==> 16 * hex_digit_value(hex_encode(bytes)[2 * i]) + hex_digit_value(
                hex_encode(bytes)[2 * i + 1],
            ) == #[trigger] bytes[i],
{
    let h = hex_encode(bytes);
    assert forall|i: int| 0 <= i < bytes.len() implies 16 * hex_digit_value(h[2 * i]) + hex_digit_value(
        h[2 * i + 1],
    ) == #[trigger] bytes[i] by {
        assert((2 * i) / 2 == i && (2 * i) % 2 == 0);
        assert((2 * i + 1) / 2 == i && (2 * i + 1) % 2 == 1);
        assert(h[2 * i] == hex_char_spec((bytes[i] / 16) as int));
        assert(h[2 * i + 1] == hex_char_spec((bytes[i] % 16) as int));
    }
}

} // verus!
