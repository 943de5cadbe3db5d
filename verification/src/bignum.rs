//! Big-endian byte encodings of unsigned integers of arbitrary size, and the
//! arithmetic byte operators built on them.
use vstd::prelude::*;

verus! {

/// The unsigned integer a byte sequence denotes when read big-endian.
pub open spec fn be_value(s: Seq<u8>) -> nat
    decreases s.len(),
{
    if s.len() == 0 {
        0
    } else {
        (be_value(s.drop_last()) * 256 + s.last()) as nat
    }
}

/// The big-endian digits of `n` with no leading zero; empty for zero.
pub open spec fn be_digits(n: nat) -> Seq<u8>
    decreases n,
{
    if n == 0 {
        Seq::empty()
    } else {
        be_digits(n / 256).push((n % 256) as u8)
    }
}

/// The shortest big-endian encoding of `n`, a single zero byte for zero.
pub open spec fn be_encode(n: nat) -> Seq<u8> {
    if n == 0 {
        seq![0u8]
    } else {
        be_digits(n)
    }
}

/// Whether `s` is a shortest big-endian encoding: non-empty, and with no
/// leading zero byte unless it is the single byte zero.
pub open spec fn canonical_be(s: Seq<u8>) -> bool {
    s.len() >= 1 && (s.len() > 1 ==> s[0] != 0)
}

/// A byte sequence with a nonzero leading byte denotes a positive value.
proof fn lemma_be_value_pos(s: Seq<u8>)
    requires
        s.len() >= 1,
        s[0] != 0,
    ensures
        be_value(s) > 0,
    decreases s.len(),
{
    if s.len() > 1 {
        lemma_be_value_pos(s.drop_last());
    }
}

/// The digits of a positive `n` start with a nonzero byte and denote `n`.
proof fn lemma_be_digits_props(n: nat)
    ensures
        be_value(be_digits(n)) == n,
        n > 0 ==> be_digits(n).len() >= 1 && be_digits(n)[0] != 0,
    decreases n,
{
    if n > 0 {
        lemma_be_digits_props(n / 256);
        let s = be_digits(n);
        assert(s.drop_last() =~= be_digits(n / 256));
        if n / 256 == 0 {
            assert(be_digits(n / 256) == Seq::<u8>::empty());
            assert(n % 256 == n);
            assert(s[0] == (n % 256) as u8);
        } else {
            assert(s[0] == be_digits(n / 256)[0]);
        }
        vstd::arithmetic::div_mod::lemma_fundamental_div_mod(n as int, 256);
        assert(be_value(s) == be_value(be_digits(n / 256)) * 256 + (n % 256));
    }
}

/// `be_encode` produces a canonical encoding whose value is the encoded
/// number.
pub proof fn lemma_be_encode_canonical(n: nat)
    ensures
        canonical_be(be_encode(n)),
        be_value(be_encode(n)) == n,
{
    if n == 0 {
        assert(be_encode(0).drop_last() =~= Seq::<u8>::empty());
        assert(be_value(Seq::<u8>::empty()) == 0);
    } else {
        lemma_be_digits_props(n);
    }
}

/// A canonical encoding is unique: any canonical sequence denoting `n` is
/// exactly `be_encode(n)`.
pub proof fn lemma_canonical_be_unique(s: Seq<u8>)
    requires
        canonical_be(s),
    ensures
        s == be_encode(be_value(s)),
    decreases s.len(),
{
    let n = be_value(s);
    if s.len() == 1 {
        assert(s.drop_last() =~= Seq::<u8>::empty());
        assert(n == s[0]);
        if n == 0 {
            assert(s =~= be_encode(0));
        } else {
            assert(n / 256 == 0);
            assert(be_digits(n / 256) == Seq::<u8>::empty());
            assert(be_digits(n) == Seq::<u8>::empty().push((n % 256) as u8));
            assert(n % 256 == n);
            assert(s =~= be_encode(n));
        }
    } else {
        let pre = s.drop_last();
        assert(pre[0] == s[0]);
        lemma_be_value_pos(pre);
        lemma_canonical_be_unique(pre);
        assert(n == be_value(pre) * 256 + s.last());
        assert(n / 256 == be_value(pre) && n % 256 == s.last()) by (nonlinear_arith)
            requires
                n == be_value(pre) * 256 + s.last(),
                0 <= s.last() < 256,
        ;
        assert(n > 0);
        assert(be_digits(n) == be_digits(n / 256).push((n % 256) as u8));
        assert(s =~= pre.push(s.last()));
        assert(be_encode(n / 256) == be_digits(n / 256));
        assert(s =~= be_encode(n));
    }
}

/// 256 raised to the power `k`.
pub open spec fn pow256(k: nat) -> nat
    decreases k,
{
    if k == 0 {
        1
    } else {
        256 * pow256((k - 1) as nat)
    }
}

/// The fixed eight-byte big-endian encoding of a 64-bit value.
pub open spec fn be_fixed8(v: u64) -> Seq<u8> {
    Seq::new(8, |i: int| (((v as nat) / pow256((7 - i) as nat)) % 256) as u8)
}

/// Encodes a 64-bit value as exactly eight big-endian bytes.
pub fn u64_be_bytes(v: u64) -> (r: Vec<u8>)
    ensures
        r@ == be_fixed8(v),
        r@.len() == 8,
{
    let mut r: Vec<u8> = Vec::new();
    r.push(((v / 72057594037927936u64) % 256) as u8);
    r.push(((v / 281474976710656u64) % 256) as u8);
    r.push(((v / 1099511627776u64) % 256) as u8);
    r.push(((v / 4294967296u64) % 256) as u8);
    r.push(((v / 16777216u64) % 256) as u8);
    r.push(((v / 65536u64) % 256) as u8);
    r.push(((v / 256u64) % 256) as u8);
    r.push((v % 256) as u8);
    proof {
        assert(pow256(0) == 1);
        assert(pow256(1) == 256);
        assert(pow256(2) == 65536);
        assert(pow256(3) == 16777216);
        assert(pow256(4) == 4294967296);
        assert(pow256(5) == 1099511627776);
        assert(pow256(6) == 281474976710656);
        assert(pow256(7) == 72057594037927936);
        assert(r@.len() == 8);
        assert((v as nat) / 1 == v as nat);
        assert(r@[0] == be_fixed8(v)[0]);
        assert(r@[1] == be_fixed8(v)[1]);
        assert(r@[2] == be_fixed8(v)[2]);
        assert(r@[3] == be_fixed8(v)[3]);
        assert(r@[4] == be_fixed8(v)[4]);
        assert(r@[5] == be_fixed8(v)[5]);
        assert(r@[6] == be_fixed8(v)[6]);
        assert(r@[7] == be_fixed8(v)[7]);
        assert(r@ =~= be_fixed8(v));
    }
    r
}

/// Relies on num_bigint::BigUint: `from_bytes_be` reads bytes as a big-endian
/// unsigned integer, `+` is exact arbitrary-precision addition, and
/// `to_bytes_be` returns the shortest big-endian encoding, a single zero byte
/// for zero.
#[verifier::external_body]
pub(crate) fn be_add(a: &Vec<u8>, b: &Vec<u8>) -> (r: Vec<u8>)
    ensures
        be_value(r@) == be_value(a@) + be_value(b@),
        canonical_be(r@),
{
    let pa = num_bigint::BigUint::from_bytes_be(a);
    let pb = num_bigint::BigUint::from_bytes_be(b);
    (pa + pb).to_bytes_be()
}

/// Relies on num_bigint::BigUint: as `be_add`, with `*` the exact
/// arbitrary-precision multiplication.
#[verifier::external_body]
pub(crate) fn be_mul(a: &Vec<u8>, b: &Vec<u8>) -> (r: Vec<u8>)
    ensures
        be_value(r@) == be_value(a@) * be_value(b@),
        canonical_be(r@),
{
    let pa = num_bigint::BigUint::from_bytes_be(a);
    let pb = num_bigint::BigUint::from_bytes_be(b);
    (pa * pb).to_bytes_be()
}

/// Relies on num_traits::CheckedSub for num_bigint::BigUint: `checked_sub`
/// returns the difference exactly when the minuend is at least the
/// subtrahend, and None otherwise.
#[verifier::external_body]
pub(crate) fn be_checked_sub(a: &Vec<u8>, b: &Vec<u8>) -> (r: Option<Vec<u8>>)
    ensures
        r is Some <==> be_value(a@) >= be_value(b@),
        r is Some ==> be_value(r.unwrap()@) == be_value(a@) - be_value(b@) && canonical_be(
            r.unwrap()@,
        ),
{
    let pa = num_bigint::BigUint::from_bytes_be(a);
    let pb = num_bigint::BigUint::from_bytes_be(b);
    match num_traits::CheckedSub::checked_sub(&pa, &pb) {
        Some(d) => Some(d.to_bytes_be()),
        None => None,
    }
}

} // verus!
