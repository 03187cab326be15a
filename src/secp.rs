//! The Secp256k1 half of the cross-group proof: per-bit Pedersen
//! commitments `bit·2^i·G + r·H`, where `H` is the unspendable point of
//! BIP-341, whose discrete logarithm nobody knows.
//!
//! Scalars are held as 32 big-endian bytes, points as 33-byte compressed
//! encodings; the arithmetic is done by secp256k1.
use vstd::prelude::*;

use crate::bytes::{bytes_eq, push_all};
use crate::hash::{sha256, sha256_of};
use crate::scalar::{be_value, pow2, secp_order};
use vstd::arithmetic::div_mod::{lemma_fundamental_div_mod, lemma_mod_multiples_basic};

use crate::dleq::bit_at;
use crate::dleq::get_bit;
use vstd::pervasive::unreached;
use crate::session::random_secp_secret;

verus! {

/// The compressed encoding of `a·P`, where `P` is encoded by `p`.
pub uninterp spec fn secp_mul_point(p: Seq<u8>, a: nat) -> Seq<u8>;

/// The compressed encoding of the sum of two encoded points.
pub uninterp spec fn secp_sum_point(p: Seq<u8>, q: Seq<u8>) -> Seq<u8>;

/// Whether `p` decodes to a Secp256k1 point.
pub uninterp spec fn secp_decodes(p: Seq<u8>) -> bool;

/// Relies on secp256k1's `PublicKey::from_slice`: whether `p` is a point.
#[verifier::external_body]
pub fn secp_point_valid(p: &[u8; 33]) -> (r: bool)
    ensures
        r == secp_decodes(p@),
{
    secp256k1::PublicKey::from_slice(p).is_ok()
}

/// Relies on secp256k1's `SecretKey::from_secret_bytes` and `mul_tweak`:
/// the product modulo the order of two non-zero scalars below the order.
#[verifier::external_body]
pub fn secp_scalar_mul(a: &[u8; 32], b: &[u8; 32]) -> (r: Option<[u8; 32]>)
    ensures
        (r is Some) == (0 < be_value(a@) < secp_order() && 0 < be_value(b@) < secp_order()),
        r is Some ==> be_value(r->0@) == (be_value(a@) * be_value(b@)) % secp_order(),
{
    let tweak = secp256k1::Scalar::from_be_bytes(*b).ok()?;
    let sk = secp256k1::SecretKey::from_secret_bytes(*a).ok()?;
    Some(sk.mul_tweak(&tweak).ok()?.to_secret_bytes())
}

/// Whether two encodings decode to points whose sum is a point (not infinity).
pub uninterp spec fn secp_combines(p: Seq<u8>, q: Seq<u8>) -> bool;

/// Relies on secp256k1's `SecretKey::from_secret_bytes` and `add_tweak`:
/// the sum modulo the order of a valid secret and a scalar below the order,
/// refused where it is zero.
#[verifier::external_body]
pub fn secp_scalar_add(a: &[u8; 32], b: &[u8; 32]) -> (r: Option<[u8; 32]>)
    ensures
        (r is Some) == (0 < be_value(a@) < secp_order() && be_value(b@) < secp_order() && (
        be_value(a@) + be_value(b@)) % secp_order() != 0),
        r is Some ==> be_value(r->0@) == (be_value(a@) + be_value(b@)) % secp_order(),
{
    let tweak = secp256k1::Scalar::from_be_bytes(*b).ok()?;
    let sk = secp256k1::SecretKey::from_secret_bytes(*a).ok()?;
    Some(sk.add_tweak(&tweak).ok()?.to_secret_bytes())
}

/// Relies on secp256k1's `SecretKey::from_secret_bytes` and `negate`.
#[verifier::external_body]
pub fn secp_scalar_neg(a: &[u8; 32]) -> (r: Option<[u8; 32]>)
    ensures
        (r is Some) == (0 < be_value(a@) < secp_order()),
        r is Some ==> be_value(r->0@) == secp_order() - be_value(a@),
{
    let sk = secp256k1::SecretKey::from_secret_bytes(*a).ok()?;
    Some(sk.negate().to_secret_bytes())
}

/// Relies on secp256k1's `PublicKey::from_slice` and `mul_tweak`; refused
/// where the encoding is no point or the scalar is zero or not below the order.
#[verifier::external_body]
pub fn secp_mul(p: &[u8; 33], a: &[u8; 32]) -> (r: Option<[u8; 33]>)
    ensures
        (r is Some) == (secp_decodes(p@) && 0 < be_value(a@) < secp_order()),
        r is Some ==> r->0@ == secp_mul_point(p@, be_value(a@)),
        r is Some ==> secp_decodes(r->0@),
{
    let tweak = secp256k1::Scalar::from_be_bytes(*a).ok()?;
    let pk = secp256k1::PublicKey::from_slice(p).ok()?;
    Some(pk.mul_tweak(&tweak).ok()?.serialize())
}

/// Relies on secp256k1's `PublicKey::from_slice` and `combine`.
#[verifier::external_body]
pub fn secp_combine(p: &[u8; 33], q: &[u8; 33]) -> (r: Option<[u8; 33]>)
    ensures
        (r is Some) == secp_combines(p@, q@),
        r is Some ==> r->0@ == secp_sum_point(p@, q@),
        r is Some ==> secp_decodes(r->0@),
{
    let p = secp256k1::PublicKey::from_slice(p).ok()?;
    let q = secp256k1::PublicKey::from_slice(q).ok()?;
    Some(p.combine(&q).ok()?.serialize())
}

/// The base point `G`, compressed.
pub open spec fn secp_g() -> Seq<u8> {
    seq![
        0x02u8, 0x79, 0xbe, 0x66, 0x7e, 0xf9, 0xdc, 0xbb, 0xac, 0x55, 0xa0, 0x62, 0x95, 0xce,
        0x87, 0x0b, 0x07, 0x02, 0x9b, 0xfc, 0xdb, 0x2d, 0xce, 0x28, 0xd9, 0x59, 0xf2, 0x81,
        0x5b, 0x16, 0xf8, 0x17, 0x98,
    ]
}

/// The blinding generator `H`, compressed.
pub open spec fn secp_h() -> Seq<u8> {
    seq![
        0x02u8, 0x50, 0x92, 0x9b, 0x74, 0xc1, 0xa0, 0x49, 0x54, 0xb7, 0x8b, 0x4b, 0x60, 0x35,
        0xe9, 0x7a, 0x5e, 0x07, 0x8a, 0x5a, 0x0f, 0x28, 0xec, 0x96, 0xd5, 0x47, 0xbf, 0xee,
        0x9a, 0xce, 0x80, 0x3a, 0xc0,
    ]
}

pub fn generator_g() -> (r: [u8; 33])
    ensures
        r@ == secp_g(),
{
    let r: [u8; 33] = [
        0x02, 0x79, 0xbe, 0x66, 0x7e, 0xf9, 0xdc, 0xbb, 0xac, 0x55, 0xa0, 0x62, 0x95, 0xce,
        0x87, 0x0b, 0x07, 0x02, 0x9b, 0xfc, 0xdb, 0x2d, 0xce, 0x28, 0xd9, 0x59, 0xf2, 0x81,
        0x5b, 0x16, 0xf8, 0x17, 0x98,
    ];
    assert(r@ =~= secp_g());
    r
}

pub fn generator_h() -> (r: [u8; 33])
    ensures
        r@ == secp_h(),
{
    let r: [u8; 33] = [
        0x02, 0x50, 0x92, 0x9b, 0x74, 0xc1, 0xa0, 0x49, 0x54, 0xb7, 0x8b, 0x4b, 0x60, 0x35,
        0xe9, 0x7a, 0x5e, 0x07, 0x8a, 0x5a, 0x0f, 0x28, 0xec, 0x96, 0xd5, 0x47, 0xbf, 0xee,
        0x9a, 0xce, 0x80, 0x3a, 0xc0,
    ];
    assert(r@ =~= secp_h());
    r
}

/// A commitment to one bit of a secret in the Secp256k1 group.
#[derive(Clone, Copy, Debug)]
pub struct SecpCommitment {
    pub commitment: [u8; 33],
    pub blinder: [u8; 32],
}

/// The point committing to `bit` at position `i` with blinder `r`.
pub open spec fn secp_commitment_point(bit: bool, i: nat, r: nat) -> Seq<u8> {
    if bit {
        secp_sum_point(secp_mul_point(secp_g(), pow2(i)), secp_mul_point(secp_h(), r))
    } else {
        secp_mul_point(secp_h(), r)
    }
}

/// The sum of the blinders of `s`, as integers.
pub open spec fn secp_blinder_total(s: Seq<SecpCommitment>) -> nat
    decreases s.len(),
{
    if s.len() == 0 {
        0
    } else {
        secp_blinder_total(s.drop_last()) + be_value(s.last().blinder@)
    }
}

/// The sum of the commitment points of `s`, where every partial sum is a point.
pub open spec fn secp_commitment_sum(s: Seq<SecpCommitment>) -> Option<Seq<u8>>
    decreases s.len(),
{
    if s.len() == 0 {
        None
    } else if s.len() == 1 {
        Some(s[0].commitment@)
    } else {
        match secp_commitment_sum(s.drop_last()) {
            Some(p) => if secp_combines(p, s.last().commitment@) {
                Some(secp_sum_point(p, s.last().commitment@))
            } else {
                None
            },
            None => None,
        }
    }
}

/// The big-endian bytes of `2^i`.
pub fn secp_pow2(i: usize) -> (r: [u8; 32])
    requires
        i < 256,
    ensures
        be_value(r@) == pow2(i as nat),
{
    let le = crate::dleq::scalar_pow2(i);
    let mut r = [0u8; 32];
    let mut j: usize = 0;
    while j < 32
        invariant
            j <= 32,
            forall|k: int| 0 <= k < j ==> r@[k] == le@[31 - k],
        decreases 32 - j,
    {
        r[j] = le[31 - j];
        j = j + 1;
    }
    proof {
        assert(r@ =~= crate::dleq::reversed(le@));
        crate::dleq::lemma_reversed_value(le@);
    }
    r
}

/// Why no Secp256k1 commitment could be made.
#[derive(Clone, Copy, Debug, PartialEq, Eq, Structural)]
pub enum SecpError {
    /// The random source failed.
    RandomnessUnavailable,
    /// A point or scalar operation was refused (a degenerate draw).
    Degenerate,
}

/// Commits to `bit` at position `index` with `blinder`.
pub fn secp_commit(bit: bool, index: usize, blinder: &[u8; 32]) -> (r: Option<SecpCommitment>)
    requires
        index < 255,
        secp_decodes(secp_g()),
        secp_decodes(secp_h()),
    ensures
        (r is Some) == (0 < be_value(blinder@) < secp_order() && (bit ==> secp_combines(
            secp_mul_point(secp_g(), pow2(index as nat)),
            secp_mul_point(secp_h(), be_value(blinder@)),
        ))),
        r is Some ==> r->0.blinder == *blinder,
        r is Some ==> r->0.commitment@ == secp_commitment_point(
            bit,
            index as nat,
            be_value(blinder@),
        ),
{
    let h = generator_h();
    let rh = secp_mul(&h, blinder)?;
    if bit {
        let g = generator_g();
        let pow = secp_pow2(index);
        proof {
            lemma_pow2_below_order(index as nat);
        }
        let vg = match secp_mul(&g, &pow) {
            Some(v) => v,
            None => unreached(),
        };
        let c = secp_combine(&vg, &rh)?;
        Some(SecpCommitment { commitment: c, blinder: *blinder })
    } else {
        Some(SecpCommitment { commitment: rh, blinder: *blinder })
    }
}

/// `r` commits to bit `i` of `x` with a valid blinder.
pub open spec fn is_secp_bit_commitment(c: SecpCommitment, x: Seq<u8>, i: nat) -> bool {
    &&& 0 < be_value(c.blinder@) < secp_order()
    &&& c.commitment@ == secp_commitment_point(bit_at(x, i) == 1, i, be_value(c.blinder@))
}

/// The order is positive (indeed above `2^255`).
pub proof fn lemma_secp_order_pos()
    ensures
        secp_order() > 0,
        pow2(129) > 0x14551231950b75fc4402da1732fc9bebf,
        pow2(256) >= pow2(129),
{
    reveal_with_fuel(pow2, 9);
    crate::dleq::lemma_pow2_add(8, 8);
    crate::dleq::lemma_pow2_add(16, 16);
    crate::dleq::lemma_pow2_add(32, 32);
    crate::dleq::lemma_pow2_add(64, 64);
    assert(pow2(8) == 256);
    let p16 = pow2(16);
    let p32 = pow2(32);
    let p64 = pow2(64);
    let p128 = pow2(128);
    assert(p16 == 65536) by (nonlinear_arith)
        requires
            p16 == pow2(8) * pow2(8),
            pow2(8) == 256,
    ;
    assert(p32 == 4294967296) by (nonlinear_arith)
        requires
            p32 == p16 * p16,
            p16 == 65536,
    ;
    assert(p64 == 18446744073709551616) by (nonlinear_arith)
        requires
            p64 == p32 * p32,
            p32 == 4294967296,
    ;
    assert(2 * p128 > 0x14551231950b75fc4402da1732fc9bebf) by (nonlinear_arith)
        requires
            p128 == p64 * p64,
            p64 == 18446744073709551616,
    ;
    assert(pow2(129) == 2 * p128);
    crate::dleq::lemma_pow2_add(129, 127);
    crate::dleq::lemma_pow2_pos(127);
    let p129 = pow2(129);
    let p127 = pow2(127);
    assert(p129 * p127 >= p129) by (nonlinear_arith)
        requires
            p127 >= 1,
            p129 >= 0,
    ;
}

proof fn lemma_pow2_mono(a: nat, b: nat)
    requires
        a <= b,
    ensures
        pow2(a) <= pow2(b),
{
    crate::dleq::lemma_pow2_add(a, (b - a) as nat);
    crate::dleq::lemma_pow2_pos((b - a) as nat);
    let x = pow2(a);
    let y = pow2((b - a) as nat);
    assert(x * y >= x) by (nonlinear_arith)
        requires
            y >= 1,
            x >= 0,
    ;
}

/// Every power of two below `2^255` is a non-zero scalar.
pub proof fn lemma_pow2_below_order(i: nat)
    requires
        i < 255,
    ensures
        0 < pow2(i) < secp_order(),
{
    lemma_secp_order_pos();
    crate::dleq::lemma_pow2_pos(i);
    lemma_pow2_mono(i, 254);
    lemma_pow2_mono(129, 254);
    crate::dleq::lemma_pow2_add(254, 2);
    reveal_with_fuel(pow2, 3);
    assert(pow2(2) == 4);
}

proof fn lemma_secp_telescope(t: int)
    ensures
        (t + (secp_order() - t % (secp_order() as int))) % (secp_order() as int) == 0,
{
    lemma_secp_order_pos();
    let m = secp_order() as int;
    lemma_fundamental_div_mod(t, m);
    let q = t / m;
    let rr = t % m;
    assert(t + (m - rr) == m * (q + 1)) by (nonlinear_arith)
        requires
            t == m * q + rr,
    ;
    lemma_mod_multiples_basic(t / m + 1, m);
}

proof fn lemma_sum_none_extends(s: Seq<SecpCommitment>, k: int)
    requires
        1 <= k <= s.len(),
        secp_commitment_sum(s.subrange(0, k)) is None,
    ensures
        secp_commitment_sum(s) is None,
    decreases s.len() - k,
{
    if k == s.len() {
        assert(s.subrange(0, k) =~= s);
    } else {
        assert(s.subrange(0, k + 1).drop_last() =~= s.subrange(0, k));
        lemma_sum_none_extends(s, k + 1);
    }
}

/// Whether the commitment points of `s` add up to the point encoded by `key`.
pub fn secp_sum_matches(s: &Vec<SecpCommitment>, key: &[u8; 33]) -> (r: bool)
    ensures
        r == (secp_commitment_sum(s@) == Some(key@)),
{
    let n = s.len();
    if n == 0 {
        return false;
    }
    let mut sp = s[0].commitment;
    let mut i: usize = 1;
    assert(s@.subrange(0, 1).len() == 1);
    while i < n
        invariant
            n == s@.len(),
            1 <= i <= n,
            secp_commitment_sum(s@.subrange(0, i as int)) == Some(sp@),
        decreases n - i,
    {
        assert(s@.subrange(0, i + 1).drop_last() =~= s@.subrange(0, i as int));
        match secp_combine(&sp, &s[i].commitment) {
            Some(q) => {
                sp = q;
            },
            None => {
                proof {
                    lemma_sum_none_extends(s@, i + 1);
                }
                return false;
            },
        }
        i = i + 1;
    }
    assert(s@.subrange(0, n as int) =~= s@);
    crate::bytes::bytes_eq(&sp, key)
}

/// Commits to bits `0..=msb_index` of `x` in the Secp256k1 group, each with
/// a fresh blinder but the last, whose blinder is the negated sum of the
/// others.
pub fn secp_key_commitment(x: &[u8; 32], msb_index: usize) -> (r: Result<
    Vec<SecpCommitment>,
    SecpError,
>)
    requires
        1 <= msb_index < 255,
    ensures
        r is Ok ==> r->Ok_0@.len() == msb_index + 1,
        r is Ok ==> forall|i: int|
            0 <= i < r->Ok_0@.len() ==> is_secp_bit_commitment(r->Ok_0@[i], x@, i as nat),
        r is Ok ==> secp_blinder_total(r->Ok_0@) % secp_order() == 0,
{
    if !secp_point_valid(&generator_g()) || !secp_point_valid(&generator_h()) {
        return Err(SecpError::Degenerate);
    }
    let mut commitment: Vec<SecpCommitment> = Vec::new();
    let mut acc = [0u8; 32];
    let mut i: usize = 0;
    while i < msb_index
        invariant
            i <= msb_index < 255,
            commitment@.len() == i,
            forall|j: int| 0 <= j < i ==> is_secp_bit_commitment(commitment@[j], x@, j as nat),
            i >= 1 ==> be_value(acc@) == secp_blinder_total(commitment@) % secp_order(),
            i >= 1 ==> 0 < be_value(acc@) < secp_order(),
            secp_decodes(secp_g()),
            secp_decodes(secp_h()),
        decreases msb_index - i,
    {
        let blinder = match random_secp_secret() {
            Ok(b) => b,
            Err(_) => {
                return Err(SecpError::RandomnessUnavailable);
            },
        };
        let bit = get_bit(x, i);
        let c = match secp_commit(bit, i, &blinder) {
            Some(c) => c,
            None => {
                return Err(SecpError::Degenerate);
            },
        };
        let ghost before = commitment@;
        let next = if i == 0 {
            blinder
        } else {
            match secp_scalar_add(&acc, &blinder) {
                Some(s) => s,
                None => {
                    return Err(SecpError::Degenerate);
                },
            }
        };
        proof {
            lemma_secp_order_pos();
            let m = secp_order() as int;
            if i > 0 {
                vstd::arithmetic::div_mod::lemma_add_mod_noop(
                    secp_blinder_total(before) as int,
                    be_value(blinder@) as int,
                    m,
                );
                vstd::arithmetic::div_mod::lemma_small_mod(be_value(blinder@), secp_order());
                vstd::arithmetic::div_mod::lemma_mod_twice(secp_blinder_total(before) as int, m);
            } else {
                assert(before.len() == 0);
                vstd::arithmetic::div_mod::lemma_small_mod(be_value(blinder@), secp_order());
            }
        }
        commitment.push(c);
        assert(commitment@.drop_last() =~= before);
        assert(secp_blinder_total(commitment@) == secp_blinder_total(before) + be_value(blinder@));
        proof {
            let m = secp_order() as int;
            let t = secp_blinder_total(before) as int;
            let b = be_value(blinder@) as int;
            if i > 0 {
                assert(be_value(acc@) as int == t % m);
                assert(be_value(next@) as int == (t % m + b) % m);
                assert((t % m + b % m) % m == (t + b) % m);
                assert(b % m == b);
            } else {
                assert(t == 0);
                assert(b % m == b);
            }
        }
        acc = next;
        i = i + 1;
    }
    let last = match secp_scalar_neg(&acc) {
        Some(l) => l,
        None => {
            return Err(SecpError::Degenerate);
        },
    };
    let bit = get_bit(x, msb_index);
    let c = match secp_commit(bit, msb_index, &last) {
        Some(c) => c,
        None => {
            return Err(SecpError::Degenerate);
        },
    };
    let ghost before = commitment@;
    commitment.push(c);
    proof {
        assert(commitment@.drop_last() =~= before);
        lemma_secp_telescope(secp_blinder_total(before) as int);
    }
    Ok(commitment)
}

/// A two-branch ring proof, over the blinding generator `H`, that a
/// Secp256k1 commitment opens to bit 0 or to bit 1.
#[derive(Clone, Copy, Debug)]
pub struct SecpRingProof {
    pub e_0: [u8; 32],
    pub e_1: [u8; 32],
    pub s_0: [u8; 32],
    pub s_1: [u8; 32],
}

/// The branch nonce `s·H - e·P`.
pub open spec fn secp_branch_nonce(e: [u8; 32], p: Seq<u8>, s: [u8; 32]) -> Seq<u8> {
    secp_sum_point(
        secp_mul_point(secp_h(), be_value(s@)),
        secp_mul_point(p, (secp_order() - be_value(e@)) as nat),
    )
}

/// `C - 2^i·G`.
pub open spec fn secp_alt_point(c: Seq<u8>, i: nat) -> Seq<u8> {
    secp_sum_point(c, secp_mul_point(secp_g(), (secp_order() - pow2(i)) as nat))
}

/// The ring proof `p` holds for the commitment `c` to bit `i`: the two
/// challenges add up to the hash of the commitment and both recomputed nonces.
pub open spec fn secp_ring_holds(c: Seq<u8>, i: nat, p: SecpRingProof) -> bool {
    let r0 = secp_branch_nonce(p.e_0, c, p.s_0);
    let r1 = secp_branch_nonce(p.e_1, secp_alt_point(c, i), p.s_1);
    (be_value(p.e_0@) + be_value(p.e_1@)) % secp_order() == be_value(sha256_of(c + r0 + r1))
}

/// The challenge bytes: the hash of a commitment and two nonces.
pub fn secp_challenge(c: &[u8; 33], r0: &[u8; 33], r1: &[u8; 33]) -> (r: [u8; 32])
    ensures
        r@ == sha256_of(c@ + r0@ + r1@),
{
    let mut data: Vec<u8> = Vec::new();
    push_all(&mut data, c);
    push_all(&mut data, r0);
    push_all(&mut data, r1);
    assert(data@ =~= c@ + r0@ + r1@);
    sha256(data.as_slice())
}

/// Computes `s·H - e·P`; `None` where an operation is refused.
pub fn secp_nonce(e: &[u8; 32], p: &[u8; 33], s: &[u8; 32]) -> (r: Option<[u8; 33]>)
    ensures
        r is Some ==> r->0@ == secp_branch_nonce(*e, p@, *s),
{
    let h = generator_h();
    let ne = secp_scalar_neg(e)?;
    let a = secp_mul(&h, s)?;
    let b = secp_mul(p, &ne)?;
    secp_combine(&a, &b)
}

/// Computes `C - 2^i·G`; `None` where an operation is refused.
pub fn secp_alt(c: &[u8; 33], index: usize) -> (r: Option<[u8; 33]>)
    requires
        index < 255,
    ensures
        r is Some ==> r->0@ == secp_alt_point(c@, index as nat),
{
    let g = generator_g();
    let pow = secp_pow2(index);
    let npow = secp_scalar_neg(&pow)?;
    let gp = secp_mul(&g, &npow)?;
    secp_combine(c, &gp)
}

/// Checks the ring proof of the commitment `c` to bit `index`.
pub fn secp_verify_ring(c: &[u8; 33], index: usize, p: &SecpRingProof) -> (r: bool)
    requires
        index < 255,
    ensures
        r ==> secp_ring_holds(c@, index as nat, *p),
{
    let r0 = match secp_nonce(&p.e_0, c, &p.s_0) {
        Some(r) => r,
        None => {
            return false;
        },
    };
    let alt = match secp_alt(c, index) {
        Some(a) => a,
        None => {
            return false;
        },
    };
    let r1 = match secp_nonce(&p.e_1, &alt, &p.s_1) {
        Some(r) => r,
        None => {
            return false;
        },
    };
    let e = secp_challenge(c, &r0, &r1);
    let sum = match secp_scalar_add(&p.e_0, &p.e_1) {
        Some(s) => s,
        None => {
            return false;
        },
    };
    bytes_eq(&sum, &e)
}

/// `p` is the ring proof for the commitment `c` to `bit` at position `i`
/// made from blinder `blinder` and the draws `k`, `e_fake`, `s_fake`: the
/// simulated branch is the draws, the real one is solved from the hash.
pub open spec fn secp_ring_from(
    c: Seq<u8>,
    bit: bool,
    index: nat,
    blinder: [u8; 32],
    k: [u8; 32],
    e_fake: [u8; 32],
    s_fake: [u8; 32],
    p: SecpRingProof,
) -> bool {
    let n = secp_order();
    if !bit {
        let r1 = secp_branch_nonce(e_fake, secp_alt_point(c, index), s_fake);
                let e = be_value(sha256_of(c + secp_mul_point(secp_h(), be_value(k@)) + r1));
                &&& p.e_1 == e_fake && p.s_1 == s_fake
                &&& be_value(p.e_0@) == (e + (n - be_value(e_fake@)) as nat) % n
                &&& be_value(p.s_0@) == (be_value(k@) + (be_value(p.e_0@) * be_value(blinder@))
                    % n) % n
            } else {
                let r0 = secp_branch_nonce(e_fake, c, s_fake);
                let e = be_value(sha256_of(c + r0 + secp_mul_point(secp_h(), be_value(k@))));
                &&& p.e_0 == e_fake && p.s_0 == s_fake
                &&& be_value(p.e_1@) == (e + (n - be_value(e_fake@)) as nat) % n
                &&& be_value(p.s_1@) == (be_value(k@) + (be_value(p.e_1@) * be_value(blinder@))
                    % n) % n
            }
        }

/// `p` is a ring proof made by `secp_ring_from` from some draws.
pub open spec fn secp_ring_made(
    c: Seq<u8>,
    bit: bool,
    index: nat,
    blinder: [u8; 32],
    p: SecpRingProof,
) -> bool {
    exists|k: [u8; 32], e: [u8; 32], f: [u8; 32]|
        #[trigger] secp_ring_from(c, bit, index, blinder, k, e, f, p)
}

/// The ring proof made from the draws `k` (nonce), `e_fake` and `s_fake`
/// (the simulated branch): the branch of `bit` is answered with `blinder`.
pub fn secp_prove_ring_with(
    c: &[u8; 33],
    bit: bool,
    index: usize,
    blinder: &[u8; 32],
    k: &[u8; 32],
    e_fake: &[u8; 32],
    s_fake: &[u8; 32],
) -> (r: Option<SecpRingProof>)
    requires
        index < 255,
    ensures
        r is Some ==> secp_ring_from(c@, bit, index as nat, *blinder, *k, *e_fake, *s_fake, r->0),
{
    let h = generator_h();
    let nonce = secp_mul(&h, k)?;
    let ne = secp_scalar_neg(e_fake)?;
    if !bit {
        let alt = secp_alt(c, index)?;
        let r1 = secp_nonce(e_fake, &alt, s_fake)?;
        let e = secp_challenge(c, &nonce, &r1);
        let e_0 = secp_scalar_add(&e, &ne)?;
        let m = secp_scalar_mul(&e_0, blinder)?;
        let s_0 = secp_scalar_add(k, &m)?;
        Some(SecpRingProof { e_0, e_1: *e_fake, s_0, s_1: *s_fake })
    } else {
        let r0 = secp_nonce(e_fake, c, s_fake)?;
        let e = secp_challenge(c, &r0, &nonce);
        let e_1 = secp_scalar_add(&e, &ne)?;
        let m = secp_scalar_mul(&e_1, blinder)?;
        let s_1 = secp_scalar_add(k, &m)?;
        Some(SecpRingProof { e_0: *e_fake, e_1, s_0: *s_fake, s_1 })
    }
}

/// Proves that the Secp256k1 commitment `c` opens to `bit`, drawing the
/// nonce and the simulated branch afresh.
pub fn secp_prove_ring(c: &[u8; 33], bit: bool, index: usize, blinder: &[u8; 32]) -> (r: Result<
    SecpRingProof,
    SecpError,
>)
    requires
        index < 255,
    ensures
        r is Err ==> r->Err_0 == SecpError::RandomnessUnavailable || r->Err_0
            == SecpError::Degenerate,
        r is Ok ==> secp_ring_made(c@, bit, index as nat, *blinder, r->Ok_0),
{
    let (k, e_fake, s_fake) = match (random_secp_secret(), random_secp_secret(), random_secp_secret()) {
        (Ok(k), Ok(e), Ok(s)) => (k, e, s),
        _ => {
            return Err(SecpError::RandomnessUnavailable);
        },
    };
    match secp_prove_ring_with(c, bit, index, blinder, &k, &e_fake, &s_fake) {
        Some(p) => {
            let r: Result<SecpRingProof, SecpError> = Ok(p);
            assert(secp_ring_from(c@, bit, index as nat, *blinder, k, e_fake, s_fake, r->Ok_0));
            r
        },
        None => Err(SecpError::Degenerate),
    }
}

/// Whether every commitment of `c` has a ring proof in `rings` that holds.
pub fn secp_rings_hold(c: &Vec<SecpCommitment>, rings: &Vec<SecpRingProof>) -> (r: bool)
    requires
        c@.len() <= 255,
    ensures
        r ==> rings@.len() == c@.len(),
        r ==> forall|i: int|
            0 <= i < c@.len() ==> secp_ring_holds(c@[i].commitment@, i as nat, #[trigger] rings@[i]),
{
    if rings.len() != c.len() {
        return false;
    }
    let mut i: usize = 0;
    while i < c.len()
        invariant
            i <= c@.len() <= 255,
            rings@.len() == c@.len(),
            forall|j: int|
                0 <= j < i ==> secp_ring_holds(c@[j].commitment@, j as nat, #[trigger] rings@[j]),
        decreases c@.len() - i,
    {
        if !secp_verify_ring(&c[i].commitment, i, &rings[i]) {
            return false;
        }
        i = i + 1;
    }
    true
}

/// Makes the ring proof of every commitment of `c`, which commit to the
/// bits of `x` in order.
pub fn secp_prove_rings(c: &Vec<SecpCommitment>, x: &[u8; 32]) -> (r: Result<
    Vec<SecpRingProof>,
    SecpError,
>)
    requires
        c@.len() <= 255,
    ensures
        r is Ok ==> r->Ok_0@.len() == c@.len(),
        r is Ok ==> forall|j: int|
            0 <= j < c@.len() ==> secp_ring_made(
                c@[j].commitment@,
                bit_at(x@, j as nat) == 1,
                j as nat,
                c@[j].blinder,
                #[trigger] r->Ok_0@[j],
            ),
{
    let mut rings: Vec<SecpRingProof> = Vec::new();
    let mut i: usize = 0;
    while i < c.len()
        invariant
            i <= c@.len() <= 255,
            rings@.len() == i,
            forall|j: int|
                0 <= j < i ==> secp_ring_made(
                    c@[j].commitment@,
                    bit_at(x@, j as nat) == 1,
                    j as nat,
                    c@[j].blinder,
                    #[trigger] rings@[j],
                ),
        decreases c@.len() - i,
    {
        let bit = get_bit(x, i);
        let p = secp_prove_ring(&c[i].commitment, bit, i, &c[i].blinder)?;
        rings.push(p);
        i = i + 1;
    }
    Ok(rings)
}

} // verus!
