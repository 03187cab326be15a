//! Per-bit Pedersen commitments to a swap secret and the cross-group
//! proof that ties its Ed25519 and Secp256k1 public keys together.
use vstd::prelude::*;
use vstd::pervasive::unreached;
use vstd::arithmetic::div_mod::{
    lemma_add_mod_noop, lemma_div_denominator, lemma_fundamental_div_mod, lemma_mod_multiples_basic,
    lemma_mod_twice, lemma_small_mod, lemma_sub_mod_noop,
};
use vstd::arithmetic::mul::lemma_mul_is_distributive_add;

use crate::bytes::{bytes_eq, push_all};
use crate::hash::{sha256, sha256_of};
use crate::secp::{
    is_secp_bit_commitment, secp_blinder_total, secp_commitment_sum, secp_key_commitment,
    secp_prove_rings, secp_ring_made, secp_ring_holds, secp_rings_hold, secp_sum_matches,
    SecpCommitment, SecpError, SecpRingProof,
};
use crate::scalar::{
    be_value, ed_add, ed_base_mul_point, ed_decodes, ed_double_mul, ed_double_mul_point, ed_mod, ed_mul_base,
    ed_order, ed_pedersen,
    ed_pedersen_point, ed_point_sum, ed_reduce, ed_reduce_wide, ed_scalar_add, ed_scalar_mul,
    ed_scalar_sub, le_value, pow2, random_wide, secp_order, secp_public_key, secp_public_key_of,
};

verus! {

/// Index of the highest committed bit: the secret's top bit is left out and must be zero.
pub const MSB_INDEX: usize = 254;

/// A commitment `blinder·G + v·H` to the value `v` of one bit of a secret.
#[derive(Clone, Copy, Debug)]
pub struct PedersenCommitment {
    pub commitment: [u8; 32],
    pub blinder: [u8; 32],
}

/// Why no proof can be made for a secret.
#[derive(Clone, Copy, Debug, PartialEq, Eq, Structural)]
pub enum DleqError {
    /// The secret is zero, has its top bit set, or is no Secp256k1 scalar.
    InvalidSecret,
    /// A point encoding failed to decompress.
    InvalidPoint,
    /// The random source failed.
    RandomnessUnavailable,
    /// A Secp256k1 operation was refused on a degenerate random draw.
    Degenerate,
}

/// Bit `i` of the little-endian bytes `x`.
pub open spec fn bit_at(x: Seq<u8>, i: nat) -> nat {
    ((x[(i / 8) as int] as nat) / pow2(i % 8)) % 2
}

/// The point committing to `bit` at position `i` with blinder `r`: `r·G`
/// for a zero bit, `2^i·H + r·G` for a one.
pub open spec fn commitment_point(bit: bool, i: nat, r: nat) -> Seq<u8> {
    if bit {
        ed_pedersen_point(pow2(i) % ed_order(), r)
    } else {
        ed_base_mul_point(r)
    }
}

/// `c` commits to bit `i` of `x` with a reduced blinder.
pub open spec fn is_bit_commitment(c: PedersenCommitment, x: Seq<u8>, i: nat) -> bool {
    &&& le_value(c.blinder@) < ed_order()
    &&& c.commitment@ == commitment_point(bit_at(x, i) == 1, i, le_value(c.blinder@))
    &&& ed_decodes(c.commitment@)
}

/// The sum of the blinders of `s`, as integers.
pub open spec fn blinder_total(s: Seq<PedersenCommitment>) -> nat
    decreases s.len(),
{
    if s.len() == 0 {
        0
    } else {
        blinder_total(s.drop_last()) + le_value(s.last().blinder@)
    }
}

/// The encoded sum of the commitment points of the non-empty `s`.
pub open spec fn commitment_sum(s: Seq<PedersenCommitment>) -> Seq<u8>
    decreases s.len(),
{
    if s.len() <= 1 {
        s[0].commitment@
    } else {
        ed_point_sum(commitment_sum(s.drop_last()), s.last().commitment@)
    }
}

/// `x` with its bytes in the opposite order.
pub open spec fn reversed(x: Seq<u8>) -> Seq<u8> {
    Seq::new(x.len(), |i: int| x[x.len() - 1 - i])
}

proof fn lemma_le_value_zero(s: Seq<u8>)
    ensures
        le_value(s) == 0 <==> forall|j: int| 0 <= j < s.len() ==> s[j] == 0,
    decreases s.len(),
{
    if s.len() > 0 {
        lemma_le_value_zero(s.drop_first());
        if le_value(s) == 0 {
            assert forall|j: int| 0 <= j < s.len() implies s[j] == 0 by {
                if j > 0 {
                    assert(s[j] == s.drop_first()[j - 1]);
                }
            }
        }
        if forall|j: int| 0 <= j < s.len() ==> s[j] == 0 {
            assert forall|j: int| 0 <= j < s.drop_first().len() implies s.drop_first()[j] == 0 by {
                assert(s.drop_first()[j] == s[j + 1]);
            }
        }
    }
}

proof fn lemma_le_value_injective(a: Seq<u8>, b: Seq<u8>)
    requires
        a.len() == b.len(),
        le_value(a) == le_value(b),
    ensures
        a == b,
    decreases a.len(),
{
    if a.len() > 0 {
        let x = le_value(a.drop_first()) as int;
        let y = le_value(b.drop_first()) as int;
        let a0 = a[0] as int;
        let b0 = b[0] as int;
        assert(a0 == b0 && x == y) by (nonlinear_arith)
            requires
                a0 + 256 * x == b0 + 256 * y,
                0 <= a0 < 256,
                0 <= b0 < 256,
        ;
        lemma_le_value_injective(a.drop_first(), b.drop_first());
        assert(a =~= b) by {
            assert forall|j: int| 0 <= j < a.len() implies a[j] == b[j] by {
                if j > 0 {
                    assert(a[j] == a.drop_first()[j - 1]);
                    assert(b[j] == b.drop_first()[j - 1]);
                }
            }
        }
    } else {
        assert(a =~= b);
    }
}

proof fn lemma_le_value_one(s: Seq<u8>)
    requires
        s.len() >= 1,
        s[0] == 1,
        forall|j: int| 1 <= j < s.len() ==> s[j] == 0,
    ensures
        le_value(s) == 1,
{
    assert forall|j: int| 0 <= j < s.drop_first().len() implies s.drop_first()[j] == 0 by {
        assert(s.drop_first()[j] == s[j + 1]);
    }
    lemma_le_value_zero(s.drop_first());
}

pub proof fn lemma_reversed_value(x: Seq<u8>)
    ensures
        be_value(reversed(x)) == le_value(x),
    decreases x.len(),
{
    if x.len() > 0 {
        lemma_reversed_value(x.drop_first());
        assert(reversed(x).drop_last() =~= reversed(x.drop_first()));
    }
}

/// The last blinder, the negation of the sum of the others, brings the total to zero.
proof fn lemma_telescope(t: int)
    ensures
        (t + ed_mod(0 - ed_mod(t))) % (ed_order() as int) == 0,
{
    let m = ed_order() as int;
    let r = t % m;
    let y = (0 - r) % m;
    lemma_add_mod_noop(t, y, m);
    lemma_small_mod(r as nat, m as nat);
    lemma_sub_mod_noop(0, r, m);
    lemma_add_mod_noop(t, 0 - r, m);
    lemma_mod_twice(0 - r, m);
    lemma_fundamental_div_mod(t, m);
    lemma_mod_multiples_basic(t / m, m);
    assert(t - r == m * (t / m));
    assert((t + (0 - r)) % m == 0);
}

/// The sum of the bits `0..n` of `x`, each weighted by its power of two.
pub open spec fn bits_value(x: Seq<u8>, n: nat) -> nat
    decreases n,
{
    if n == 0 {
        0
    } else {
        bits_value(x, (n - 1) as nat) + bit_at(x, (n - 1) as nat) * pow2((n - 1) as nat)
    }
}

pub proof fn lemma_pow2_add(a: nat, b: nat)
    ensures
        pow2(a + b) == pow2(a) * pow2(b),
    decreases a,
{
    if a == 0 {
        assert(pow2(0) == 1);
        assert(a + b == b);
    } else {
        lemma_pow2_add((a - 1) as nat, b);
        assert(pow2(a) == 2 * pow2((a - 1) as nat));
        assert(pow2(a + b) == 2 * pow2((a - 1 + b) as nat));
        assert(2 * (pow2((a - 1) as nat) * pow2(b)) == (2 * pow2((a - 1) as nat)) * pow2(b))
            by (nonlinear_arith);
    }
}

proof fn lemma_byte_bits(b: nat)
    requires
        b < 256,
    ensures
        (b / 1) % 2 * 1 + (b / 2) % 2 * 2 + (b / 4) % 2 * 4 + (b / 8) % 2 * 8 + (b / 16) % 2 * 16
            + (b / 32) % 2 * 32 + (b / 64) % 2 * 64 + (b / 128) % 2 * 128 == b,
{
    assert(b == b % 2 + 2 * (b / 2));
    assert(b / 2 == (b / 2) % 2 + 2 * (b / 4));
    assert(b / 4 == (b / 4) % 2 + 2 * (b / 8));
    assert(b / 8 == (b / 8) % 2 + 2 * (b / 16));
    assert(b / 16 == (b / 16) % 2 + 2 * (b / 32));
    assert(b / 32 == (b / 32) % 2 + 2 * (b / 64));
    assert(b / 64 == (b / 64) % 2 + 2 * (b / 128));
    assert(b / 128 < 2);
}

proof fn lemma_le_value_push(t: Seq<u8>, b: u8)
    ensures
        le_value(t.push(b)) == le_value(t) + pow2(8 * t.len()) * b,
    decreases t.len(),
{
    reveal_with_fuel(pow2, 9);
    if t.len() == 0 {
        assert(t.push(b).drop_first() =~= t);
        assert(le_value(t) == 0);
        assert(pow2(0) == 1);
        assert(le_value(t.push(b)) == b as nat + 256 * le_value(t));
        assert(8 * t.len() == 0);
        assert(pow2(8 * t.len()) * b == b);
    } else {
        assert(t.push(b).drop_first() =~= t.drop_first().push(b));
        lemma_le_value_push(t.drop_first(), b);
        lemma_pow2_add(8, (8 * (t.len() - 1)) as nat);
        assert(pow2(8) == 256);
        assert(8 + 8 * (t.len() - 1) == 8 * t.len());
        assert(t.push(b)[0] == t[0]);
        let p = pow2((8 * (t.len() - 1)) as nat);
        assert(pow2(8 * t.len()) == 256 * p);
        let l = le_value(t.drop_first());
        assert(t.drop_first().len() == t.len() - 1);
        assert(le_value(t.drop_first().push(b)) == l + p * b);
        assert(le_value(t.push(b)) == t[0] as nat + 256 * (l + p * b));
        assert(256 * (l + p * b) == 256 * l + (256 * p) * b) by (nonlinear_arith);
        assert(le_value(t) == t[0] as nat + 256 * l);
        assert(pow2(8 * t.len()) * b == (256 * p) * b);
    }
}

proof fn lemma_bits_of_byte(x: Seq<u8>, k: nat)
    requires
        k < x.len(),
    ensures
        bits_value(x, 8 * k + 8) == bits_value(x, 8 * k) + pow2(8 * k) * x[k as int],
{
    reveal_with_fuel(bits_value, 9);
    reveal_with_fuel(pow2, 9);
    let b = x[k as int] as nat;
    let p = pow2(8 * k);
    assert forall|j: nat| j < 8 implies #[trigger] bit_at(x, 8 * k + j) == (b / pow2(j)) % 2
        && pow2(8 * k + j) == p * pow2(j) by {
        assert((8 * k + j) / 8 == k);
        assert((8 * k + j) % 8 == j);
        lemma_pow2_add(8 * k, j);
    }
    assert(bit_at(x, 8 * k + 0) == (b / pow2(0)) % 2 && pow2(8 * k + 0) == p * pow2(0));
    assert(bit_at(x, 8 * k + 1) == (b / pow2(1)) % 2 && pow2(8 * k + 1) == p * pow2(1));
    assert(bit_at(x, 8 * k + 2) == (b / pow2(2)) % 2 && pow2(8 * k + 2) == p * pow2(2));
    assert(bit_at(x, 8 * k + 3) == (b / pow2(3)) % 2 && pow2(8 * k + 3) == p * pow2(3));
    assert(bit_at(x, 8 * k + 4) == (b / pow2(4)) % 2 && pow2(8 * k + 4) == p * pow2(4));
    assert(bit_at(x, 8 * k + 5) == (b / pow2(5)) % 2 && pow2(8 * k + 5) == p * pow2(5));
    assert(bit_at(x, 8 * k + 6) == (b / pow2(6)) % 2 && pow2(8 * k + 6) == p * pow2(6));
    assert(bit_at(x, 8 * k + 7) == (b / pow2(7)) % 2 && pow2(8 * k + 7) == p * pow2(7));
    lemma_byte_bits(b);
    let d0 = (b / 1) % 2;
    let d1 = (b / 2) % 2;
    let d2 = (b / 4) % 2;
    let d3 = (b / 8) % 2;
    let d4 = (b / 16) % 2;
    let d5 = (b / 32) % 2;
    let d6 = (b / 64) % 2;
    let d7 = (b / 128) % 2;
    assert(d0 * (p * 1) == p * (d0 * 1)) by (nonlinear_arith);
    assert(d1 * (p * 2) == p * (d1 * 2)) by (nonlinear_arith);
    assert(d2 * (p * 4) == p * (d2 * 4)) by (nonlinear_arith);
    assert(d3 * (p * 8) == p * (d3 * 8)) by (nonlinear_arith);
    assert(d4 * (p * 16) == p * (d4 * 16)) by (nonlinear_arith);
    assert(d5 * (p * 32) == p * (d5 * 32)) by (nonlinear_arith);
    assert(d6 * (p * 64) == p * (d6 * 64)) by (nonlinear_arith);
    assert(d7 * (p * 128) == p * (d7 * 128)) by (nonlinear_arith);
    let s1 = d0 * 1 + d1 * 2;
    let s2 = s1 + d2 * 4;
    let s3 = s2 + d3 * 8;
    let s4 = s3 + d4 * 16;
    let s5 = s4 + d5 * 32;
    let s6 = s5 + d6 * 64;
    let s7 = s6 + d7 * 128;
    lemma_mul_is_distributive_add(p as int, (d0 * 1) as int, (d1 * 2) as int);
    lemma_mul_is_distributive_add(p as int, (s1) as int, (d2 * 4) as int);
    lemma_mul_is_distributive_add(p as int, (s2) as int, (d3 * 8) as int);
    lemma_mul_is_distributive_add(p as int, (s3) as int, (d4 * 16) as int);
    lemma_mul_is_distributive_add(p as int, (s4) as int, (d5 * 32) as int);
    lemma_mul_is_distributive_add(p as int, (s5) as int, (d6 * 64) as int);
    lemma_mul_is_distributive_add(p as int, (s6) as int, (d7 * 128) as int);
    assert(s7 == b);
    assert(bits_value(x, 8 * k + 8) == bits_value(x, 8 * k) + d0 * (p * 1) + d1 * (p * 2) + d2 * (p
        * 4) + d3 * (p * 8) + d4 * (p * 16) + d5 * (p * 32) + d6 * (p * 64) + d7 * (p * 128));
}

proof fn lemma_bits_prefix(x: Seq<u8>, k: nat)
    requires
        k <= x.len(),
    ensures
        bits_value(x, 8 * k) == le_value(x.subrange(0, k as int)),
    decreases k,
{
    if k == 0 {
        assert(x.subrange(0, 0) =~= Seq::<u8>::empty());
    } else {
        let j = (k - 1) as nat;
        lemma_bits_prefix(x, j);
        lemma_bits_of_byte(x, j);
        assert(x.subrange(0, k as int) =~= x.subrange(0, j as int).push(x[j as int]));
        lemma_le_value_push(x.subrange(0, j as int), x[j as int]);
        assert(8 * j + 8 == 8 * k);
    }
}

/// The bits `0..=MSB_INDEX` of a 32-byte secret whose top bit is clear,
/// each weighted by its power of two, add up to the secret: the values
/// committed by `key_commitment` reconstruct it, as its blinders cancel out.
pub proof fn lemma_committed_bits_sum_to_secret(x: Seq<u8>)
    requires
        x.len() == 32,
        x[31] < 0x80,
    ensures
        bits_value(x, (MSB_INDEX + 1) as nat) == le_value(x),
{
    lemma_bits_prefix(x, 32);
    assert(x.subrange(0, 32) =~= x);
    reveal_with_fuel(pow2, 9);
    assert(255nat / 8 == 31 && 255nat % 8 == 7);
    assert(pow2(7) == 128);
    assert((x[31] as nat) / 128 == 0);
    assert(bit_at(x, 255) == 0);
    assert(bits_value(x, 256) == bits_value(x, 255) + bit_at(x, 255) * pow2(255));
    assert(bits_value(x, 8 * 32) == le_value(x));
    let top = bit_at(x, 255);
    let w = pow2(255);
    assert(top * w == 0) by (nonlinear_arith)
        requires
            top == 0,
    ;
    assert(bits_value(x, 255) == le_value(x));
    assert((MSB_INDEX + 1) as nat == 255);
}

/// Whether bit `i` of `x` is set.
pub fn get_bit(x: &[u8; 32], i: usize) -> (r: bool)
    requires
        i < 256,
    ensures
        r == (bit_at(x@, i as nat) == 1),
{
    let k: usize = i % 8;
    let mut b: u8 = x[i / 8];
    let mut j: usize = 0;
    assert(pow2(0) == 1);
    while j < k
        invariant
            j <= k,
            k == i % 8,
            i < 256,
            b as nat == (x@[(i / 8) as int] as nat) / pow2(j as nat),
        decreases k - j,
    {
        proof {
            lemma_pow2_pos(j as nat);
            lemma_div_denominator((x@[(i / 8) as int] as nat) as int, pow2(j as nat) as int, 2);
            assert(pow2((j + 1) as nat) == pow2(j as nat) * 2);
        }
        b = b / 2;
        j = j + 1;
    }
    b % 2 == 1
}

pub proof fn lemma_pow2_pos(n: nat)
    ensures
        pow2(n) > 0,
    decreases n,
{
    if n > 0 {
        lemma_pow2_pos((n - 1) as nat);
    }
}

proof fn lemma_le_value_single(s: Seq<u8>, k: nat, v: u8)
    requires
        k < s.len(),
        s[k as int] == v,
        forall|j: int| 0 <= j < s.len() && j != k ==> s[j] == 0,
    ensures
        le_value(s) == v * pow2(8 * k),
    decreases k,
{
    reveal_with_fuel(pow2, 9);
    let t = s.drop_first();
    if k == 0 {
        assert forall|j: int| 0 <= j < t.len() implies t[j] == 0 by {
            assert(t[j] == s[j + 1]);
        }
        lemma_le_value_zero(t);
        assert(le_value(s) == s[0] as nat + 256 * le_value(t));
        assert(pow2(0) == 1);
        assert(v * pow2(0) == v) by (nonlinear_arith)
            requires
                pow2(0) == 1,
        ;
    } else {
        assert forall|j: int| 0 <= j < t.len() && j != k - 1 implies t[j] == 0 by {
            assert(t[j] == s[j + 1]);
        }
        lemma_le_value_single(t, (k - 1) as nat, v);
        lemma_pow2_add(8, (8 * (k - 1)) as nat);
        assert(8 + 8 * (k - 1) == 8 * k);
        let p = pow2((8 * (k - 1)) as nat);
        assert(256 * (v * p) == v * (256 * p)) by (nonlinear_arith);
        assert(s[0] == 0);
        assert(le_value(s) == s[0] as nat + 256 * le_value(t));
        assert(le_value(t) == v * p);
        assert(pow2(8 * k) == pow2(8) * p);
        assert(pow2(8) == 256);
    }
}

/// The scalar `2^i`, as its (not necessarily reduced) bytes.
pub fn scalar_pow2(i: usize) -> (r: [u8; 32])
    requires
        i < 256,
    ensures
        le_value(r@) == pow2(i as nat),
{
    let k: usize = i / 8;
    let mut v: u8 = 1;
    let mut j: usize = 0;
    assert(pow2(0) == 1);
    while j < i % 8
        invariant
            j <= i % 8,
            v as nat == pow2(j as nat),
            i < 256,
        decreases i % 8 - j,
    {
        proof {
            reveal_with_fuel(pow2, 9);
            assert(j < 7);
            assert(pow2(j as nat) <= 64) by {
                assert(pow2(0) == 1 && pow2(1) == 2 && pow2(2) == 4 && pow2(3) == 8);
                assert(pow2(4) == 16 && pow2(5) == 32 && pow2(6) == 64);
            }
        }
        v = v * 2;
        j = j + 1;
    }
    let mut p = [0u8; 32];
    p[k] = v;
    proof {
        lemma_le_value_single(p@, k as nat, v);
        lemma_pow2_add((i % 8) as nat, (8 * k) as nat);
        assert(i % 8 + 8 * k == i);
        let a = pow2((i % 8) as nat);
        let b = pow2((8 * k) as nat);
        assert(a * b == b * a) by (nonlinear_arith);
    }
    p
}

/// A fresh blinder, uniformly drawn from the scalars.
pub fn random_blinder() -> (r: Option<[u8; 32]>)
    ensures
        r is Some ==> le_value(r->0@) < ed_order(),
{
    let w = random_wide()?;
    Some(ed_reduce_wide(&w))
}

impl PedersenCommitment {
    /// Commits to `bit` at position `index`, blinded by `blinder`.
    pub fn from_bit_with_blinder(bit: bool, index: usize, blinder: [u8; 32]) -> (r: Self)
        requires
            index < 256,
            le_value(blinder@) < ed_order(),
        ensures
            r.blinder == blinder,
            r.commitment@ == commitment_point(bit, index as nat, le_value(blinder@)),
            ed_decodes(r.commitment@),
    {
        let commitment = if bit {
            let value = scalar_pow2(index);
            ed_pedersen(&value, &blinder)
        } else {
            ed_mul_base(&blinder)
        };
        proof {
            lemma_small_mod(le_value(blinder@), ed_order());
            lemma_small_mod(0, ed_order());
        }
        PedersenCommitment { commitment, blinder }
    }

    /// Commits to `bit` at position `index` with a fresh blinder; `None`
    /// where the random source fails.
    pub fn from_bit(bit: bool, index: usize) -> (r: Option<Self>)
        requires
            index < 256,
        ensures
            r is Some ==> le_value(r->0.blinder@) < ed_order(),
            r is Some ==> r->0.commitment@ == commitment_point(
                bit,
                index as nat,
                le_value(r->0.blinder@),
            ),
            r is Some ==> ed_decodes(r->0.commitment@),
    {
        let blinder = random_blinder()?;
        Some(PedersenCommitment::from_bit_with_blinder(bit, index, blinder))
    }
}

/// Commits to bits `0..=msb_index` of `x`, each with a fresh blinder but
/// the last, whose blinder is the negated sum of the others; `None` where
/// the random source fails.
pub fn key_commitment(x: &[u8; 32], msb_index: usize) -> (r: Option<Vec<PedersenCommitment>>)
    requires
        msb_index < 256,
    ensures
        r is Some ==> r->0@.len() == msb_index + 1,
        r is Some ==> forall|i: int|
            0 <= i < r->0@.len() ==> is_bit_commitment(r->0@[i], x@, i as nat),
        r is Some ==> blinder_total(r->0@) % ed_order() == 0,
{
    let mut commitment: Vec<PedersenCommitment> = Vec::new();
    let mut acc = [0u8; 32];
    proof {
        lemma_le_value_zero(acc@);
        lemma_small_mod(0, ed_order());
    }
    let mut i: usize = 0;
    while i < msb_index
        invariant
            i <= msb_index < 256,
            commitment@.len() == i,
            forall|j: int| 0 <= j < i ==> is_bit_commitment(commitment@[j], x@, j as nat),
            le_value(acc@) == ed_mod(blinder_total(commitment@) as int),
        decreases msb_index - i,
    {
        let bit = get_bit(x, i);
        let c = PedersenCommitment::from_bit(bit, i)?;
        let ghost before = commitment@;
        let next = ed_scalar_add(&acc, &c.blinder);
        proof {
            let m = ed_order() as int;
            lemma_add_mod_noop(blinder_total(before) as int, le_value(c.blinder@) as int, m);
            lemma_small_mod(le_value(c.blinder@), ed_order());
            lemma_mod_twice(blinder_total(before) as int, m);
        }
        commitment.push(c);
        assert(commitment@.drop_last() =~= before);
        acc = next;
        i = i + 1;
    }
    let zero = [0u8; 32];
    proof {
        lemma_le_value_zero(zero@);
    }
    let blinder_last = ed_scalar_sub(&zero, &acc);
    let bit = get_bit(x, msb_index);
    let c = PedersenCommitment::from_bit_with_blinder(bit, msb_index, blinder_last);
    let ghost before = commitment@;
    commitment.push(c);
    proof {
        assert(commitment@.drop_last() =~= before);
        lemma_telescope(blinder_total(before) as int);
    }
    Some(commitment)
}

/// A two-branch ring proof that a commitment opens to bit 0 or to bit 1:
/// challenges `e_0`, `e_1` and responses `s_0`, `s_1`, one pair per branch.
#[derive(Clone, Copy, Debug)]
pub struct RingProof {
    pub e_0: [u8; 32],
    pub e_1: [u8; 32],
    pub s_0: [u8; 32],
    pub s_1: [u8; 32],
}

/// The Fiat-Shamir challenge binding a commitment and both branch nonces.
pub open spec fn challenge_of(c: Seq<u8>, r0: Seq<u8>, r1: Seq<u8>) -> nat {
    le_value(sha256_of(c + r0 + r1)) % ed_order()
}

/// The encoding of `-2^i·H`, by doubling `-H` `i` times.
pub open spec fn neg_h(i: nat) -> Seq<u8>
    decreases i,
{
    if i == 0 {
        ed_pedersen_point(ed_mod(-1), 0)
    } else {
        ed_point_sum(neg_h((i - 1) as nat), neg_h((i - 1) as nat))
    }
}

/// `C - 2^i·H`: what the commitment `c` to bit `i` is a multiple of `G` by
/// when the bit is one.
pub open spec fn alt_point(c: Seq<u8>, i: nat) -> Seq<u8> {
    ed_point_sum(c, neg_h(i))
}

/// The branch nonce `s·G - e·P` recomputed from a challenge and a response.
pub open spec fn branch_nonce(e: [u8; 32], p: Seq<u8>, s: [u8; 32]) -> Seq<u8> {
    ed_double_mul_point(ed_mod(0 - le_value(e@)), p, le_value(s@) % ed_order())
}

/// The ring proof `p` holds for the commitment `c` to bit `i`: the two
/// challenges add up to the hash of the commitment and the recomputed nonces.
pub open spec fn ring_holds(c: Seq<u8>, i: nat, p: RingProof) -> bool {
    let r0 = branch_nonce(p.e_0, c, p.s_0);
    let r1 = branch_nonce(p.e_1, alt_point(c, i), p.s_1);
    ed_mod(le_value(p.e_0@) as int + le_value(p.e_1@) as int) == challenge_of(c, r0, r1)
}

/// The negation of a scalar.
pub fn scalar_neg(a: &[u8; 32]) -> (r: [u8; 32])
    ensures
        le_value(r@) == ed_mod(0 - le_value(a@)),
        le_value(r@) % ed_order() == le_value(r@),
{
    let zero = [0u8; 32];
    proof {
        lemma_le_value_zero(zero@);
    }
    let r = ed_scalar_sub(&zero, a);
    proof {
        lemma_small_mod(le_value(r@), ed_order());
    }
    r
}

/// The challenge of a commitment and two branch nonces.
pub fn ring_challenge(c: &[u8; 32], r0: &[u8; 32], r1: &[u8; 32]) -> (r: [u8; 32])
    ensures
        le_value(r@) == challenge_of(c@, r0@, r1@),
{
    let mut data: Vec<u8> = Vec::new();
    push_all(&mut data, c);
    push_all(&mut data, r0);
    push_all(&mut data, r1);
    assert(data@ =~= c@ + r0@ + r1@);
    let h = sha256(data.as_slice());
    ed_reduce(&h)
}

/// The encoding of `-H`.
pub fn neg_h_first() -> (r: [u8; 32])
    ensures
        r@ == neg_h(0),
        ed_decodes(r@),
{
    let mut one = [0u8; 32];
    one[0] = 1;
    proof {
        lemma_le_value_one(one@);
    }
    let minus_one = scalar_neg(&one);
    let zero = [0u8; 32];
    proof {
        lemma_le_value_zero(zero@);
        lemma_small_mod(0, ed_order());
    }
    ed_pedersen(&minus_one, &zero)
}

/// The encoding of `-2^index·H`, by doubling `-H`.
pub fn alt_generator(index: usize) -> (r: [u8; 32])
    ensures
        r@ == neg_h(index as nat),
        ed_decodes(r@),
{
    let mut h = neg_h_first();
    let mut i: usize = 0;
    while i < index
        invariant
            i <= index,
            h@ == neg_h(i as nat),
            ed_decodes(h@),
        decreases index - i,
    {
        h = double_neg_h(&h, Ghost(i as nat));
        i = i + 1;
    }
    h
}

/// Doubles `-2^i·H` into `-2^(i+1)·H`.
fn double_neg_h(h: &[u8; 32], i: Ghost<nat>) -> (r: [u8; 32])
    requires
        h@ == neg_h(i@),
        ed_decodes(h@),
    ensures
        r@ == neg_h(i@ + 1),
        ed_decodes(r@),
{
    match ed_add(h, h) {
        Some(d) => d,
        None => unreached(),
    }
}

/// Checks the ring proof of the commitment `c` to bit `index`.
pub fn verify_ring(c: &[u8; 32], index: usize, nh: &[u8; 32], p: &RingProof) -> (r: bool)
    requires
        nh@ == neg_h(index as nat),
        ed_decodes(nh@),
    ensures
        r == (ed_decodes(c@) && ring_holds(c@, index as nat, *p)),
{
    let neg_e0 = scalar_neg(&p.e_0);
    let neg_e1 = scalar_neg(&p.e_1);
    let r0 = match ed_double_mul(&neg_e0, c, &p.s_0) {
        Some(r) => r,
        None => {
            return false;
        },
    };
    let alt = match ed_add(c, nh) {
        Some(a) => a,
        None => {
            return false;
        },
    };
    let r1 = match ed_double_mul(&neg_e1, &alt, &p.s_1) {
        Some(r) => r,
        None => {
            return false;
        },
    };
    let e = ring_challenge(c, &r0, &r1);
    let sum = ed_scalar_add(&p.e_0, &p.e_1);
    proof {
        if le_value(sum@) == le_value(e@) {
            lemma_le_value_injective(sum@, e@);
        }
    }
    bytes_eq(&sum, &e)
}

/// `p` is the ring proof for the commitment `c` to `bit` at position
/// `index` made from `blinder` and the draws `k` (nonce), `e_fake` and
/// `s_fake` (the simulated branch): the real branch's challenge is the hash
/// minus `e_fake`, and its response is `k` plus that challenge times the blinder.
pub open spec fn ring_from(
    c: Seq<u8>,
    bit: bool,
    index: nat,
    blinder: [u8; 32],
    k: [u8; 32],
    e_fake: [u8; 32],
    s_fake: [u8; 32],
    p: RingProof,
) -> bool {
    let n = ed_order();
    let nonce = ed_base_mul_point(le_value(k@) % n);
    if !bit {
        let e = challenge_of(c, nonce, branch_nonce(e_fake, alt_point(c, index), s_fake));
        &&& p.e_1 == e_fake && p.s_1 == s_fake
        &&& le_value(p.e_0@) == ed_mod(e as int - le_value(e_fake@) as int)
        &&& le_value(p.s_0@) == ed_mod(
            le_value(k@) as int + ((le_value(p.e_0@) * le_value(blinder@)) % n) as int,
        )
    } else {
        let e = challenge_of(c, branch_nonce(e_fake, c, s_fake), nonce);
        &&& p.e_0 == e_fake && p.s_0 == s_fake
        &&& le_value(p.e_1@) == ed_mod(e as int - le_value(e_fake@) as int)
        &&& le_value(p.s_1@) == ed_mod(
            le_value(k@) as int + ((le_value(p.e_1@) * le_value(blinder@)) % n) as int,
        )
    }
}

/// `p` is a ring proof made by `ring_from` from some draws.
pub open spec fn ring_made(c: Seq<u8>, bit: bool, index: nat, blinder: [u8; 32], p: RingProof) -> bool {
    exists|k: [u8; 32], e: [u8; 32], f: [u8; 32]|
        #[trigger] ring_from(c, bit, index, blinder, k, e, f, p)
}

/// The ring proof of the commitment `c` to `bit` at position `index`, made
/// from `blinder` and the draws `k`, `e_fake`, `s_fake`; `InvalidPoint`
/// exactly where `c` does not decode.
pub fn prove_ring_with(
    c: &[u8; 32],
    bit: bool,
    index: usize,
    nh: &[u8; 32],
    blinder: &[u8; 32],
    k: &[u8; 32],
    e_fake: &[u8; 32],
    s_fake: &[u8; 32],
) -> (r: Result<RingProof, DleqError>)
    requires
        nh@ == neg_h(index as nat),
        ed_decodes(nh@),
    ensures
        r is Err <==> !ed_decodes(c@),
        r is Err ==> r->Err_0 == DleqError::InvalidPoint,
        r is Ok ==> ring_from(c@, bit, index as nat, *blinder, *k, *e_fake, *s_fake, r->Ok_0),
{
    let alt = match ed_add(c, nh) {
        Some(a) => a,
        None => {
            return Err(DleqError::InvalidPoint);
        },
    };
    let nonce = ed_mul_base(k);
    let neg_e_fake = scalar_neg(e_fake);
    if !bit {
        let r1 = match ed_double_mul(&neg_e_fake, &alt, s_fake) {
            Some(r) => r,
            None => unreached(),
        };
        let e = ring_challenge(c, &nonce, &r1);
        let e_0 = ed_scalar_sub(&e, e_fake);
        let s_0 = ed_scalar_add(k, &ed_scalar_mul(&e_0, blinder));
        Ok(RingProof { e_0, e_1: *e_fake, s_0, s_1: *s_fake })
    } else {
        let r0 = match ed_double_mul(&neg_e_fake, c, s_fake) {
            Some(r) => r,
            None => unreached(),
        };
        let e = ring_challenge(c, &r0, &nonce);
        let e_1 = ed_scalar_sub(&e, e_fake);
        let s_1 = ed_scalar_add(k, &ed_scalar_mul(&e_1, blinder));
        Ok(RingProof { e_0: *e_fake, e_1, s_0: *s_fake, s_1 })
    }
}

/// Proves that the commitment `c` with blinder `blinder` opens to `bit`
/// at position `index`, drawing the nonce and the simulated branch afresh.
pub fn prove_ring(c: &[u8; 32], bit: bool, index: usize, nh: &[u8; 32], blinder: &[u8; 32]) -> (r:
    Result<RingProof, DleqError>)
    requires
        nh@ == neg_h(index as nat),
        ed_decodes(nh@),
    ensures
        r == Err::<RingProof, DleqError>(DleqError::InvalidPoint) <==> !ed_decodes(c@),
        r is Err ==> r->Err_0 == DleqError::InvalidPoint || r->Err_0
            == DleqError::RandomnessUnavailable,
        r is Ok ==> ring_made(c@, bit, index as nat, *blinder, r->Ok_0),
{
    let alt = match ed_add(c, nh) {
        Some(a) => a,
        None => {
            return Err(DleqError::InvalidPoint);
        },
    };
    let (k, e_fake, s_fake) = match (random_blinder(), random_blinder(), random_blinder()) {
        (Some(k), Some(e), Some(s)) => (k, e, s),
        _ => {
            return Err(DleqError::RandomnessUnavailable);
        },
    };
    let r = prove_ring_with(c, bit, index, nh, blinder, &k, &e_fake, &s_fake);
    assert(r is Ok ==> ring_from(c@, bit, index as nat, *blinder, k, e_fake, s_fake, r->Ok_0));
    r
}

/// The cross-group proof: the secret's Ed25519 key `x·H` and Secp256k1 key
/// `x·G`, and the per-bit commitments that add up to the former.
#[derive(Clone, Debug)]
pub struct DLEQProof {
    pub xg_p: [u8; 32],
    pub xh_p: [u8; 33],
    pub c_g: Vec<PedersenCommitment>,
    pub rings: Vec<RingProof>,
    pub c_h: Vec<SecpCommitment>,
    pub rings_h: Vec<SecpRingProof>,
}

proof fn lemma_blinder_total_update(s: Seq<PedersenCommitment>, i: int, c: PedersenCommitment)
    requires
        0 <= i < s.len(),
    ensures
        blinder_total(s.update(i, c)) + le_value(s[i].blinder@) == blinder_total(s) + le_value(
            c.blinder@,
        ),
    decreases s.len(),
{
    let u = s.update(i, c);
    if i == s.len() - 1 {
        assert(u.drop_last() =~= s.drop_last());
    } else {
        assert(u.drop_last() =~= s.drop_last().update(i, c));
        lemma_blinder_total_update(s.drop_last(), i, c);
    }
}

/// Replacing one blinder of a commitment vector whose blinders cancel out
/// by a different scalar, and nothing else, leaves blinders that do not
/// cancel out: `verify` refuses such a proof.
pub proof fn lemma_changed_blinder_detected(
    s: Seq<PedersenCommitment>,
    i: int,
    c: PedersenCommitment,
)
    requires
        0 <= i < s.len(),
        blinder_total(s) % ed_order() == 0,
        c.commitment == s[i].commitment,
        le_value(c.blinder@) % ed_order() != le_value(s[i].blinder@) % ed_order(),
    ensures
        blinder_total(s.update(i, c)) % ed_order() != 0,
{
    lemma_blinder_total_update(s, i, c);
    let m = ed_order() as int;
    let t = blinder_total(s) as int;
    let b = le_value(s[i].blinder@) as int;
    let b2 = le_value(c.blinder@) as int;
    let t2 = blinder_total(s.update(i, c)) as int;
    assert(t2 == t + (b2 - b));
    if t2 % m == 0 {
        lemma_add_mod_noop(t, b2 - b, m);
        lemma_mod_twice(b2 - b, m);
        lemma_sub_mod_noop(b2, b, m);
        let d = b2 % m - b % m;
        assert(d % m == 0);
        assert(-m < d < m);
        lemma_fundamental_div_mod(d, m);
        assert(d == 0) by (nonlinear_arith)
            requires
                d == m * (d / m) + d % m,
                d % m == 0,
                -m < d < m,
                m > 0,
        ;
    }
}

/// Whether `x` is a secret that a proof can be made for.
pub open spec fn valid_secret(x: Seq<u8>) -> bool {
    &&& x[31] < 0x80
    &&& 0 < le_value(x)
    &&& le_value(x) < secp_order()
}

/// Whether the bytes of `a` are all zero, that is, `a` is the scalar zero.
pub fn is_zero_scalar(a: &[u8; 32]) -> (r: bool)
    ensures
        r == (le_value(a@) == 0),
{
    proof {
        lemma_le_value_zero(a@);
    }
    let mut k: usize = 0;
    while k < 32
        invariant
            k <= 32,
            forall|j: int| 0 <= j < k ==> a@[j] == 0,
        decreases 32 - k,
    {
        if a[k] != 0 {
            proof {
                assert(a@[k as int] != 0);
                lemma_le_value_zero(a@);
            }
            return false;
        }
        k = k + 1;
    }
    proof {
        lemma_le_value_zero(a@);
    }
    true
}

/// What `verify` accepts: 255 Ed25519 commitments that decode, each with a
/// ring proof that holds, whose blinders cancel out and whose points add up
/// to the Ed25519 key; and 255 Secp256k1 commitments whose points add up to
/// the Secp256k1 key.
pub open spec fn accepted(p: DLEQProof) -> bool {
    &&& p.c_g@.len() == MSB_INDEX + 1
    &&& p.rings@.len() == p.c_g@.len()
    &&& forall|i: int|
        0 <= i < p.c_g@.len() ==> ed_decodes(p.c_g@[i].commitment@) && ring_holds(
            p.c_g@[i].commitment@,
            i as nat,
            p.rings@[i],
        )
    &&& blinder_total(p.c_g@) % ed_order() == 0
    &&& commitment_sum(p.c_g@) == p.xg_p@
    &&& p.c_h@.len() == MSB_INDEX + 1
    &&& secp_commitment_sum(p.c_h@) == Some(p.xh_p@)
}

impl DLEQProof {
    /// Makes the proof for the little-endian secret `x`.
    pub fn generate(x: [u8; 32]) -> (r: Result<DLEQProof, DleqError>)
        ensures
            r == Err::<DLEQProof, DleqError>(DleqError::InvalidSecret) <==> !valid_secret(x@),
            valid_secret(x@) ==> r is Ok || r == Err::<DLEQProof, DleqError>(
                DleqError::RandomnessUnavailable,
            ) || r == Err::<DLEQProof, DleqError>(DleqError::Degenerate),
            r is Ok ==> {
                let p = r->Ok_0;
                &&& p.xg_p@ == ed_pedersen_point(le_value(x@) % ed_order(), 0)
                &&& ed_decodes(p.xg_p@)
                &&& p.xh_p@ == secp_public_key_of(reversed(x@))
                &&& p.c_g@.len() == MSB_INDEX + 1
                &&& forall|i: int| 0 <= i < p.c_g@.len() ==> is_bit_commitment(p.c_g@[i], x@, i as nat)
                &&& blinder_total(p.c_g@) % ed_order() == 0
                &&& p.c_h@.len() == MSB_INDEX + 1
                &&& forall|i: int|
                    0 <= i < p.c_h@.len() ==> is_secp_bit_commitment(p.c_h@[i], x@, i as nat)
                &&& secp_blinder_total(p.c_h@) % secp_order() == 0
                &&& p.rings_h@.len() == p.c_h@.len()
                &&& forall|i: int|
                    0 <= i < p.rings_h@.len() ==> secp_ring_made(
                        p.c_h@[i].commitment@,
                        bit_at(x@, i as nat) == 1,
                        i as nat,
                        p.c_h@[i].blinder,
                        #[trigger] p.rings_h@[i],
                    )
                &&& p.rings@.len() == p.c_g@.len()
                &&& forall|i: int|
                    0 <= i < p.rings@.len() ==> ring_made(
                        p.c_g@[i].commitment@,
                        bit_at(x@, i as nat) == 1,
                        i as nat,
                        p.c_g@[i].blinder,
                        #[trigger] p.rings@[i],
                    )
            },
    {
        if x[31] >= 0x80 {
            return Err(DleqError::InvalidSecret);
        }
        let mut be = [0u8; 32];
        let mut i: usize = 0;
        while i < 32
            invariant
                i <= 32,
                forall|j: int| 0 <= j < i ==> be@[j] == x@[31 - j],
            decreases 32 - i,
        {
            be[i] = x[31 - i];
            i = i + 1;
        }
        proof {
            assert(be@ =~= reversed(x@));
            lemma_reversed_value(x@);
        }
        let xh_p = match secp_public_key(&be) {
            Some(k) => k,
            None => {
                return Err(DleqError::InvalidSecret);
            },
        };
        let zero = [0u8; 32];
        proof {
            lemma_le_value_zero(zero@);
            lemma_small_mod(0, ed_order());
        }
        let xg_p = ed_pedersen(&x, &zero);
        let c_g = match key_commitment(&x, MSB_INDEX) {
            Some(c) => c,
            None => {
                return Err(DleqError::RandomnessUnavailable);
            },
        };
        let c_h = match secp_key_commitment(&x, MSB_INDEX) {
            Ok(c) => c,
            Err(SecpError::RandomnessUnavailable) => {
                return Err(DleqError::RandomnessUnavailable);
            },
            Err(SecpError::Degenerate) => {
                return Err(DleqError::Degenerate);
            },
        };
        let rings_h = match secp_prove_rings(&c_h, &x) {
            Ok(r) => r,
            Err(SecpError::RandomnessUnavailable) => {
                return Err(DleqError::RandomnessUnavailable);
            },
            Err(SecpError::Degenerate) => {
                return Err(DleqError::Degenerate);
            },
        };
        let mut rings: Vec<RingProof> = Vec::new();
        let mut nh = neg_h_first();
        let mut i: usize = 0;
        while i < c_g.len()
            invariant
                i <= c_g@.len(),
                c_g@.len() == MSB_INDEX + 1,
                forall|j: int| 0 <= j < c_g@.len() ==> is_bit_commitment(c_g@[j], x@, j as nat),
                rings@.len() == i,
                valid_secret(x@),
                nh@ == neg_h(i as nat),
                ed_decodes(nh@),
                forall|j: int|
                    0 <= j < i ==> ring_made(
                        c_g@[j].commitment@,
                        bit_at(x@, j as nat) == 1,
                        j as nat,
                        c_g@[j].blinder,
                        #[trigger] rings@[j],
                    ),
            decreases c_g@.len() - i,
        {
            let bit = get_bit(&x, i);
            match prove_ring(&c_g[i].commitment, bit, i, &nh, &c_g[i].blinder) {
                Ok(p) => rings.push(p),
                Err(_) => {
                    return Err(DleqError::RandomnessUnavailable);
                },
            }
            nh = double_neg_h(&nh, Ghost(i as nat));
            i = i + 1;
        }
        Ok(DLEQProof { xg_p, xh_p, c_g, rings, c_h, rings_h })
    }

    /// Checks a proof received from the other party (see `accepted`).
    pub fn verify(&self) -> (r: bool)
        ensures
            r ==> accepted(*self),
            r ==> self.rings_h@.len() == self.c_h@.len(),
            r ==> forall|i: int|
                0 <= i < self.c_h@.len() ==> secp_ring_holds(
                    self.c_h@[i].commitment@,
                    i as nat,
                    #[trigger] self.rings_h@[i],
                ),
            !accepted(*self) ==> !r,
    {
        let n = self.c_g.len();
        if n != MSB_INDEX + 1 || self.rings.len() != n || self.c_h.len() != n {
            return false;
        }
        let mut nh = neg_h_first();
        let mut i: usize = 0;
        while i < n
            invariant
                n == self.c_g@.len(),
                n == self.rings@.len(),
                n == MSB_INDEX + 1,
                i <= n,
                nh@ == neg_h(i as nat),
                ed_decodes(nh@),
                forall|j: int| 0 <= j < i ==> ed_decodes(#[trigger] self.c_g@[j].commitment@),
                forall|j: int|
                    0 <= j < i ==> ring_holds(
                        self.c_g@[j].commitment@,
                        j as nat,
                        #[trigger] self.rings@[j],
                    ),
            decreases n - i,
        {
            if !verify_ring(&self.c_g[i].commitment, i, &nh, &self.rings[i]) {
                return false;
            }
            assert(ed_decodes(self.c_g@[i as int].commitment@));
            assert(ring_holds(self.c_g@[i as int].commitment@, i as nat, self.rings@[i as int]));
            nh = double_neg_h(&nh, Ghost(i as nat));
            i = i + 1;
        }
        let mut acc = [0u8; 32];
        proof {
            lemma_le_value_zero(acc@);
            lemma_small_mod(0, ed_order());
        }
        let mut point = self.c_g[0].commitment;
        assert(ed_decodes(self.c_g@[0].commitment@));
        let mut i: usize = 0;
        while i < n
            invariant
                n == self.c_g@.len(),
                n == MSB_INDEX + 1,
                i <= n,
                forall|j: int| 0 <= j < n ==> ed_decodes(#[trigger] self.c_g@[j].commitment@),
                ed_decodes(point@),
                le_value(acc@) == ed_mod(blinder_total(self.c_g@.subrange(0, i as int)) as int),
                i >= 1 ==> point@ == commitment_sum(self.c_g@.subrange(0, i as int)),
                i == 0 ==> point == self.c_g@[0].commitment,
            decreases n - i,
        {
            let ghost pre = self.c_g@.subrange(0, i as int);
            let ghost post = self.c_g@.subrange(0, i + 1);
            assert(post.drop_last() =~= pre);
            let next = ed_scalar_add(&acc, &self.c_g[i].blinder);
            proof {
                let m = ed_order() as int;
                lemma_add_mod_noop(blinder_total(pre) as int, le_value(self.c_g@[i as int].blinder@) as int, m);
                lemma_mod_twice(blinder_total(pre) as int, m);
                lemma_mod_twice(le_value(self.c_g@[i as int].blinder@) as int, m);
                lemma_add_mod_noop(
                    blinder_total(pre) as int % m,
                    le_value(self.c_g@[i as int].blinder@) as int,
                    m,
                );
            }
            acc = next;
            if i > 0 {
                point = match ed_add(&point, &self.c_g[i].commitment) {
                    Some(p) => p,
                    None => unreached(),
                };
            }
            i = i + 1;
        }
        assert(self.c_g@.subrange(0, n as int) =~= self.c_g@);
        assert(point@ == commitment_sum(self.c_g@));
        assert(le_value(acc@) == ed_mod(blinder_total(self.c_g@) as int));
        proof {
            lemma_le_value_zero(acc@);
        }
        if !is_zero_scalar(&acc) {
            return false;
        }
        if !bytes_eq(&point, &self.xg_p) {
            return false;
        }
        if !secp_sum_matches(&self.c_h, &self.xh_p) {
            return false;
        }
        secp_rings_hold(&self.c_h, &self.rings_h)
    }
}

} // verus!
