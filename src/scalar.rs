//! The two groups' scalars and points, as the swap's proofs use them.
//!
//! A scalar of the Ed25519 group is held as its 32 little-endian bytes; a
//! point as its 32-byte compressed encoding. Arithmetic is done by
//! curve25519-dalek; the Secp256k1 public key by secp256k1.
use vstd::prelude::*;

use curve25519_dalek::edwards::{CompressedEdwardsY, EdwardsPoint};
use curve25519_dalek::scalar::Scalar;

verus! {

/// Two to the power `n`.
pub open spec fn pow2(n: nat) -> nat
    decreases n,
{
    if n == 0 {
        1
    } else {
        2 * pow2((n - 1) as nat)
    }
}

/// The order of the Ed25519 prime-order group.
pub open spec fn ed_order() -> nat {
    pow2(252) + 0x14def9dea2f79cd65812631a5cf5d3ed
}

/// The order of the Secp256k1 group.
pub open spec fn secp_order() -> nat {
    (pow2(256) - 0x14551231950b75fc4402da1732fc9bebf) as nat
}

/// `i` reduced modulo the Ed25519 group order.
pub open spec fn ed_mod(i: int) -> nat {
    (i % (ed_order() as int)) as nat
}

/// The unsigned integer whose little-endian digits are `s`.
pub open spec fn le_value(s: Seq<u8>) -> nat
    decreases s.len(),
{
    if s.len() == 0 {
        0
    } else {
        s[0] as nat + 256 * le_value(s.drop_first())
    }
}

/// The unsigned integer whose big-endian digits are `s`.
pub open spec fn be_value(s: Seq<u8>) -> nat
    decreases s.len(),
{
    if s.len() == 0 {
        0
    } else {
        s.last() as nat + 256 * be_value(s.drop_last())
    }
}

/// The compressed encoding of `a·H + b·G`, where `G` is the Ed25519 base
/// point and `H` the Monero alternate generator.
pub uninterp spec fn ed_pedersen_point(a: nat, b: nat) -> Seq<u8>;

/// The compressed encoding of `b·G`, where `G` is the Ed25519 base point.
pub uninterp spec fn ed_base_mul_point(b: nat) -> Seq<u8>;

/// The compressed encoding of `a·P + b·G`, where `P` is encoded by `p`.
pub uninterp spec fn ed_double_mul_point(a: nat, p: Seq<u8>, b: nat) -> Seq<u8>;

/// Whether `p` decompresses to an Ed25519 point.
pub uninterp spec fn ed_decodes(p: Seq<u8>) -> bool;

/// The compressed encoding of the sum of two encoded Ed25519 points.
pub uninterp spec fn ed_point_sum(p: Seq<u8>, q: Seq<u8>) -> Seq<u8>;

/// The compressed Secp256k1 public key of a big-endian secret.
pub uninterp spec fn secp_public_key_of(secret: Seq<u8>) -> Seq<u8>;

/// Relies on `rand::rngs::OsRng::try_fill_bytes` filling 64 bytes from the
/// operating system's generator; `None` where that source fails. Nothing is
/// promised of the bytes.
#[verifier::external_body]
pub fn random_wide() -> (r: Option<[u8; 64]>) {
    let mut w = [0u8; 64];
    rand::RngCore::try_fill_bytes(&mut rand::rngs::OsRng, &mut w).ok()?;
    Some(w)
}

/// Relies on curve25519-dalek's `Scalar::from_bytes_mod_order_wide`: a
/// 512-bit little-endian integer reduced modulo the group order.
#[verifier::external_body]
pub fn ed_reduce_wide(w: &[u8; 64]) -> (r: [u8; 32])
    ensures
        le_value(r@) == le_value(w@) % ed_order(),
{
    Scalar::from_bytes_mod_order_wide(w).to_bytes()
}

/// Relies on curve25519-dalek's scalar addition, on scalars read with
/// `Scalar::from_bytes_mod_order`.
#[verifier::external_body]
pub fn ed_scalar_add(a: &[u8; 32], b: &[u8; 32]) -> (r: [u8; 32])
    ensures
        le_value(r@) == ed_mod(le_value(a@) as int + le_value(b@) as int),
{
    (Scalar::from_bytes_mod_order(*a) + Scalar::from_bytes_mod_order(*b)).to_bytes()
}

/// Relies on curve25519-dalek's scalar subtraction, on scalars read with
/// `Scalar::from_bytes_mod_order`.
#[verifier::external_body]
pub fn ed_scalar_sub(a: &[u8; 32], b: &[u8; 32]) -> (r: [u8; 32])
    ensures
        le_value(r@) == ed_mod(le_value(a@) as int - le_value(b@) as int),
{
    (Scalar::from_bytes_mod_order(*a) - Scalar::from_bytes_mod_order(*b)).to_bytes()
}

/// Relies on curve25519-dalek's scalar multiplication, on scalars read with
/// `Scalar::from_bytes_mod_order`.
#[verifier::external_body]
pub fn ed_scalar_mul(a: &[u8; 32], b: &[u8; 32]) -> (r: [u8; 32])
    ensures
        le_value(r@) == (le_value(a@) * le_value(b@)) % ed_order(),
{
    (Scalar::from_bytes_mod_order(*a) * Scalar::from_bytes_mod_order(*b)).to_bytes()
}

/// Relies on curve25519-dalek's `Scalar::from_bytes_mod_order`: a 256-bit
/// little-endian integer reduced modulo the group order.
#[verifier::external_body]
pub fn ed_reduce(b: &[u8; 32]) -> (r: [u8; 32])
    ensures
        le_value(r@) == le_value(b@) % ed_order(),
{
    Scalar::from_bytes_mod_order(*b).to_bytes()
}

/// Relies on curve25519-dalek's `EdwardsPoint::vartime_double_scalar_mul_basepoint`
/// computing `a·P + b·G`; `None` where `p` does not decompress to a point.
#[verifier::external_body]
pub fn ed_double_mul(a: &[u8; 32], p: &[u8; 32], b: &[u8; 32]) -> (r: Option<[u8; 32]>)
    ensures
        r is Some ==> r->0@ == ed_double_mul_point(
            le_value(a@) % ed_order(),
            p@,
            le_value(b@) % ed_order(),
        ),
        (r is Some) == ed_decodes(p@),
        r is Some ==> ed_decodes(r->0@),
{
    let p = CompressedEdwardsY(*p).decompress()?;
    let a = Scalar::from_bytes_mod_order(*a);
    let b = Scalar::from_bytes_mod_order(*b);
    Some(EdwardsPoint::vartime_double_scalar_mul_basepoint(&a, &p, &b).compress().to_bytes())
}

/// Relies on curve25519-dalek's `EdwardsPoint::vartime_double_scalar_mul_basepoint`
/// computing `a·H + b·G`, with monero's `util::key::H` as `H`.
#[verifier::external_body]
pub fn ed_pedersen(a: &[u8; 32], b: &[u8; 32]) -> (r: [u8; 32])
    ensures
        r@ == ed_pedersen_point(
            le_value(a@) % ed_order(),
            le_value(b@) % ed_order(),
        ),
        ed_decodes(r@),
{
    let h = CompressedEdwardsY(monero::util::key::H.point.to_bytes()).decompress().unwrap();
    let a = Scalar::from_bytes_mod_order(*a);
    let b = Scalar::from_bytes_mod_order(*b);
    EdwardsPoint::vartime_double_scalar_mul_basepoint(&a, &h, &b).compress().to_bytes()
}

/// Relies on curve25519-dalek's `EdwardsPoint::mul_base` computing `b·G`.
#[verifier::external_body]
pub fn ed_mul_base(b: &[u8; 32]) -> (r: [u8; 32])
    ensures
        r@ == ed_base_mul_point(le_value(b@) % ed_order()),
        ed_decodes(r@),
{
    EdwardsPoint::mul_base(&Scalar::from_bytes_mod_order(*b)).compress().to_bytes()
}

/// Relies on curve25519-dalek's point addition; `None` where an encoding
/// does not decompress to a point.
#[verifier::external_body]
pub fn ed_add(p: &[u8; 32], q: &[u8; 32]) -> (r: Option<[u8; 32]>)
    ensures
        r is Some ==> r->0@ == ed_point_sum(p@, q@),
        (r is Some) == (ed_decodes(p@) && ed_decodes(q@)),
        r is Some ==> ed_decodes(r->0@),
{
    let p = CompressedEdwardsY(*p).decompress()?;
    let q = CompressedEdwardsY(*q).decompress()?;
    Some((p + q).compress().to_bytes())
}

/// Relies on secp256k1's `SecretKey::from_secret_bytes`, which refuses zero
/// and values not below the group order, and `PublicKey::from_secret_key`.
#[verifier::external_body]
pub fn secp_public_key(secret_be: &[u8; 32]) -> (r: Option<[u8; 33]>)
    ensures
        r is Some <==> 0 < be_value(secret_be@) < secp_order(),
        r is Some ==> r->0@ == secp_public_key_of(secret_be@),
{
    let sk = secp256k1::SecretKey::from_secret_bytes(*secret_be).ok()?;
    Some(secp256k1::PublicKey::from_secret_key(&sk).serialize())
}

} // verus!
