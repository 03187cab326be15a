use curve25519_dalek::edwards::{CompressedEdwardsY, EdwardsPoint};
use curve25519_dalek::scalar::Scalar;
use curve25519_dalek::traits::Identity;
use rand::Rng;

use farcaster_core::dleq::{
    alt_generator, key_commitment, prove_ring, prove_ring_with, verify_ring, DLEQProof, DleqError, PedersenCommitment, MSB_INDEX,
};
use farcaster_core::secp::{
    secp_commit, secp_prove_ring, secp_rings_hold, secp_scalar_add, secp_scalar_neg, secp_sum_matches,
    secp_verify_ring,
};
use farcaster_core::scalar::{ed_add, ed_pedersen, ed_scalar_add, ed_scalar_sub, secp_public_key};

fn monero_h() -> EdwardsPoint {
    CompressedEdwardsY(monero::util::key::H.point.to_bytes()).decompress().unwrap()
}

fn random_secret() -> [u8; 32] {
    let mut x: [u8; 32] = rand::thread_rng().gen();
    x[31] &= 0b0111_1111;
    x
}

fn hex32(s: &str) -> Vec<u8> {
    (0..s.len() / 2).map(|i| u8::from_str_radix(&s[2 * i..2 * i + 2], 16).unwrap()).collect()
}

#[test]
fn pedersen_commitment_works() {
    let x = random_secret();
    let key_commitment = key_commitment(&x, 254).unwrap();
    let commitment_acc = key_commitment.iter().fold(EdwardsPoint::identity(), |acc, bit_commitment| {
        acc + CompressedEdwardsY(bit_commitment.commitment).decompress().unwrap()
    });
    assert_eq!(Scalar::from_bytes_mod_order(x) * monero_h(), commitment_acc);
}

#[test]
fn blinders_sum_to_zero() {
    let x: [u8; 32] = rand::thread_rng().gen();
    let key_commitment = key_commitment(&x, 254).unwrap();
    let blinder_acc = key_commitment.iter().fold(Scalar::ZERO, |acc, bit_commitment| {
        acc + Scalar::from_bytes_mod_order(bit_commitment.blinder)
    });
    assert_eq!(blinder_acc, Scalar::ZERO);
}

#[test]
fn key_commitment_commits_to_each_bit() {
    let x = random_secret();
    let c = key_commitment(&x, 254).unwrap();
    assert_eq!(c.len(), 255);
    let g = curve25519_dalek::constants::ED25519_BASEPOINT_POINT;
    for (i, bc) in c.iter().enumerate() {
        let bit = (x[i / 8] >> (i % 8)) & 1;
        let mut pow = [0u8; 32];
        pow[i / 8] = 1 << (i % 8);
        let v = if bit == 1 { Scalar::from_bytes_mod_order(pow) } else { Scalar::ZERO };
        let expected = v * monero_h() + Scalar::from_bytes_mod_order(bc.blinder) * g;
        assert_eq!(expected.compress().to_bytes(), bc.commitment);
    }
}

#[test]
fn generate_then_verify_holds() {
    for _ in 0..1 {
        let x = random_secret();
        if x == [0u8; 32] {
            continue;
        }
        let proof = DLEQProof::generate(x).unwrap();
        assert_eq!(proof.c_g.len(), MSB_INDEX + 1);
        assert!(proof.verify());
    }
}

#[test]
fn generate_public_keys() {
    let x = random_secret();
    let proof = DLEQProof::generate(x).unwrap();
    assert_eq!(proof.xg_p, (Scalar::from_bytes_mod_order(x) * monero_h()).compress().to_bytes());
    let mut be = x;
    be.reverse();
    let sk = secp256k1::SecretKey::from_secret_bytes(be).unwrap();
    assert_eq!(proof.xh_p, secp256k1::PublicKey::from_secret_key(&sk).serialize());
}

#[test]
fn generate_small_secret() {
    let mut x = [0u8; 32];
    x[0] = 1;
    let proof = DLEQProof::generate(x).unwrap();
    assert_eq!(proof.xg_p.to_vec(), hex32("8b655970153799af2aeadc9ff1add0ea6c7251d54154cfa92c173a0dd39c1f94"));
    assert_eq!(
        proof.xh_p.to_vec(),
        hex32("0279be667ef9dcbbac55a06295ce870b07029bfcdb2dce28d959f2815b16f81798")
    );
    assert!(proof.verify());
}

#[test]
fn generate_rejects_zero_secret() {
    assert!(matches!(DLEQProof::generate([0u8; 32]), Err(DleqError::InvalidSecret)));
}

#[test]
fn generate_rejects_top_bit() {
    let mut x = [0u8; 32];
    x[0] = 5;
    x[31] = 0x80;
    assert!(matches!(DLEQProof::generate(x), Err(DleqError::InvalidSecret)));
}

#[test]
fn flipped_bit_commitment_fails_verify() {
    let x = random_secret();
    let mut proof = DLEQProof::generate(x).unwrap();
    let i = 17;
    let bit = (x[i / 8] >> (i % 8)) & 1 == 1;
    let flipped = PedersenCommitment::from_bit_with_blinder(!bit, i, proof.c_g[i].blinder);
    proof.c_g[i] = flipped;
    assert!(!proof.verify());
}

#[test]
fn flipped_blinder_fails_verify() {
    let x = random_secret();
    let mut proof = DLEQProof::generate(x).unwrap();
    let mut one = [0u8; 32];
    one[0] = 1;
    proof.c_g[3].blinder = ed_scalar_add(&proof.c_g[3].blinder, &one);
    assert!(!proof.verify());
}

#[test]
fn truncated_proof_fails_verify() {
    let x = random_secret();
    let mut proof = DLEQProof::generate(x).unwrap();
    proof.c_g.pop();
    assert!(!proof.verify());
}

#[test]
fn scalar_wrappers_compute() {
    let mut a = [0u8; 32];
    a[0] = 200;
    let mut b = [0u8; 32];
    b[0] = 100;
    let s = ed_scalar_add(&a, &b);
    assert_eq!(&s[..2], &[44, 1]);
    let d = ed_scalar_sub(&b, &a);
    assert_eq!(Scalar::from_bytes_mod_order(d), -Scalar::from(100u64));
    let one = {
        let mut o = [0u8; 32];
        o[0] = 1;
        o
    };
    let zero = [0u8; 32];
    let h = ed_pedersen(&one, &zero);
    let two_h = ed_add(&h, &h).unwrap();
    let mut two = [0u8; 32];
    two[0] = 2;
    assert_eq!(two_h, ed_pedersen(&two, &zero));
    assert_ne!(two_h, h);
    assert!(secp_public_key(&[0u8; 32]).is_none());
    assert!(secp_public_key(&[0xffu8; 32]).is_none());
}

#[test]
fn ring_proofs_accept_bits() {
    let mut blinder = [0u8; 32];
    blinder[0] = 42;
    for index in [0usize, 7, 40, 254] {
        for bit in [false, true] {
            let c = PedersenCommitment::from_bit_with_blinder(bit, index, blinder);
            let nh = alt_generator(index);
            let ring = prove_ring(&c.commitment, bit, index, &nh, &c.blinder).unwrap();
            assert!(verify_ring(&c.commitment, index, &nh, &ring));
            let next = alt_generator(index + 1);
            assert!(!verify_ring(&c.commitment, index + 1, &next, &ring));
        }
    }
}

#[test]
fn ring_proof_rejects_non_bit() {
    let mut blinder = [0u8; 32];
    blinder[0] = 9;
    let c = PedersenCommitment::from_bit_with_blinder(true, 3, blinder);
    let wrong = PedersenCommitment::from_bit_with_blinder(true, 4, blinder);
    let nh = alt_generator(3);
    let ring = prove_ring(&wrong.commitment, true, 3, &nh, &wrong.blinder).unwrap();
    assert!(!verify_ring(&wrong.commitment, 3, &nh, &ring));
    let ring = prove_ring(&c.commitment, false, 3, &nh, &c.blinder).unwrap();
    assert!(!verify_ring(&c.commitment, 3, &nh, &ring));
}

#[test]
fn tampered_ring_fails_verify() {
    let x = random_secret();
    let mut proof = DLEQProof::generate(x).unwrap();
    assert_eq!(proof.rings.len(), proof.c_g.len());
    proof.rings[10].e_0[0] ^= 1;
    assert!(!proof.verify());
}

#[test]
fn secp_commitments_add_up_to_key() {
    let x = random_secret();
    let mut proof = DLEQProof::generate(x).unwrap();
    assert_eq!(proof.c_h.len(), MSB_INDEX + 1);
    assert!(secp_sum_matches(&proof.c_h, &proof.xh_p));
    let i = 5;
    let bit = (x[i / 8] >> (i % 8)) & 1 == 1;
    proof.c_h[i] = secp_commit(!bit, i, &proof.c_h[i].blinder).unwrap();
    assert!(!secp_sum_matches(&proof.c_h, &proof.xh_p));
    assert!(!proof.verify());
}

#[test]
fn secp_scalar_wrappers_compute() {
    let mut a = [0u8; 32];
    a[31] = 200;
    let mut b = [0u8; 32];
    b[31] = 100;
    let s = secp_scalar_add(&a, &b).unwrap();
    assert_eq!(&s[30..], &[1, 44]);
    let n = secp_scalar_neg(&a).unwrap();
    assert!(secp_scalar_add(&a, &n).is_none());
    assert!(secp_scalar_neg(&[0u8; 32]).is_none());
}

#[test]
fn secp_ring_proofs_checked() {
    let x = random_secret();
    let mut proof = DLEQProof::generate(x).unwrap();
    assert_eq!(proof.rings_h.len(), MSB_INDEX + 1);
    assert!(secp_rings_hold(&proof.c_h, &proof.rings_h));
    for i in [0usize, 100, 254] {
        assert!(secp_verify_ring(&proof.c_h[i].commitment, i, &proof.rings_h[i]));
        assert!(!secp_verify_ring(&proof.c_h[i].commitment, (i + 1) % 255, &proof.rings_h[i]));
    }
    proof.rings_h[7].s_0[31] ^= 1;
    assert!(!proof.verify());
}

#[test]
fn secp_ring_rejects_wrong_bit() {
    let mut blinder = [0u8; 32];
    blinder[31] = 77;
    let c = secp_commit(true, 9, &blinder).unwrap();
    let ring = secp_prove_ring(&c.commitment, false, 9, &blinder).unwrap();
    assert!(!secp_verify_ring(&c.commitment, 9, &ring));
    let ring = secp_prove_ring(&c.commitment, true, 9, &blinder).unwrap();
    assert!(secp_verify_ring(&c.commitment, 9, &ring));
}

#[test]
fn ring_from_given_draws_is_deterministic() {
    let mut blinder = [0u8; 32];
    blinder[0] = 11;
    let (mut k, mut e, mut s) = ([0u8; 32], [0u8; 32], [0u8; 32]);
    k[0] = 3;
    e[0] = 5;
    s[0] = 7;
    for bit in [false, true] {
        let c = PedersenCommitment::from_bit_with_blinder(bit, 12, blinder);
        let nh = alt_generator(12);
        let p = prove_ring_with(&c.commitment, bit, 12, &nh, &blinder, &k, &e, &s).unwrap();
        let q = prove_ring_with(&c.commitment, bit, 12, &nh, &blinder, &k, &e, &s).unwrap();
        assert_eq!((p.e_0, p.e_1, p.s_0, p.s_1), (q.e_0, q.e_1, q.s_0, q.s_1));
        if bit { assert_eq!((p.e_0, p.s_0), (e, s)); } else { assert_eq!((p.e_1, p.s_1), (e, s)); }
        assert!(verify_ring(&c.commitment, 12, &nh, &p));
    }
}

#[test]
fn secp_commit_needs_valid_blinder() {
    assert!(secp_commit(false, 3, &[0u8; 32]).is_none());
    assert!(secp_commit(true, 3, &[0xffu8; 32]).is_none());
    let mut b = [0u8; 32];
    b[31] = 1;
    let zero_bit = secp_commit(false, 3, &b).unwrap();
    let one_bit = secp_commit(true, 3, &b).unwrap();
    assert_ne!(zero_bit.commitment, one_bit.commitment);
}
