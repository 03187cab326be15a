//! Spending conditions of the arbitrating chain's outputs and their script encodings.
use vstd::prelude::*;

use crate::bytes::{bytes_eq, push_all};
use crate::hash::{sha256, sha256_of};
use crate::roles::SwapRole;

verus! {

pub const OP_0: u8 = 0x00;
pub const OP_PUSHBYTES_32: u8 = 0x20;
pub const OP_PUSHBYTES_33: u8 = 0x21;
/// `OP_1` minus one: `OP_N` is `OP_N_BASE + n` for `n` in `1..=16`.
pub const OP_N_BASE: u8 = 0x50;
pub const OP_IF: u8 = 0x63;
pub const OP_ELSE: u8 = 0x67;
pub const OP_ENDIF: u8 = 0x68;
pub const OP_DROP: u8 = 0x75;
pub const OP_CHECKSIG: u8 = 0xac;
pub const OP_CHECKSIGVERIFY: u8 = 0xad;
pub const OP_CSV: u8 = 0xb2;

/// A compressed public key of the arbitrating chain.
pub type PublicKey = [u8; 33];

/// One key per role.
#[derive(Clone, Copy)]
pub struct DoubleKeys {
    pub alice: PublicKey,
    pub bob: PublicKey,
}

impl DoubleKeys {
    pub open spec fn spec_get_pubkey(&self, role: SwapRole) -> PublicKey {
        match role {
            SwapRole::Alice => self.alice,
            SwapRole::Bob => self.bob,
        }
    }

    /// The key that occupies `role`'s slot.
    pub fn get_pubkey(&self, role: SwapRole) -> (r: &PublicKey)
        ensures
            *r == self.spec_get_pubkey(role),
    {
        match role {
            SwapRole::Alice => &self.alice,
            SwapRole::Bob => &self.bob,
        }
    }
}

/// The funding lock: a cooperative path and, after `timelock` blocks, a cancel path.
#[derive(Clone, Copy)]
pub struct DataLock {
    pub timelock: u32,
    pub success: DoubleKeys,
    pub failure: DoubleKeys,
}

/// The cancel output's lock: a cooperative refund path, or after `timelock`
/// blocks the punish path under a single key.
#[derive(Clone, Copy)]
pub struct DataPunishableLock {
    pub timelock: u32,
    pub success: DoubleKeys,
    pub failure: PublicKey,
}

/// Minimal little-endian digits of `n`.
pub open spec fn minimal_le(n: nat) -> Seq<u8>
    decreases n,
{
    if n == 0 {
        seq![]
    } else {
        seq![(n % 256) as u8] + minimal_le(n / 256)
    }
}

/// The minimally encoded script number `n`, with a sign byte where the top digit needs one.
pub open spec fn num_digits(n: nat) -> Seq<u8> {
    let d = minimal_le(n);
    if d.len() > 0 && d.last() >= 0x80 {
        d.push(0u8)
    } else {
        d
    }
}

/// The opcodes that push the non-negative number `n`.
pub open spec fn script_num(n: nat) -> Seq<u8> {
    if n == 0 {
        seq![OP_0]
    } else if n <= 16 {
        seq![(OP_N_BASE + n) as u8]
    } else {
        seq![num_digits(n).len() as u8] + num_digits(n)
    }
}

/// `<alice> CHECKSIGVERIFY <bob> CHECKSIG`: both roles must sign.
pub open spec fn coop_script(k: DoubleKeys) -> Seq<u8> {
    seq![OP_PUSHBYTES_33] + k.alice@ + seq![OP_CHECKSIGVERIFY, OP_PUSHBYTES_33] + k.bob@ + seq![
        OP_CHECKSIG,
    ]
}

/// `IF <2-of-2 success> ELSE <timelock> CSV DROP <failure> CHECKSIG ENDIF`.
pub open spec fn punish_script(l: DataPunishableLock) -> Seq<u8> {
    seq![OP_IF] + coop_script(l.success) + seq![OP_ELSE] + script_num(l.timelock as nat) + seq![
        OP_CSV,
        OP_DROP,
        OP_PUSHBYTES_33,
    ] + l.failure@ + seq![OP_CHECKSIG, OP_ENDIF]
}

/// Pay-to-witness-script-hash output script for `script`.
pub open spec fn p2wsh(script: Seq<u8>) -> Seq<u8> {
    seq![OP_0, OP_PUSHBYTES_32] + sha256_of(script)
}

proof fn lemma_minimal_le_len(n: nat, k: nat)
    requires
        n < pow256(k),
    ensures
        minimal_le(n).len() <= k,
    decreases k,
{
    if n > 0 {
        if k == 0 {
        } else {
            assert(n / 256 < pow256((k - 1) as nat)) by (nonlinear_arith)
                requires
                    n < pow256(k),
                    pow256(k) == 256 * pow256((k - 1) as nat),
            ;
            lemma_minimal_le_len(n / 256, (k - 1) as nat);
        }
    }
}

pub open spec fn pow256(k: nat) -> nat
    decreases k,
{
    if k == 0 {
        1
    } else {
        256 * pow256((k - 1) as nat)
    }
}

/// Appends the push of the number `n`.
pub fn push_num(dst: &mut Vec<u8>, n: u32)
    ensures
        final(dst)@ == old(dst)@ + script_num(n as nat),
{
    if n == 0 {
        dst.push(OP_0);
        assert(dst@ =~= old(dst)@ + script_num(n as nat));
        return;
    }
    if n <= 16 {
        dst.push((OP_N_BASE as u32 + n) as u8);
        assert(dst@ =~= old(dst)@ + script_num(n as nat));
        return;
    }
    let mut digits: Vec<u8> = Vec::new();
    let mut m: u32 = n;
    while m > 0
        invariant
            digits@ + minimal_le(m as nat) == minimal_le(n as nat),
        decreases m,
    {
        let ghost before = digits@;
        digits.push((m % 256) as u8);
        assert(before + minimal_le(m as nat) =~= digits@ + minimal_le((m / 256) as nat));
        m = m / 256;
    }
    assert(digits@ + minimal_le(0) =~= digits@);
    proof {
        reveal_with_fuel(pow256, 5);
        assert(pow256(4) == 0x1_0000_0000);
        lemma_minimal_le_len(n as nat, 4);
    }
    if digits[digits.len() - 1] >= 0x80 {
        digits.push(0u8);
    }
    assert(digits@ == num_digits(n as nat));
    dst.push(digits.len() as u8);
    push_all(dst, digits.as_slice());
    assert(dst@ =~= old(dst)@ + script_num(n as nat));
}

/// Appends `<key33>`.
fn push_key(dst: &mut Vec<u8>, key: &PublicKey)
    ensures
        final(dst)@ == old(dst)@ + seq![OP_PUSHBYTES_33] + key@,
{
    dst.push(OP_PUSHBYTES_33);
    push_all(dst, key);
}

/// Appends the 2-of-2 script of `k`.
fn push_coop(dst: &mut Vec<u8>, k: &DoubleKeys)
    ensures
        final(dst)@ == old(dst)@ + coop_script(*k),
{
    push_key(dst, &k.alice);
    dst.push(OP_CHECKSIGVERIFY);
    push_key(dst, &k.bob);
    dst.push(OP_CHECKSIG);
    assert(dst@ =~= old(dst)@ + coop_script(*k));
}

/// Output script that pays to the hash of `script`.
pub fn v0_p2wsh(script: &[u8]) -> (r: Vec<u8>)
    ensures
        r@ == p2wsh(script@),
{
    let h = sha256(script);
    let mut r: Vec<u8> = Vec::new();
    r.push(OP_0);
    r.push(OP_PUSHBYTES_32);
    push_all(&mut r, &h);
    assert(r@ =~= p2wsh(script@));
    r
}

/// The cooperative 2-of-2 lock, each key in its role's slot.
#[derive(Clone, Copy)]
pub struct CoopLock {
    pub keys: DoubleKeys,
}

impl CoopLock {
    pub fn script(keys: &DoubleKeys) -> (r: Vec<u8>)
        ensures
            r@ == coop_script(*keys),
    {
        let mut r: Vec<u8> = Vec::new();
        push_coop(&mut r, keys);
        assert(r@ =~= coop_script(*keys));
        r
    }

    /// Reads the two keys back from a 2-of-2 script; `None` where `script`
    /// is not one.
    pub fn from_script(script: &[u8]) -> (r: Option<CoopLock>)
        ensures
            r.is_some() <==> exists|k: DoubleKeys| coop_script(k) == script@,
            r.is_some() ==> coop_script(r.unwrap().keys) == script@,
    {
        if script.len() != 70 || script[0] != OP_PUSHBYTES_33 || script[34] != OP_CHECKSIGVERIFY
            || script[35] != OP_PUSHBYTES_33 || script[69] != OP_CHECKSIG {
            proof {
                if exists|k: DoubleKeys| coop_script(k) == script@ {
                    let k = choose|k: DoubleKeys| coop_script(k) == script@;
                    assert(coop_script(k).len() == 70);
                    assert(coop_script(k)[0] == OP_PUSHBYTES_33);
                    assert(coop_script(k)[34] == OP_CHECKSIGVERIFY);
                    assert(coop_script(k)[35] == OP_PUSHBYTES_33);
                    assert(coop_script(k)[69] == OP_CHECKSIG);
                }
            }
            return None;
        }
        let mut alice = [0u8; 33];
        let mut bob = [0u8; 33];
        let mut i: usize = 0;
        while i < 33
            invariant
                script@.len() == 70,
                i <= 33,
                forall|j: int| 0 <= j < i ==> alice@[j] == script@[1 + j],
                forall|j: int| 0 <= j < i ==> bob@[j] == script@[36 + j],
            decreases 33 - i,
        {
            alice[i] = script[1 + i];
            bob[i] = script[36 + i];
            i = i + 1;
        }
        let keys = DoubleKeys { alice, bob };
        assert(coop_script(keys) =~= script@);
        Some(CoopLock { keys })
    }

    pub fn get_pubkey(&self, role: SwapRole) -> (r: &PublicKey)
        ensures
            *r == self.keys.spec_get_pubkey(role),
    {
        self.keys.get_pubkey(role)
    }
}

/// The punishable lock of the cancel output.
pub struct PunishLock;

impl PunishLock {
    pub fn script(lock: &DataPunishableLock) -> (r: Vec<u8>)
        ensures
            r@ == punish_script(*lock),
    {
        let mut r: Vec<u8> = Vec::new();
        r.push(OP_IF);
        push_coop(&mut r, &lock.success);
        r.push(OP_ELSE);
        push_num(&mut r, lock.timelock);
        r.push(OP_CSV);
        r.push(OP_DROP);
        push_key(&mut r, &lock.failure);
        r.push(OP_CHECKSIG);
        r.push(OP_ENDIF);
        assert(r@ =~= punish_script(*lock));
        r
    }

    pub fn v0_p2wsh(lock: &DataPunishableLock) -> (r: Vec<u8>)
        ensures
            r@ == p2wsh(punish_script(*lock)),
    {
        let s = PunishLock::script(lock);
        v0_p2wsh(s.as_slice())
    }
}

/// Whether `script_pubkey` pays to the punishable lock `lock`.
pub fn pays_to_punish_lock(script_pubkey: &[u8], lock: &DataPunishableLock) -> (r: bool)
    ensures
        r == (script_pubkey@ == p2wsh(punish_script(*lock))),
{
    let expected = PunishLock::v0_p2wsh(lock);
    bytes_eq(script_pubkey, expected.as_slice())
}

} // verus!
