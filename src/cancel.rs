//! The cancel template: it moves the locked funds, once the cancel timelock
//! has passed, to the punishable lock.
use vstd::prelude::*;

use core::marker::PhantomData;

use crate::roles::SwapRole;
use crate::script::{
    coop_script, p2wsh, punish_script, CoopLock, DataLock, DataPunishableLock, DoubleKeys, PunishLock,
};
use crate::transaction::{
    check_template, find_sig, has_consumable_output, is_consumable_of, is_spend, sig_for,
    spend_template, template_check, Error, MetadataOutput, Psbt, PsbtInput, Tx,
};

verus! {

/// Kind of the template that cancels the swap.
pub struct Cancel;

/// `t` spends the consumable output of `prev` after `sequence` (see `is_spend`).
pub open spec fn spends_prev(
    t: Psbt,
    prev: Psbt,
    sequence: u32,
    script_pubkey: Seq<u8>,
    witness: Option<Seq<u8>>,
) -> bool {
    exists|m: MetadataOutput|
        is_consumable_of(m, prev) && is_spend(t, m, sequence, script_pubkey, witness)
}

/// The keys of a 2-of-2 script.
pub open spec fn coop_keys(s: Seq<u8>) -> DoubleKeys {
    choose|k: DoubleKeys| coop_script(k) == s
}

/// The witness stack that finalizes the cancel input `i`, or why there is none.
pub open spec fn cancel_witness(i: PsbtInput) -> Result<Seq<Seq<u8>>, Error> {
    match i.witness_script {
        None => Err(Error::MissingWitness),
        Some(s) => if !(exists|k: DoubleKeys| coop_script(k) == s@) {
            Err(Error::InvalidScript)
        } else {
            let k = coop_keys(s@);
            match (sig_for(i.partial_sigs@, k.alice@), sig_for(i.partial_sigs@, k.bob@)) {
                (Some(a), Some(b)) => Ok(seq![b, a, s@]),
                _ => Err(Error::MissingSignature),
            }
        },
    }
}

/// The bytes of a witness stack.
pub open spec fn stack_view(w: Seq<Vec<u8>>) -> Seq<Seq<u8>> {
    w.map_values(|v: Vec<u8>| v@)
}

/// `new` is `old` with the final witness of the first input set to `w`.
pub open spec fn witness_set(new: Psbt, old: Psbt, w: Seq<Seq<u8>>) -> bool {
    &&& new.unsigned_tx == old.unsigned_tx
    &&& new.outputs == old.outputs
    &&& new.inputs@.len() == old.inputs@.len()
    &&& forall|j: int| 1 <= j < new.inputs@.len() ==> new.inputs@[j] == old.inputs@[j]
    &&& new.inputs@[0].witness_utxo == old.inputs@[0].witness_utxo
    &&& new.inputs@[0].witness_script == old.inputs@[0].witness_script
    &&& new.inputs@[0].sighash_type == old.inputs@[0].sighash_type
    &&& new.inputs@[0].partial_sigs == old.inputs@[0].partial_sigs
    &&& new.inputs@[0].final_script_witness is Some
    &&& stack_view(new.inputs@[0].final_script_witness->0@) == w
}

proof fn lemma_coop_keys_unique(k: DoubleKeys, s: Seq<u8>)
    requires
        coop_script(k) == s,
    ensures
        coop_keys(s).alice@ == k.alice@,
        coop_keys(s).bob@ == k.bob@,
{
    let c = coop_keys(s);
    assert(coop_script(c) == s);
    assert(k.alice@ =~= s.subrange(1, 34));
    assert(c.alice@ =~= s.subrange(1, 34));
    assert(k.bob@ =~= s.subrange(36, 69));
    assert(c.bob@ =~= s.subrange(36, 69));
}

/// Replaces the first input of `psbt` by a copy with final witness `w`.
pub fn set_final_witness(psbt: &mut Psbt, w: Vec<Vec<u8>>)
    requires
        old(psbt).inputs@.len() >= 1,
    ensures
        witness_set(*final(psbt), *old(psbt), stack_view(w@)),
{
    let mut input = psbt.inputs.remove(0);
    input.final_script_witness = Some(w);
    psbt.inputs.insert(0, input);
    assert forall|j: int| 1 <= j < psbt.inputs@.len() implies psbt.inputs@[j] == old(
        psbt,
    ).inputs@[j] by {}
}

impl Tx<Cancel> {
    /// Builds the cancel template spending the consumable output of `prev`
    /// after `lock`'s timelock, to the punishable lock `punish_lock`.
    pub fn initialize<P>(prev: &Tx<P>, lock: &DataLock, punish_lock: &DataPunishableLock) -> (r:
        Result<Tx<Cancel>, Error>)
        ensures
            r is Ok <==> has_consumable_output(prev.psbt),
            r is Err ==> r->Err_0 == Error::NoConsumableOutput,
            r is Ok ==> spends_prev(
                r->Ok_0.psbt,
                prev.psbt,
                lock.timelock,
                p2wsh(punish_script(*punish_lock)),
                Some(punish_script(*punish_lock)),
            ),
    {
        let script = PunishLock::script(punish_lock);
        let output_metadata = match prev.get_consumable_output() {
            Ok(m) => m,
            Err(e) => {
                return Err(e);
            },
        };
        let ghost m = output_metadata;
        let spk = crate::script::v0_p2wsh(script.as_slice());
        let psbt = spend_template(output_metadata, lock.timelock, spk, Some(script));
        assert(is_consumable_of(m, prev.psbt));
        Ok(Tx { psbt, kind: PhantomData })
    }

    /// Checks a cancel template received from the other party, field by
    /// field, and reports the first defect.
    pub fn verify_template(&self, lock: &DataLock, punish_lock: &DataPunishableLock) -> (r: Result<
        (),
        Error,
    >)
        ensures
            r == template_check(
                self.psbt.unsigned_tx,
                lock.timelock,
                p2wsh(punish_script(*punish_lock)),
            ),
    {
        let spk = PunishLock::v0_p2wsh(punish_lock);
        check_template(&self.psbt.unsigned_tx, lock.timelock, spk.as_slice())
    }

    /// Writes the final witness (Bob's signature, Alice's signature, script)
    /// of the cancel input; on an error nothing changes.
    pub fn finalize(psbt: &mut Psbt) -> (r: Result<(), Error>)
        ensures
            old(psbt).inputs@.len() == 0 ==> r == Err::<(), Error>(Error::MissingWitness)
                && *final(psbt) == *old(psbt),
            old(psbt).inputs@.len() >= 1 ==> match cancel_witness(old(psbt).inputs@[0]) {
                Ok(w) => r is Ok && witness_set(*final(psbt), *old(psbt), w),
                Err(e) => r == Err::<(), Error>(e) && *final(psbt) == *old(psbt),
            },
    {
        if psbt.inputs.len() == 0 {
            return Err(Error::MissingWitness);
        }
        let script = match &psbt.inputs[0].witness_script {
            Some(s) => s.clone(),
            None => {
                return Err(Error::MissingWitness);
            },
        };
        let swaplock = match CoopLock::from_script(script.as_slice()) {
            Some(l) => l,
            None => {
                return Err(Error::InvalidScript);
            },
        };
        proof {
            lemma_coop_keys_unique(swaplock.keys, script@);
        }
        let alice_sig = match find_sig(&psbt.inputs[0].partial_sigs, swaplock.get_pubkey(SwapRole::Alice)) {
            Some(s) => s,
            None => {
                return Err(Error::MissingSignature);
            },
        };
        let bob_sig = match find_sig(&psbt.inputs[0].partial_sigs, swaplock.get_pubkey(SwapRole::Bob)) {
            Some(s) => s,
            None => {
                return Err(Error::MissingSignature);
            },
        };
        let mut w: Vec<Vec<u8>> = Vec::new();
        w.push(bob_sig);
        w.push(alice_sig);
        w.push(script);
        assert(stack_view(w@) =~= cancel_witness(old(psbt).inputs@[0])->Ok_0);
        set_final_witness(psbt, w);
        Ok(())
    }
}

} // verus!
