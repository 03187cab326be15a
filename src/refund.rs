//! The refund template: it returns the cancel output to Bob at once, under
//! the cooperative branch of the punishable lock.
use vstd::prelude::*;

use core::marker::PhantomData;

use crate::bytes::bytes_eq;
use crate::cancel::{set_final_witness, spends_prev, stack_view, witness_set, Cancel};
use crate::punish::pays_to_lock;
use crate::script::{pays_to_punish_lock, punish_script, DataPunishableLock, PunishLock};
use crate::transaction::{
    find_sig, has_consumable_output, is_consumable_of, sig_for, spend_template, Error, Psbt,
    PsbtInput, TemplateError, Tx,
};

verus! {

/// Kind of the template that refunds Bob after a cancel.
pub struct Refund;

/// The witness stack that finalizes the refund input `i` under `l`, or why
/// there is none: both cooperative signatures and the branch selector `1`.
pub open spec fn refund_witness(i: PsbtInput, l: DataPunishableLock) -> Result<Seq<Seq<u8>>, Error> {
    match i.witness_script {
        None => Err(Error::MissingWitness),
        Some(s) => if s@ != punish_script(l) {
            Err(Error::InvalidScript)
        } else {
            match (sig_for(i.partial_sigs@, l.success.alice@), sig_for(i.partial_sigs@, l.success.bob@)) {
                (Some(a), Some(b)) => Ok(seq![b, a, seq![1u8], s@]),
                _ => Err(Error::MissingSignature),
            }
        },
    }
}

impl Tx<Refund> {
    /// Builds the refund template: it spends the cancel output, which must
    /// pay to `punish_lock`, without timelock, to `destination`.
    pub fn initialize(prev: &Tx<Cancel>, punish_lock: &DataPunishableLock, destination: &Vec<u8>) -> (r:
        Result<Tx<Refund>, Error>)
        ensures
            r is Ok <==> has_consumable_output(prev.psbt) && pays_to_lock(prev.psbt, *punish_lock),
            !has_consumable_output(prev.psbt) ==> r == Err::<Tx<Refund>, Error>(
                Error::NoConsumableOutput,
            ),
            has_consumable_output(prev.psbt) && !pays_to_lock(prev.psbt, *punish_lock) ==> r
                == Err::<Tx<Refund>, Error>(Error::WrongTemplate(TemplateError::ScriptPubkey)),
            r is Ok ==> spends_prev(r->Ok_0.psbt, prev.psbt, 0, destination@, None),
    {
        let output_metadata = match prev.get_consumable_output() {
            Ok(m) => m,
            Err(e) => {
                return Err(e);
            },
        };
        if !pays_to_punish_lock(output_metadata.tx_out.script_pubkey.as_slice(), punish_lock) {
            return Err(Error::WrongTemplate(TemplateError::ScriptPubkey));
        }
        let ghost m = output_metadata;
        let psbt = spend_template(output_metadata, 0, destination.clone(), None);
        assert(is_consumable_of(m, prev.psbt));
        Ok(Tx { psbt, kind: PhantomData })
    }

    /// Writes the final witness (Bob's signature, Alice's signature, true
    /// branch selector, script) of the refund input; on an error nothing changes.
    pub fn finalize(psbt: &mut Psbt, punish_lock: &DataPunishableLock) -> (r: Result<(), Error>)
        ensures
            old(psbt).inputs@.len() == 0 ==> r == Err::<(), Error>(Error::MissingWitness)
                && *final(psbt) == *old(psbt),
            old(psbt).inputs@.len() >= 1 ==> match refund_witness(old(psbt).inputs@[0], *punish_lock) {
                Ok(w) => r is Ok && witness_set(*final(psbt), *old(psbt), w),
                Err(e) => r == Err::<(), Error>(e) && *final(psbt) == *old(psbt),
            },
    {
        if psbt.inputs.len() == 0 {
            return Err(Error::MissingWitness);
        }
        let script = match &psbt.inputs[0].witness_script {
            Some(s) => s.clone(),
            None => {
                return Err(Error::MissingWitness);
            },
        };
        let expected = PunishLock::script(punish_lock);
        if !bytes_eq(script.as_slice(), expected.as_slice()) {
            return Err(Error::InvalidScript);
        }
        let alice_sig = match find_sig(&psbt.inputs[0].partial_sigs, &punish_lock.success.alice) {
            Some(s) => s,
            None => {
                return Err(Error::MissingSignature);
            },
        };
        let bob_sig = match find_sig(&psbt.inputs[0].partial_sigs, &punish_lock.success.bob) {
            Some(s) => s,
            None => {
                return Err(Error::MissingSignature);
            },
        };
        let mut selector: Vec<u8> = Vec::new();
        selector.push(1u8);
        let mut w: Vec<Vec<u8>> = Vec::new();
        w.push(bob_sig);
        w.push(alice_sig);
        w.push(selector);
        w.push(script);
        assert(stack_view(w@) =~= refund_witness(old(psbt).inputs@[0], *punish_lock)->Ok_0);
        set_final_witness(psbt, w);
        Ok(())
    }
}

} // verus!
