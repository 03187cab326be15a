//! The punish template: after the punish timelock it sends the cancel
//! output to Alice's destination under her single punish key.
use vstd::prelude::*;

use core::marker::PhantomData;

use crate::bytes::bytes_eq;
use crate::cancel::{set_final_witness, spends_prev, stack_view, witness_set, Cancel};
use crate::hash::{sha256d, sha256d_of};
use crate::script::{p2wsh, punish_script, pays_to_punish_lock, DataPunishableLock, PunishLock};
use crate::transaction::{
    find_sig, has_consumable_output, is_consumable_of, opt_bytes, sig_for, sighash_preimage,
    spend_template, Error, Psbt, TemplateError, Tx,
};

verus! {

/// Kind of the template that punishes a party that did not refund.
pub struct Punish;

/// Whether the consumable output of `prev` pays to `punish_lock`.
pub open spec fn pays_to_lock(prev: Psbt, punish_lock: DataPunishableLock) -> bool {
    prev.unsigned_tx.output@[0].script_pubkey@ == p2wsh(punish_script(punish_lock))
}

/// The witness stack that finalizes the punish input `i` under `l`, or why there is none.
pub open spec fn punish_witness(i: crate::transaction::PsbtInput, l: DataPunishableLock) -> Result<
    Seq<Seq<u8>>,
    Error,
> {
    match i.witness_script {
        None => Err(Error::MissingWitness),
        Some(s) => if s@ != punish_script(l) {
            Err(Error::InvalidScript)
        } else {
            match sig_for(i.partial_sigs@, l.failure@) {
                Some(sig) => Ok(seq![sig, seq![], s@]),
                None => Err(Error::MissingSignature),
            }
        },
    }
}

/// The digest to sign for the punish input of `t`, or why it cannot be formed.
pub open spec fn failure_message(t: Psbt) -> Result<Seq<u8>, Error> {
    if t.unsigned_tx.input@.len() == 0 {
        Err(Error::WrongTemplate(TemplateError::InputCount))
    } else if t.inputs@.len() == 0 || t.inputs@[0].witness_script is None
        || t.inputs@[0].witness_utxo is None {
        Err(Error::MissingWitness)
    } else {
        Ok(
            sha256d_of(
                sighash_preimage(
                    t.unsigned_tx,
                    t.inputs@[0].witness_script->0@,
                    t.inputs@[0].witness_utxo->0.value,
                ),
            ),
        )
    }
}

impl Tx<Punish> {
    /// Builds the punish template: it spends the cancel output, which must
    /// pay to `punish_lock`, after its timelock, to `destination`.
    pub fn initialize(prev: &Tx<Cancel>, punish_lock: &DataPunishableLock, destination: &Vec<u8>) -> (r:
        Result<Tx<Punish>, Error>)
        ensures
            r is Ok <==> has_consumable_output(prev.psbt) && pays_to_lock(prev.psbt, *punish_lock),
            !has_consumable_output(prev.psbt) ==> r == Err::<Tx<Punish>, Error>(
                Error::NoConsumableOutput,
            ),
            has_consumable_output(prev.psbt) && !pays_to_lock(prev.psbt, *punish_lock) ==> r
                == Err::<Tx<Punish>, Error>(Error::WrongTemplate(TemplateError::ScriptPubkey)),
            r is Ok ==> spends_prev(
                r->Ok_0.psbt,
                prev.psbt,
                punish_lock.timelock,
                destination@,
                None,
            ),
    {
        let output_metadata = match prev.get_consumable_output() {
            Ok(m) => m,
            Err(e) => {
                return Err(e);
            },
        };
        if !pays_to_punish_lock(output_metadata.tx_out.script_pubkey.as_slice(), punish_lock) {
            return Err(Error::WrongTemplate(TemplateError::ScriptPubkey));
        }
        let ghost m = output_metadata;
        let psbt = spend_template(output_metadata, punish_lock.timelock, destination.clone(), None);
        assert(is_consumable_of(m, prev.psbt));
        Ok(Tx { psbt, kind: PhantomData })
    }

    /// Writes the final witness (punish signature, false branch selector,
    /// script) of the punish input; on an error nothing changes.
    pub fn finalize(psbt: &mut Psbt, punish_lock: &DataPunishableLock) -> (r: Result<(), Error>)
        ensures
            old(psbt).inputs@.len() == 0 ==> r == Err::<(), Error>(Error::MissingWitness)
                && *final(psbt) == *old(psbt),
            old(psbt).inputs@.len() >= 1 ==> match punish_witness(old(psbt).inputs@[0], *punish_lock) {
                Ok(w) => r is Ok && witness_set(*final(psbt), *old(psbt), w),
                Err(e) => r == Err::<(), Error>(e) && *final(psbt) == *old(psbt),
            },
    {
        if psbt.inputs.len() == 0 {
            return Err(Error::MissingWitness);
        }
        let script = match &psbt.inputs[0].witness_script {
            Some(s) => s.clone(),
            None => {
                return Err(Error::MissingWitness);
            },
        };
        let expected = PunishLock::script(punish_lock);
        if !bytes_eq(script.as_slice(), expected.as_slice()) {
            return Err(Error::InvalidScript);
        }
        let sig = match find_sig(&psbt.inputs[0].partial_sigs, &punish_lock.failure) {
            Some(s) => s,
            None => {
                return Err(Error::MissingSignature);
            },
        };
        let mut w: Vec<Vec<u8>> = Vec::new();
        w.push(sig);
        w.push(Vec::new());
        w.push(script);
        assert(stack_view(w@) =~= punish_witness(old(psbt).inputs@[0], *punish_lock)->Ok_0);
        set_final_witness(psbt, w);
        Ok(())
    }

    /// The digest that the punish key signs: the segwit v0 signature hash of
    /// the first input, over the recorded script and spent value.
    pub fn generate_failure_witness_message(&self) -> (r: Result<[u8; 32], Error>)
        ensures
            match failure_message(self.psbt) {
                Ok(d) => r is Ok && r->Ok_0@ == d,
                Err(e) => r == Err::<[u8; 32], Error>(e),
            },
    {
        if self.psbt.unsigned_tx.input.len() == 0 {
            return Err(Error::WrongTemplate(TemplateError::InputCount));
        }
        if self.psbt.inputs.len() == 0 {
            return Err(Error::MissingWitness);
        }
        let input = &self.psbt.inputs[0];
        match (&input.witness_script, &input.witness_utxo) {
            (Some(script), Some(utxo)) => {
                let msg = self.psbt.unsigned_tx.sighash_message(script.as_slice(), utxo.value);
                Ok(sha256d(msg.as_slice()))
            },
            _ => Err(Error::MissingWitness),
        }
    }
}

/// The punish template accepts any cancel template built for the same
/// punishable lock: its output is consumable and pays to that lock.
pub proof fn lemma_cancel_feeds_punish(
    cancel: Psbt,
    prev: Psbt,
    sequence: u32,
    punish_lock: DataPunishableLock,
)
    requires
        spends_prev(
            cancel,
            prev,
            sequence,
            p2wsh(punish_script(punish_lock)),
            Some(punish_script(punish_lock)),
        ),
    ensures
        has_consumable_output(cancel),
        pays_to_lock(cancel, punish_lock),
{
}

/// The failure witness message depends only on the unsigned transaction and
/// the first input's recorded script and spent value: equal inputs give equal digests.
pub proof fn lemma_failure_message_deterministic(a: Psbt, b: Psbt)
    requires
        a.unsigned_tx == b.unsigned_tx,
        a.inputs@.len() == b.inputs@.len(),
        a.inputs@.len() >= 1 ==> opt_bytes(a.inputs@[0].witness_script) == opt_bytes(
            b.inputs@[0].witness_script,
        ),
        a.inputs@.len() >= 1 ==> (a.inputs@[0].witness_utxo is Some) == (
        b.inputs@[0].witness_utxo is Some),
        a.inputs@.len() >= 1 && a.inputs@[0].witness_utxo is Some ==> a.inputs@[0].witness_utxo->0.value
            == b.inputs@[0].witness_utxo->0.value,
    ensures
        failure_message(a) == failure_message(b),
{
}

} // verus!
