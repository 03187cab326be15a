//! The buy template: it spends the locked funds cooperatively, with no
//! timelock, to Alice's destination.
use vstd::prelude::*;

use core::marker::PhantomData;

use crate::bytes::bytes_eq;
use crate::cancel::{cancel_witness, spends_prev, witness_set, Cancel};
use crate::funding::Funding;
use crate::script::{coop_script, p2wsh, v0_p2wsh, CoopLock, DataLock};
use crate::transaction::{
    has_consumable_output, is_consumable_of, spend_template, Error, Psbt, TemplateError, Tx,
};

verus! {

/// Kind of the template that completes the swap cooperatively.
pub struct Buy;

/// Whether the consumable output of `prev` pays to the 2-of-2 of `lock`'s cancel keys.
pub open spec fn pays_to_coop(prev: Psbt, lock: DataLock) -> bool {
    prev.unsigned_tx.output@[0].script_pubkey@ == p2wsh(coop_script(lock.failure))
}

impl Tx<Buy> {
    /// Builds the buy template: it spends the funding output, which must pay
    /// to the 2-of-2 of `lock`, without timelock, to `destination`.
    pub fn initialize(prev: &Tx<Funding>, lock: &DataLock, destination: &Vec<u8>) -> (r: Result<
        Tx<Buy>,
        Error,
    >)
        ensures
            r is Ok <==> has_consumable_output(prev.psbt) && pays_to_coop(prev.psbt, *lock),
            !has_consumable_output(prev.psbt) ==> r == Err::<Tx<Buy>, Error>(
                Error::NoConsumableOutput,
            ),
            has_consumable_output(prev.psbt) && !pays_to_coop(prev.psbt, *lock) ==> r == Err::<
                Tx<Buy>,
                Error,
            >(Error::WrongTemplate(TemplateError::ScriptPubkey)),
            r is Ok ==> spends_prev(r->Ok_0.psbt, prev.psbt, 0, destination@, None),
    {
        let output_metadata = match prev.get_consumable_output() {
            Ok(m) => m,
            Err(e) => {
                return Err(e);
            },
        };
        let script = CoopLock::script(&lock.failure);
        let expected = v0_p2wsh(script.as_slice());
        if !bytes_eq(output_metadata.tx_out.script_pubkey.as_slice(), expected.as_slice()) {
            return Err(Error::WrongTemplate(TemplateError::ScriptPubkey));
        }
        let ghost m = output_metadata;
        let psbt = spend_template(output_metadata, 0, destination.clone(), None);
        assert(is_consumable_of(m, prev.psbt));
        Ok(Tx { psbt, kind: PhantomData })
    }

    /// Writes the final witness (Bob's signature, Alice's signature, script)
    /// of the cooperative input; on an error nothing changes.
    pub fn finalize(psbt: &mut Psbt) -> (r: Result<(), Error>)
        ensures
            old(psbt).inputs@.len() == 0 ==> r == Err::<(), Error>(Error::MissingWitness)
                && *final(psbt) == *old(psbt),
            old(psbt).inputs@.len() >= 1 ==> match cancel_witness(old(psbt).inputs@[0]) {
                Ok(w) => r is Ok && witness_set(*final(psbt), *old(psbt), w),
                Err(e) => r == Err::<(), Error>(e) && *final(psbt) == *old(psbt),
            },
    {
        Tx::<Cancel>::finalize(psbt)
    }
}

} // verus!
