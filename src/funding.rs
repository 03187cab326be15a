//! The funding template: it locks the arbitrating funds under the
//! cooperative 2-of-2 of the swap's cancel keys.
use vstd::prelude::*;

use core::marker::PhantomData;

use crate::script::{coop_script, p2wsh, v0_p2wsh, CoopLock, DataLock};
use crate::transaction::{is_spend, spend_template, MetadataOutput, OutPoint, Tx, TxOut};

verus! {

/// Kind of the template that locks the funds.
pub struct Funding;

impl Tx<Funding> {
    /// Spends `out_point`, worth `value`, to the 2-of-2 of `lock`'s cancel keys.
    pub fn initialize(out_point: OutPoint, value: u64, lock: &DataLock) -> (r: Tx<Funding>)
        ensures
            is_spend(
                r.psbt,
                MetadataOutput {
                    out_point,
                    tx_out: TxOut { value, script_pubkey: r.psbt.inputs@[0].witness_utxo->0.script_pubkey },
                    script_pubkey: None,
                },
                0,
                p2wsh(coop_script(lock.failure)),
                Some(coop_script(lock.failure)),
            ),
            r.psbt.inputs@[0].witness_utxo->0.script_pubkey@.len() == 0,
    {
        let script = CoopLock::script(&lock.failure);
        let spk = v0_p2wsh(script.as_slice());
        let m = MetadataOutput {
            out_point,
            tx_out: TxOut { value, script_pubkey: Vec::new() },
            script_pubkey: None,
        };
        let psbt = spend_template(m, 0, spk, Some(script));
        Tx { psbt, kind: PhantomData }
    }
}

} // verus!
