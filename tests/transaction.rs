use std::marker::PhantomData;

use farcaster_core::buy::Buy;
use farcaster_core::cancel::Cancel;
use farcaster_core::refund::Refund;
use farcaster_core::funding::Funding;
use farcaster_core::punish::Punish;
use farcaster_core::script::{
    push_num, v0_p2wsh, CoopLock, DataLock, DataPunishableLock, DoubleKeys, PunishLock,
};
use farcaster_core::transaction::{Error, OutPoint, PartialSig, TemplateError, Tx};

const T_CANCEL: u32 = 144;
const T_PUNISH: u32 = 288;

fn key(tag: u8) -> [u8; 33] {
    let mut k = [tag; 33];
    k[0] = 0x02;
    k
}

fn locks() -> (DataLock, DataPunishableLock) {
    let lock = DataLock {
        timelock: T_CANCEL,
        success: DoubleKeys { alice: key(1), bob: key(2) },
        failure: DoubleKeys { alice: key(3), bob: key(4) },
    };
    let punish_lock = DataPunishableLock {
        timelock: T_PUNISH,
        success: DoubleKeys { alice: key(5), bob: key(6) },
        failure: key(7),
    };
    (lock, punish_lock)
}

fn chain() -> (Tx<Funding>, Tx<Cancel>, DataLock, DataPunishableLock) {
    let (lock, punish_lock) = locks();
    let funding = Tx::<Funding>::initialize(OutPoint { txid: [9u8; 32], vout: 1 }, 100_000, &lock);
    let cancel = Tx::<Cancel>::initialize(&funding, &lock, &punish_lock).unwrap();
    (funding, cancel, lock, punish_lock)
}

#[test]
fn script_numbers_are_minimal() {
    let cases: [(u32, Vec<u8>); 6] = [
        (0, vec![0x00]),
        (16, vec![0x60]),
        (17, vec![0x01, 0x11]),
        (144, vec![0x02, 0x90, 0x00]),
        (288, vec![0x02, 0x20, 0x01]),
        (0x7fff, vec![0x02, 0xff, 0x7f]),
    ];
    for (n, expected) in cases.iter() {
        let mut v = Vec::new();
        push_num(&mut v, *n);
        assert_eq!(&v, expected);
    }
}

#[test]
fn p2wsh_of_empty_script() {
    let spk = v0_p2wsh(&[]);
    assert_eq!(spk.len(), 34);
    assert_eq!(&spk[..2], &[0x00, 0x20]);
    assert_eq!(&spk[2..6], &[0xe3, 0xb0, 0xc4, 0x42]);
}

#[test]
fn coop_lock_round_trip() {
    let keys = DoubleKeys { alice: key(1), bob: key(2) };
    let script = CoopLock::script(&keys);
    assert_eq!(script.len(), 70);
    let back = CoopLock::from_script(&script).unwrap();
    assert_eq!(back.keys.alice, keys.alice);
    assert_eq!(back.keys.bob, keys.bob);
    assert!(CoopLock::from_script(&script[1..]).is_none());
}

#[test]
fn cancel_template_is_well_formed() {
    let (funding, cancel, lock, punish_lock) = chain();
    let tx = &cancel.psbt.unsigned_tx;
    assert_eq!(tx.version, 2);
    assert_eq!(tx.lock_time, 0);
    assert_eq!(tx.input.len(), 1);
    assert_eq!(tx.input[0].sequence, T_CANCEL);
    assert_eq!(tx.input[0].previous_output.txid, funding.psbt.unsigned_tx.txid());
    assert_eq!(tx.input[0].previous_output.vout, 0);
    assert_eq!(tx.output[0].value, 100_000);
    assert_eq!(tx.output[0].script_pubkey, PunishLock::v0_p2wsh(&punish_lock));
    assert_eq!(cancel.psbt.inputs[0].witness_script, Some(CoopLock::script(&lock.failure)));
    assert!(cancel.verify_template(&lock, &punish_lock).is_ok());
}

#[test]
fn verify_template_rejects_each_field() {
    let (_, cancel, lock, punish_lock) = chain();
    let check = |f: &dyn Fn(&mut Tx<Cancel>)| {
        let mut t = Tx::<Cancel> { psbt: cancel.psbt.clone(), kind: PhantomData };
        f(&mut t);
        t.verify_template(&lock, &punish_lock)
    };
    assert_eq!(check(&|t| t.psbt.unsigned_tx.version = 1), Err(Error::WrongTemplate(TemplateError::Version)));
    assert_eq!(check(&|t| t.psbt.unsigned_tx.lock_time = 5), Err(Error::WrongTemplate(TemplateError::LockTime)));
    assert_eq!(
        check(&|t| {
            let i = t.psbt.unsigned_tx.input[0];
            t.psbt.unsigned_tx.input.push(i)
        }),
        Err(Error::WrongTemplate(TemplateError::InputCount))
    );
    assert_eq!(
        check(&|t| {
            let o = t.psbt.unsigned_tx.output[0].clone();
            t.psbt.unsigned_tx.output.push(o)
        }),
        Err(Error::WrongTemplate(TemplateError::OutputCount))
    );
    assert_eq!(
        check(&|t| t.psbt.unsigned_tx.input[0].sequence = 0),
        Err(Error::WrongTemplate(TemplateError::Sequence))
    );
    assert_eq!(
        check(&|t| t.psbt.unsigned_tx.output[0].script_pubkey[5] ^= 1),
        Err(Error::WrongTemplate(TemplateError::ScriptPubkey))
    );
}

#[test]
fn cancel_finalize_orders_witness() {
    let (_, mut cancel, lock, _) = chain();
    let alice_sig = vec![0xaa; 71];
    let bob_sig = vec![0xbb; 72];
    cancel.psbt.inputs[0].partial_sigs.push(PartialSig { pubkey: lock.failure.bob, sig: bob_sig.clone() });
    cancel.psbt.inputs[0].partial_sigs.push(PartialSig { pubkey: lock.failure.alice, sig: alice_sig.clone() });
    assert!(Tx::<Cancel>::finalize(&mut cancel.psbt).is_ok());
    let w = cancel.psbt.inputs[0].final_script_witness.clone().unwrap();
    assert_eq!(w.len(), 3);
    assert_eq!(w[0], bob_sig);
    assert_eq!(w[1], alice_sig);
    assert_eq!(w[2], CoopLock::script(&lock.failure));
}

#[test]
fn cancel_finalize_missing_signature() {
    let (_, mut cancel, lock, _) = chain();
    cancel.psbt.inputs[0].partial_sigs.push(PartialSig { pubkey: lock.failure.alice, sig: vec![1, 2, 3] });
    assert_eq!(Tx::<Cancel>::finalize(&mut cancel.psbt), Err(Error::MissingSignature));
    assert!(cancel.psbt.inputs[0].final_script_witness.is_none());
    assert_eq!(cancel.psbt.inputs[0].partial_sigs.len(), 1);
}

#[test]
fn cancel_finalize_missing_witness() {
    let (_, mut cancel, _, _) = chain();
    cancel.psbt.inputs[0].witness_script = None;
    assert_eq!(Tx::<Cancel>::finalize(&mut cancel.psbt), Err(Error::MissingWitness));
}

#[test]
fn cancel_needs_consumable_output() {
    let (lock, punish_lock) = locks();
    let mut funding = Tx::<Funding>::initialize(OutPoint { txid: [0u8; 32], vout: 0 }, 5, &lock);
    funding.psbt.unsigned_tx.output.clear();
    assert!(matches!(Tx::<Cancel>::initialize(&funding, &lock, &punish_lock), Err(Error::NoConsumableOutput)));
}

#[test]
fn funding_cancel_punish_chain() {
    let (_, cancel, _, punish_lock) = chain();
    let destination = vec![0x00, 0x14, 0x11, 0x22];
    let punish = Tx::<Punish>::initialize(&cancel, &punish_lock, &destination).unwrap();
    let tx = &punish.psbt.unsigned_tx;
    assert_eq!(tx.input[0].sequence, T_PUNISH);
    assert_eq!(tx.input[0].previous_output.txid, cancel.psbt.unsigned_tx.txid());
    assert_eq!(tx.output[0].value, 100_000);
    assert_eq!(tx.output[0].script_pubkey, destination);
    assert_eq!(punish.psbt.inputs[0].witness_script, Some(PunishLock::script(&punish_lock)));

    let mut other = punish_lock;
    other.timelock = 289;
    assert!(matches!(
        Tx::<Punish>::initialize(&cancel, &other, &destination),
        Err(Error::WrongTemplate(TemplateError::ScriptPubkey))
    ));

    let d1 = punish.generate_failure_witness_message().unwrap();
    let d2 = punish.generate_failure_witness_message().unwrap();
    assert_eq!(d1, d2);
    let mut changed = Tx::<Punish> { psbt: punish.psbt.clone(), kind: PhantomData };
    changed.psbt.unsigned_tx.input[0].sequence = 1;
    assert_ne!(changed.generate_failure_witness_message().unwrap(), d1);
}

#[test]
fn punish_finalize_witness() {
    let (_, cancel, _, punish_lock) = chain();
    let mut punish = Tx::<Punish>::initialize(&cancel, &punish_lock, &vec![0x51]).unwrap();
    assert_eq!(Tx::<Punish>::finalize(&mut punish.psbt, &punish_lock), Err(Error::MissingSignature));
    punish.psbt.inputs[0].partial_sigs.push(PartialSig { pubkey: punish_lock.failure, sig: vec![7; 70] });
    assert!(Tx::<Punish>::finalize(&mut punish.psbt, &punish_lock).is_ok());
    let w = punish.psbt.inputs[0].final_script_witness.clone().unwrap();
    assert_eq!(w, vec![vec![7; 70], vec![], PunishLock::script(&punish_lock)]);
}

#[test]
fn txid_changes_with_content() {
    let (funding, cancel, _, _) = chain();
    let bytes = funding.psbt.unsigned_tx.serialize();
    assert_eq!(&bytes[..5], &[2, 0, 0, 0, 1]);
    assert_eq!(bytes.len(), 4 + 1 + 41 + 1 + 8 + 1 + 34 + 4);
    assert_ne!(funding.psbt.unsigned_tx.txid(), cancel.psbt.unsigned_tx.txid());
}

#[test]
fn refund_spends_cancel_cooperatively() {
    let (_, cancel, _, punish_lock) = chain();
    let destination = vec![0x00, 0x14, 0x33];
    let mut refund = Tx::<Refund>::initialize(&cancel, &punish_lock, &destination).unwrap();
    assert_eq!(refund.psbt.unsigned_tx.input[0].sequence, 0);
    assert_eq!(refund.psbt.unsigned_tx.output[0].script_pubkey, destination);
    assert_eq!(Tx::<Refund>::finalize(&mut refund.psbt, &punish_lock), Err(Error::MissingSignature));
    refund.psbt.inputs[0].partial_sigs.push(PartialSig { pubkey: punish_lock.success.alice, sig: vec![0xa1] });
    refund.psbt.inputs[0].partial_sigs.push(PartialSig { pubkey: punish_lock.success.bob, sig: vec![0xb1] });
    assert!(Tx::<Refund>::finalize(&mut refund.psbt, &punish_lock).is_ok());
    let w = refund.psbt.inputs[0].final_script_witness.clone().unwrap();
    assert_eq!(w, vec![vec![0xb1], vec![0xa1], vec![1], PunishLock::script(&punish_lock)]);
}

#[test]
fn buy_spends_funding_cooperatively() {
    let (funding, _, lock, _) = chain();
    let destination = vec![0x51];
    let mut buy = Tx::<Buy>::initialize(&funding, &lock, &destination).unwrap();
    assert_eq!(buy.psbt.unsigned_tx.input[0].sequence, 0);
    assert_eq!(buy.psbt.unsigned_tx.input[0].previous_output.txid, funding.psbt.unsigned_tx.txid());
    buy.psbt.inputs[0].partial_sigs.push(PartialSig { pubkey: lock.failure.alice, sig: vec![0xa2] });
    buy.psbt.inputs[0].partial_sigs.push(PartialSig { pubkey: lock.failure.bob, sig: vec![0xb2] });
    assert!(Tx::<Buy>::finalize(&mut buy.psbt).is_ok());
    let w = buy.psbt.inputs[0].final_script_witness.clone().unwrap();
    assert_eq!(w, vec![vec![0xb2], vec![0xa2], CoopLock::script(&lock.failure)]);
    let mut other = lock;
    other.failure.bob = key(9);
    assert!(matches!(
        Tx::<Buy>::initialize(&funding, &other, &destination),
        Err(Error::WrongTemplate(TemplateError::ScriptPubkey))
    ));
}
