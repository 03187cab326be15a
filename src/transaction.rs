//! Transactions of the arbitrating chain, their partially signed form, and
//! the metadata a template hands to its successor.
use vstd::prelude::*;

use core::marker::PhantomData;

use crate::bytes::{bytes_eq, compact_size, le_bytes, push_all, push_compact_size, push_le, push_var_bytes, var_bytes};
use crate::hash::{sha256d, sha256d_of};
use crate::script::PublicKey;

verus! {

/// The transaction version every template uses.
pub const TX_VERSION: u32 = 2;

/// The signature hash type every template signs with.
pub const SIGHASH_ALL: u32 = 1;

/// Why a structural check of a template failed.
#[derive(Clone, Copy, Debug, PartialEq, Eq, Structural)]
pub enum TemplateError {
    Version,
    LockTime,
    InputCount,
    OutputCount,
    Sequence,
    ScriptPubkey,
}

/// Errors of the transaction template engine.
#[derive(Clone, Copy, Debug, PartialEq, Eq, Structural)]
pub enum Error {
    /// The input to finalize carries no witness script.
    MissingWitness,
    /// A required partial signature is absent.
    MissingSignature,
    /// The predecessor exposes no output that can be spent.
    NoConsumableOutput,
    /// A witness script is not of the expected shape.
    InvalidScript,
    /// A template fails a structural check.
    WrongTemplate(TemplateError),
}

/// A reference to an output of a transaction.
#[derive(Clone, Copy, Debug)]
pub struct OutPoint {
    pub txid: [u8; 32],
    pub vout: u32,
}

/// An input; its signature script is always empty (segwit spends).
#[derive(Clone, Copy, Debug)]
pub struct TxIn {
    pub previous_output: OutPoint,
    pub sequence: u32,
}

#[derive(Clone, Debug)]
pub struct TxOut {
    pub value: u64,
    pub script_pubkey: Vec<u8>,
}

#[derive(Clone, Debug)]
pub struct Transaction {
    pub version: u32,
    pub lock_time: u32,
    pub input: Vec<TxIn>,
    pub output: Vec<TxOut>,
}

/// A signature by `pubkey` attached to an input.
#[derive(Clone, Debug)]
pub struct PartialSig {
    pub pubkey: PublicKey,
    pub sig: Vec<u8>,
}

/// What a partially signed transaction records of an input.
#[derive(Clone, Debug)]
pub struct PsbtInput {
    pub witness_utxo: Option<TxOut>,
    pub witness_script: Option<Vec<u8>>,
    pub sighash_type: Option<u32>,
    pub partial_sigs: Vec<PartialSig>,
    pub final_script_witness: Option<Vec<Vec<u8>>>,
}

/// What a partially signed transaction records of an output.
#[derive(Clone, Debug)]
pub struct PsbtOutput {
    pub witness_script: Option<Vec<u8>>,
}

/// A transaction with the data needed to sign and finalize it.
#[derive(Clone, Debug)]
pub struct Psbt {
    pub unsigned_tx: Transaction,
    pub inputs: Vec<PsbtInput>,
    pub outputs: Vec<PsbtOutput>,
}

/// An output that a successor template can spend.
#[derive(Clone, Debug)]
pub struct MetadataOutput {
    pub out_point: OutPoint,
    pub tx_out: TxOut,
    pub script_pubkey: Option<Vec<u8>>,
}

/// A template of kind `T`.
pub struct Tx<T> {
    pub psbt: Psbt,
    pub kind: PhantomData<T>,
}

pub open spec fn outpoint_bytes(o: OutPoint) -> Seq<u8> {
    o.txid@ + le_bytes(o.vout as nat, 4)
}

pub open spec fn txin_bytes(i: TxIn) -> Seq<u8> {
    outpoint_bytes(i.previous_output) + seq![0u8] + le_bytes(i.sequence as nat, 4)
}

pub open spec fn txout_bytes(o: TxOut) -> Seq<u8> {
    le_bytes(o.value as nat, 8) + var_bytes(o.script_pubkey@)
}

pub open spec fn inputs_bytes(s: Seq<TxIn>) -> Seq<u8>
    decreases s.len(),
{
    if s.len() == 0 {
        seq![]
    } else {
        inputs_bytes(s.drop_last()) + txin_bytes(s.last())
    }
}

pub open spec fn outputs_bytes(s: Seq<TxOut>) -> Seq<u8>
    decreases s.len(),
{
    if s.len() == 0 {
        seq![]
    } else {
        outputs_bytes(s.drop_last()) + txout_bytes(s.last())
    }
}

pub open spec fn prevouts_bytes(s: Seq<TxIn>) -> Seq<u8>
    decreases s.len(),
{
    if s.len() == 0 {
        seq![]
    } else {
        prevouts_bytes(s.drop_last()) + outpoint_bytes(s.last().previous_output)
    }
}

pub open spec fn sequences_bytes(s: Seq<TxIn>) -> Seq<u8>
    decreases s.len(),
{
    if s.len() == 0 {
        seq![]
    } else {
        sequences_bytes(s.drop_last()) + le_bytes(s.last().sequence as nat, 4)
    }
}

/// The serialization of a transaction without witness data.
pub open spec fn tx_bytes(t: Transaction) -> Seq<u8> {
    le_bytes(t.version as nat, 4) + compact_size(t.input@.len()) + inputs_bytes(t.input@)
        + compact_size(t.output@.len()) + outputs_bytes(t.output@) + le_bytes(t.lock_time as nat, 4)
}

/// The transaction's identifier.
pub open spec fn txid(t: Transaction) -> Seq<u8> {
    sha256d_of(tx_bytes(t))
}

/// The segwit v0 signature message of the first input of `t` spending an
/// output of value `value` locked by `script`, signed with SIGHASH_ALL.
pub open spec fn sighash_preimage(t: Transaction, script: Seq<u8>, value: u64) -> Seq<u8>
    recommends
        t.input@.len() >= 1,
{
    le_bytes(t.version as nat, 4) + sha256d_of(prevouts_bytes(t.input@)) + sha256d_of(
        sequences_bytes(t.input@),
    ) + outpoint_bytes(t.input@[0].previous_output) + var_bytes(script) + le_bytes(
        value as nat,
        8,
    ) + le_bytes(t.input@[0].sequence as nat, 4) + sha256d_of(outputs_bytes(t.output@))
        + le_bytes(t.lock_time as nat, 4) + le_bytes(SIGHASH_ALL as nat, 4)
}

fn push_outpoint(dst: &mut Vec<u8>, o: &OutPoint)
    ensures
        final(dst)@ == old(dst)@ + outpoint_bytes(*o),
{
    push_all(dst, &o.txid);
    push_le(dst, o.vout as u64, 4);
    assert(dst@ =~= old(dst)@ + outpoint_bytes(*o));
}

fn push_inputs(dst: &mut Vec<u8>, s: &Vec<TxIn>)
    ensures
        final(dst)@ == old(dst)@ + inputs_bytes(s@),
{
    let mut i: usize = 0;
    while i < s.len()
        invariant
            i <= s@.len(),
            dst@ == old(dst)@ + inputs_bytes(s@.subrange(0, i as int)),
        decreases s@.len() - i,
    {
        let ghost before = dst@;
        push_outpoint(dst, &s[i].previous_output);
        dst.push(0u8);
        push_le(dst, s[i].sequence as u64, 4);
        assert(s@.subrange(0, i + 1).drop_last() =~= s@.subrange(0, i as int));
        assert(dst@ =~= before + txin_bytes(s@[i as int]));
        i = i + 1;
    }
    assert(s@.subrange(0, s@.len() as int) =~= s@);
}

fn push_outputs(dst: &mut Vec<u8>, s: &Vec<TxOut>)
    ensures
        final(dst)@ == old(dst)@ + outputs_bytes(s@),
{
    let mut i: usize = 0;
    while i < s.len()
        invariant
            i <= s@.len(),
            dst@ == old(dst)@ + outputs_bytes(s@.subrange(0, i as int)),
        decreases s@.len() - i,
    {
        let ghost before = dst@;
        push_le(dst, s[i].value, 8);
        push_var_bytes(dst, s[i].script_pubkey.as_slice());
        assert(s@.subrange(0, i + 1).drop_last() =~= s@.subrange(0, i as int));
        assert(dst@ =~= before + txout_bytes(s@[i as int]));
        i = i + 1;
    }
    assert(s@.subrange(0, s@.len() as int) =~= s@);
}

fn push_prevouts(dst: &mut Vec<u8>, s: &Vec<TxIn>)
    ensures
        final(dst)@ == old(dst)@ + prevouts_bytes(s@),
{
    let mut i: usize = 0;
    while i < s.len()
        invariant
            i <= s@.len(),
            dst@ == old(dst)@ + prevouts_bytes(s@.subrange(0, i as int)),
        decreases s@.len() - i,
    {
        push_outpoint(dst, &s[i].previous_output);
        assert(s@.subrange(0, i + 1).drop_last() =~= s@.subrange(0, i as int));
        i = i + 1;
        assert(dst@ =~= old(dst)@ + prevouts_bytes(s@.subrange(0, i as int)));
    }
    assert(s@.subrange(0, s@.len() as int) =~= s@);
}

fn push_sequences(dst: &mut Vec<u8>, s: &Vec<TxIn>)
    ensures
        final(dst)@ == old(dst)@ + sequences_bytes(s@),
{
    let mut i: usize = 0;
    while i < s.len()
        invariant
            i <= s@.len(),
            dst@ == old(dst)@ + sequences_bytes(s@.subrange(0, i as int)),
        decreases s@.len() - i,
    {
        push_le(dst, s[i].sequence as u64, 4);
        assert(s@.subrange(0, i + 1).drop_last() =~= s@.subrange(0, i as int));
        i = i + 1;
        assert(dst@ =~= old(dst)@ + sequences_bytes(s@.subrange(0, i as int)));
    }
    assert(s@.subrange(0, s@.len() as int) =~= s@);
}

impl Transaction {
    /// The serialization without witness data.
    pub fn serialize(&self) -> (r: Vec<u8>)
        ensures
            r@ == tx_bytes(*self),
    {
        let mut r: Vec<u8> = Vec::new();
        push_le(&mut r, self.version as u64, 4);
        push_compact_size(&mut r, self.input.len() as u64);
        push_inputs(&mut r, &self.input);
        push_compact_size(&mut r, self.output.len() as u64);
        push_outputs(&mut r, &self.output);
        push_le(&mut r, self.lock_time as u64, 4);
        assert(r@ =~= tx_bytes(*self));
        r
    }

    pub fn txid(&self) -> (r: [u8; 32])
        ensures
            r@ == txid(*self),
    {
        let b = self.serialize();
        sha256d(b.as_slice())
    }

    /// The message signed for the first input, spending `value` locked by `script`.
    pub fn sighash_message(&self, script: &[u8], value: u64) -> (r: Vec<u8>)
        requires
            self.input@.len() >= 1,
        ensures
            r@ == sighash_preimage(*self, script@, value),
    {
        let mut b: Vec<u8> = Vec::new();
        push_prevouts(&mut b, &self.input);
        let hash_prevouts = sha256d(b.as_slice());
        let mut b: Vec<u8> = Vec::new();
        push_sequences(&mut b, &self.input);
        let hash_sequence = sha256d(b.as_slice());
        let mut b: Vec<u8> = Vec::new();
        push_outputs(&mut b, &self.output);
        let hash_outputs = sha256d(b.as_slice());
        let mut r: Vec<u8> = Vec::new();
        push_le(&mut r, self.version as u64, 4);
        push_all(&mut r, &hash_prevouts);
        push_all(&mut r, &hash_sequence);
        push_outpoint(&mut r, &self.input[0].previous_output);
        push_var_bytes(&mut r, script);
        push_le(&mut r, value, 8);
        push_le(&mut r, self.input[0].sequence as u64, 4);
        push_all(&mut r, &hash_outputs);
        push_le(&mut r, self.lock_time as u64, 4);
        push_le(&mut r, SIGHASH_ALL as u64, 4);
        assert(r@ =~= sighash_preimage(*self, script@, value));
        r
    }
}

impl<T> Tx<T> {
    /// The metadata of the output that a successor template spends.
    pub fn get_consumable_output(&self) -> (r: Result<MetadataOutput, Error>)
        ensures
            r is Ok <==> has_consumable_output(self.psbt),
            r is Ok ==> is_consumable_of(r->Ok_0, self.psbt),
            r is Err ==> r->Err_0 == Error::NoConsumableOutput,
    {
        if self.psbt.unsigned_tx.output.len() == 0 || self.psbt.outputs.len() == 0 {
            return Err(Error::NoConsumableOutput);
        }
        let txid = self.psbt.unsigned_tx.txid();
        let out = &self.psbt.unsigned_tx.output[0];
        let tx_out = TxOut { value: out.value, script_pubkey: out.script_pubkey.clone() };
        let script_pubkey = match &self.psbt.outputs[0].witness_script {
            Some(s) => Some(s.clone()),
            None => None,
        };
        Ok(MetadataOutput { out_point: OutPoint { txid, vout: 0 }, tx_out, script_pubkey })
    }
}

/// The bytes of an optional script.
pub open spec fn opt_bytes(o: Option<Vec<u8>>) -> Option<Seq<u8>> {
    match o {
        Some(v) => Some(v@),
        None => None,
    }
}

/// The signature that `sigs` records for `pk`: the first one keyed by it.
pub open spec fn sig_for(sigs: Seq<PartialSig>, pk: Seq<u8>) -> Option<Seq<u8>>
    decreases sigs.len(),
{
    if sigs.len() == 0 {
        None
    } else if sigs[0].pubkey@ == pk {
        Some(sigs[0].sig@)
    } else {
        sig_for(sigs.drop_first(), pk)
    }
}

/// Looks up the signature that `sigs` records for `pk`.
pub fn find_sig(sigs: &Vec<PartialSig>, pk: &PublicKey) -> (r: Option<Vec<u8>>)
    ensures
        opt_bytes(r) == sig_for(sigs@, pk@),
{
    let mut i: usize = 0;
    assert(sigs@.subrange(0, sigs@.len() as int) =~= sigs@);
    while i < sigs.len()
        invariant
            i <= sigs@.len(),
            sig_for(sigs@, pk@) == sig_for(sigs@.subrange(i as int, sigs@.len() as int), pk@),
        decreases sigs@.len() - i,
    {
        assert(sigs@.subrange(i as int, sigs@.len() as int).drop_first() =~= sigs@.subrange(
            i + 1,
            sigs@.len() as int,
        ));
        if bytes_eq(&sigs[i].pubkey, pk) {
            return Some(sigs[i].sig.clone());
        }
        i = i + 1;
    }
    None
}

/// `t` is the one-input, one-output template that spends the output
/// described by `m` after `sequence`, paying its whole value to
/// `script_pubkey`, with `witness` recorded as the new output's script.
pub open spec fn is_spend(
    t: Psbt,
    m: MetadataOutput,
    sequence: u32,
    script_pubkey: Seq<u8>,
    witness: Option<Seq<u8>>,
) -> bool {
    let tx = t.unsigned_tx;
    &&& tx.version == TX_VERSION
    &&& tx.lock_time == 0
    &&& tx.input@.len() == 1
    &&& tx.output@.len() == 1
    &&& tx.input@[0].previous_output == m.out_point
    &&& tx.input@[0].sequence == sequence
    &&& tx.output@[0].value == m.tx_out.value
    &&& tx.output@[0].script_pubkey@ == script_pubkey
    &&& t.inputs@.len() == 1
    &&& t.inputs@[0].witness_utxo is Some
    &&& t.inputs@[0].witness_utxo->0.value == m.tx_out.value
    &&& t.inputs@[0].witness_utxo->0.script_pubkey@ == m.tx_out.script_pubkey@
    &&& opt_bytes(t.inputs@[0].witness_script) == opt_bytes(m.script_pubkey)
    &&& t.inputs@[0].sighash_type == Some(SIGHASH_ALL)
    &&& t.inputs@[0].partial_sigs@.len() == 0
    &&& t.inputs@[0].final_script_witness is None
    &&& t.outputs@.len() == 1
    &&& opt_bytes(t.outputs@[0].witness_script) == witness
}

/// The metadata of the first output of `prev`, as `get_consumable_output` reports it.
pub open spec fn is_consumable_of(m: MetadataOutput, prev: Psbt) -> bool {
    &&& prev.unsigned_tx.output@.len() >= 1
    &&& prev.outputs@.len() >= 1
    &&& m.out_point.txid@ == txid(prev.unsigned_tx)
    &&& m.out_point.vout == 0
    &&& m.tx_out.value == prev.unsigned_tx.output@[0].value
    &&& m.tx_out.script_pubkey@ == prev.unsigned_tx.output@[0].script_pubkey@
    &&& opt_bytes(m.script_pubkey) == opt_bytes(prev.outputs@[0].witness_script)
}

/// Whether `prev` has an output a successor can spend.
pub open spec fn has_consumable_output(prev: Psbt) -> bool {
    prev.unsigned_tx.output@.len() >= 1 && prev.outputs@.len() >= 1
}

/// Builds the template spending `m` (see `is_spend`).
pub fn spend_template(
    m: MetadataOutput,
    sequence: u32,
    script_pubkey: Vec<u8>,
    witness: Option<Vec<u8>>,
) -> (r: Psbt)
    ensures
        is_spend(r, m, sequence, script_pubkey@, opt_bytes(witness)),
{
    let mut input: Vec<TxIn> = Vec::new();
    input.push(TxIn { previous_output: m.out_point, sequence });
    let mut output: Vec<TxOut> = Vec::new();
    output.push(TxOut { value: m.tx_out.value, script_pubkey });
    let unsigned_tx = Transaction { version: TX_VERSION, lock_time: 0, input, output };
    let mut inputs: Vec<PsbtInput> = Vec::new();
    inputs.push(
        PsbtInput {
            witness_utxo: Some(m.tx_out),
            witness_script: m.script_pubkey,
            sighash_type: Some(SIGHASH_ALL),
            partial_sigs: Vec::new(),
            final_script_witness: None,
        },
    );
    let mut outputs: Vec<PsbtOutput> = Vec::new();
    outputs.push(PsbtOutput { witness_script: witness });
    Psbt { unsigned_tx, inputs, outputs }
}

/// The first structural defect of `t` against a template spending after
/// `sequence` to `script_pubkey`, checked in order.
pub open spec fn template_check(t: Transaction, sequence: u32, script_pubkey: Seq<u8>) -> Result<
    (),
    Error,
> {
    if t.version != TX_VERSION {
        Err(Error::WrongTemplate(TemplateError::Version))
    } else if t.lock_time != 0 {
        Err(Error::WrongTemplate(TemplateError::LockTime))
    } else if t.input@.len() != 1 {
        Err(Error::WrongTemplate(TemplateError::InputCount))
    } else if t.output@.len() != 1 {
        Err(Error::WrongTemplate(TemplateError::OutputCount))
    } else if t.input@[0].sequence != sequence {
        Err(Error::WrongTemplate(TemplateError::Sequence))
    } else if t.output@[0].script_pubkey@ != script_pubkey {
        Err(Error::WrongTemplate(TemplateError::ScriptPubkey))
    } else {
        Ok(())
    }
}

/// A template passes the structural check exactly when its version,
/// locktime, input and output counts, sequence and output script all have
/// their expected values; a deviation in any one of them is refused.
pub proof fn lemma_template_check_exact(t: Transaction, sequence: u32, script_pubkey: Seq<u8>)
    ensures
        template_check(t, sequence, script_pubkey) is Ok <==> {
            &&& t.version == TX_VERSION
            &&& t.lock_time == 0
            &&& t.input@.len() == 1
            &&& t.output@.len() == 1
            &&& t.input@[0].sequence == sequence
            &&& t.output@[0].script_pubkey@ == script_pubkey
        },
{
}

/// Checks `t` against `template_check`.
pub fn check_template(t: &Transaction, sequence: u32, script_pubkey: &[u8]) -> (r: Result<
    (),
    Error,
>)
    ensures
        r == template_check(*t, sequence, script_pubkey@),
{
    if t.version != TX_VERSION {
        return Err(Error::WrongTemplate(TemplateError::Version));
    }
    if t.lock_time != 0 {
        return Err(Error::WrongTemplate(TemplateError::LockTime));
    }
    if t.input.len() != 1 {
        return Err(Error::WrongTemplate(TemplateError::InputCount));
    }
    if t.output.len() != 1 {
        return Err(Error::WrongTemplate(TemplateError::OutputCount));
    }
    if t.input[0].sequence != sequence {
        return Err(Error::WrongTemplate(TemplateError::Sequence));
    }
    if !bytes_eq(t.output[0].script_pubkey.as_slice(), script_pubkey) {
        return Err(Error::WrongTemplate(TemplateError::ScriptPubkey));
    }
    Ok(())
}

} // verus!
