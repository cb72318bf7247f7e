use vstd::prelude::*;
use crate::Error;
use crate::locator::UtxoV;
use crate::locator::Utxo;
use crate::tx::{OutPoint, Transaction, TransactionV, TxIn, TxInV, TxOut, TxOutV};

verus! {

/// The standard version tag for newly built transactions.
pub const TX_VERSION: u32 = 2;

/// Sequence number that disables relative time-lock semantics.
pub const SEQUENCE_FINAL: u32 = 0xffff_ffff;

/// Lock time meaning "immediately spendable".
pub const LOCK_TIME_NONE: u32 = 0;

/// The skeleton that `build` owes for a given coin, destination and fee:
/// exactly one input spending the coin's outpoint with an empty unlock
/// script, final sequence and empty witness; exactly one output paying the
/// coin's value less the fee to the destination script; the standard
/// version; no lock time.
pub open spec fn assembled_tx(utxo: UtxoV, destination_script: Seq<u8>, fee: u64) -> TransactionV {
    TransactionV {
        version: TX_VERSION,
        lock_time: LOCK_TIME_NONE,
        inputs: seq![
            TxInV {
                prev: utxo.outpoint,
                script_sig: seq![],
                sequence: SEQUENCE_FINAL,
                witness: seq![],
            },
        ],
        outputs: seq![
            TxOutV { value: (utxo.value - fee) as u64, script_pubkey: destination_script },
        ],
    }
}

/// Builds the unsigned single-input, single-output transaction skeleton.
///
/// The fee is a flat per-transaction subtraction from the spent value. A
/// coin whose value does not strictly exceed the fee is rejected before
/// anything is signed or broadcast.
pub fn build(utxo: &Utxo, destination_script: Vec<u8>, fee: u64) -> (r: Result<
    Transaction,
    Error,
>)
    ensures
        utxo.value <= fee ==> r == Err::<Transaction, Error>(Error::InsufficientFunds),
        utxo.value > fee ==> (r matches Ok(t) && t@ == assembled_tx(utxo@, destination_script@, fee)),
{
    if utxo.value <= fee {
        return Err(Error::InsufficientFunds);
    }
    let input = TxIn {
        prev: OutPoint { txid: clone_bytes(&utxo.outpoint.txid), vout: utxo.outpoint.vout },
        script_sig: Vec::new(),
        sequence: SEQUENCE_FINAL,
        witness: Vec::new(),
    };
    let output = TxOut { value: utxo.value - fee, script_pubkey: destination_script };
    let mut inputs: Vec<TxIn> = Vec::new();
    inputs.push(input);
    let mut outputs: Vec<TxOut> = Vec::new();
    outputs.push(output);
    let t = Transaction { version: TX_VERSION, lock_time: LOCK_TIME_NONE, inputs, outputs };
    proof {
        assert(t@.inputs =~~= assembled_tx(utxo@, destination_script@, fee).inputs);
        assert(t@.outputs =~~= assembled_tx(utxo@, destination_script@, fee).outputs);
    }
    Ok(t)
}

/// Copies a byte vector, element for element.
pub fn clone_bytes(b: &Vec<u8>) -> (r: Vec<u8>)
    ensures
        r@ == b@,
{
    let mut r: Vec<u8> = Vec::new();
    let mut i: usize = 0;
    while i < b.len()
        invariant
            i <= b.len(),
            r@ == b@.take(i as int),
        decreases b.len() - i,
    {
        r.push(b[i]);
        proof {
            assert(r@ =~= b@.take(i as int + 1));
        }
        i = i + 1;
    }
    proof {
        assert(b@.take(b@.len() as int) =~= b@);
    }
    r
}

} // verus!
