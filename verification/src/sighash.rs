use vstd::prelude::*;
use crate::codec::{push_outpoint, push_raw, push_u32_le, push_u64_le, ser_outpoint, ser_txouts, ser_u32_le, ser_u64_le, write_txouts};
use crate::tx::{Transaction, TransactionV, TxIn, TxInV};
use crate::Error;
use bitcoincore_rpc::bitcoin::hashes::Hash as _;

verus! {

/// The hash-type tag for signatures that commit to all inputs and outputs.
pub const SIGHASH_ALL: u32 = 1;

/// The double SHA-256 digest of the bytes, a function of the bytes alone.
pub uninterp spec fn sha256d_of(b: Seq<u8>) -> Seq<u8>;

/// Relies on bitcoin_hashes sha256d: the 32-byte double SHA-256 digest.
#[verifier::external_body]
pub fn sha256d(b: &Vec<u8>) -> (r: Vec<u8>)
    ensures
        r@ == sha256d_of(b@),
        r@.len() == 32,
{
    let h = bitcoincore_rpc::bitcoin::hashes::sha256d::Hash::hash(b.as_slice());
    h.to_byte_array().to_vec()
}

/// All input outpoints, back to back.
pub open spec fn ser_outpoints(ins: Seq<TxInV>) -> Seq<u8>
    decreases ins.len(),
{
    if ins.len() == 0 {
        seq![]
    } else {
        ser_outpoint(ins[0].prev) + ser_outpoints(ins.skip(1))
    }
}

/// All input sequence numbers, back to back.
pub open spec fn ser_sequences(ins: Seq<TxInV>) -> Seq<u8>
    decreases ins.len(),
{
    if ins.len() == 0 {
        seq![]
    } else {
        ser_u32_le(ins[0].sequence) + ser_sequences(ins.skip(1))
    }
}

/// Whether a script is the P2WPKH template: `OP_0` then a 20-byte push.
pub open spec fn is_p2wpkh_script(s: Seq<u8>) -> bool {
    s.len() == 22 && s[0] == 0x00u8 && s[1] == 0x14u8
}

/// The script code the witness-program sighash commits to: the legacy
/// pay-to-key-hash script over the same 20-byte program, length-prefixed.
pub open spec fn script_code_of(program: Seq<u8>) -> Seq<u8> {
    seq![0x19u8, 0x76u8, 0xa9u8, 0x14u8] + program + seq![0x88u8, 0xacu8]
}

/// The fixed preimage structure of the witness-program signature hash: it
/// commits to the version, the double-hash of all outpoints, the
/// double-hash of all sequence numbers, the spent outpoint, the key-hash
/// script code, the spent value, the input's sequence, the double-hash of
/// all outputs, the lock time, and the hash type.
pub open spec fn bip143_preimage(
    t: TransactionV,
    index: int,
    program: Seq<u8>,
    value: u64,
    hash_type: u32,
) -> Seq<u8> {
    ser_u32_le(t.version) + sha256d_of(ser_outpoints(t.inputs)) + sha256d_of(
        ser_sequences(t.inputs),
    ) + ser_outpoint(t.inputs[index].prev) + script_code_of(program) + ser_u64_le(value)
        + ser_u32_le(t.inputs[index].sequence) + sha256d_of(ser_txouts(t.outputs)) + ser_u32_le(
        t.lock_time,
    ) + ser_u32_le(hash_type)
}

/// The signature hash itself: the double hash of the preimage. A pure
/// function of its arguments: recomputing with identical arguments always
/// yields the identical digest.
pub open spec fn sighash_of(
    t: TransactionV,
    index: int,
    program: Seq<u8>,
    value: u64,
    hash_type: u32,
) -> Seq<u8> {
    sha256d_of(bip143_preimage(t, index, program, value, hash_type))
}

/// Determinism of the signature hash: two digests computed from identical
/// arguments are identical. This holds because the hash is a function of
/// the (transaction, input index, spent script, spent value, hash type)
/// tuple and of nothing else.
pub proof fn lemma_sighash_deterministic(
    d1: Seq<u8>,
    d2: Seq<u8>,
    t: TransactionV,
    index: int,
    program: Seq<u8>,
    value: u64,
    hash_type: u32,
)
    requires
        d1 == sighash_of(t, index, program, value, hash_type),
        d2 == sighash_of(t, index, program, value, hash_type),
    ensures
        d1 == d2,
{
}

fn write_outpoints(out: &mut Vec<u8>, ins: &Vec<TxIn>, from: usize)
    requires
        from <= ins.len(),
    ensures
        final(out)@ == old(out)@ + ser_outpoints(ins.deep_view().skip(from as int)),
    decreases ins.len() - from,
{
    if from < ins.len() {
        push_outpoint(out, &ins[from].prev);
        write_outpoints(out, ins, from + 1);
        proof {
            let dv = ins.deep_view();
            assert(dv.skip(from as int).skip(1) =~= dv.skip(from as int + 1));
            assert(dv.skip(from as int)[0] == dv[from as int]);
            assert(out@ =~= old(out)@ + ser_outpoints(dv.skip(from as int)));
        }
    } else {
        proof {
            assert(ins.deep_view().skip(from as int).len() == 0);
            assert(out@ =~= old(out)@ + ser_outpoints(ins.deep_view().skip(from as int)));
        }
    }
}

fn write_sequences(out: &mut Vec<u8>, ins: &Vec<TxIn>, from: usize)
    requires
        from <= ins.len(),
    ensures
        final(out)@ == old(out)@ + ser_sequences(ins.deep_view().skip(from as int)),
    decreases ins.len() - from,
{
    if from < ins.len() {
        push_u32_le(out, ins[from].sequence);
        write_sequences(out, ins, from + 1);
        proof {
            let dv = ins.deep_view();
            assert(dv.skip(from as int).skip(1) =~= dv.skip(from as int + 1));
            assert(dv.skip(from as int)[0] == dv[from as int]);
            assert(out@ =~= old(out)@ + ser_sequences(dv.skip(from as int)));
        }
    } else {
        proof {
            assert(ins.deep_view().skip(from as int).len() == 0);
            assert(out@ =~= old(out)@ + ser_sequences(ins.deep_view().skip(from as int)));
        }
    }
}

/// Computes the witness-program signature hash for one input of a
/// transaction. Rejects an input index out of range and a spent script
/// that is not the P2WPKH template; otherwise the digest is exactly the
/// double hash of the fixed preimage over the given arguments.
#[verifier::rlimit(100)]
pub fn compute_p2wpkh_sighash(
    t: &Transaction,
    input_index: usize,
    spent_script: &Vec<u8>,
    spent_value: u64,
    hash_type: u32,
) -> (r: Result<Vec<u8>, Error>)
    ensures
        (input_index < t@.inputs.len() && is_p2wpkh_script(spent_script@)) ==> (r matches Ok(d)
            && d@ == sighash_of(
            t@,
            input_index as int,
            spent_script@.subrange(2, 22),
            spent_value,
            hash_type,
        ) && d@.len() == 32),
        !(input_index < t@.inputs.len() && is_p2wpkh_script(spent_script@)) ==> r == Err::<
            Vec<u8>,
            Error,
        >(Error::SighashComputationFailure),
{
    if input_index >= t.inputs.len() {
        return Err(Error::SighashComputationFailure);
    }
    if spent_script.len() != 22 {
        return Err(Error::SighashComputationFailure);
    }
    if spent_script[0] != 0x00 || spent_script[1] != 0x14 {
        return Err(Error::SighashComputationFailure);
    }
    let mut op: Vec<u8> = Vec::new();
    write_outpoints(&mut op, &t.inputs, 0);
    let hash_prevouts = sha256d(&op);
    let mut sq: Vec<u8> = Vec::new();
    write_sequences(&mut sq, &t.inputs, 0);
    let hash_sequences = sha256d(&sq);
    let mut os: Vec<u8> = Vec::new();
    write_txouts(&mut os, &t.outputs, 0);
    let hash_outputs = sha256d(&os);
    proof {
        assert(t.inputs.deep_view().skip(0) =~= t@.inputs);
        assert(t.outputs.deep_view().skip(0) =~= t@.outputs);
        assert(op@ =~= ser_outpoints(t@.inputs));
        assert(sq@ =~= ser_sequences(t@.inputs));
        assert(os@ =~= ser_txouts(t@.outputs));
    }
    let mut pre: Vec<u8> = Vec::new();
    push_u32_le(&mut pre, t.version);
    push_raw(&mut pre, &hash_prevouts);
    push_raw(&mut pre, &hash_sequences);
    push_outpoint(&mut pre, &t.inputs[input_index].prev);
    pre.push(0x19);
    pre.push(0x76);
    pre.push(0xa9);
    pre.push(0x14);
    proof {
        assert(pre@ =~= ser_u32_le(t@.version) + sha256d_of(ser_outpoints(t@.inputs)) + sha256d_of(
            ser_sequences(t@.inputs),
        ) + ser_outpoint(t@.inputs[input_index as int].prev) + seq![0x19u8, 0x76u8, 0xa9u8, 0x14u8]
            + spent_script@.subrange(2, 2));
    }
    let mut i: usize = 2;
    while i < 22
        invariant
            2 <= i <= 22,
            spent_script@.len() == 22,
            pre@ == ser_u32_le(t@.version) + sha256d_of(ser_outpoints(t@.inputs)) + sha256d_of(
                ser_sequences(t@.inputs),
            ) + ser_outpoint(t@.inputs[input_index as int].prev) + seq![
                0x19u8,
                0x76u8,
                0xa9u8,
                0x14u8,
            ] + spent_script@.subrange(2, i as int),
        decreases 22 - i,
    {
        pre.push(spent_script[i]);
        proof {
            assert(pre@ =~= ser_u32_le(t@.version) + sha256d_of(ser_outpoints(t@.inputs))
                + sha256d_of(ser_sequences(t@.inputs)) + ser_outpoint(
                t@.inputs[input_index as int].prev,
            ) + seq![0x19u8, 0x76u8, 0xa9u8, 0x14u8] + spent_script@.subrange(2, i as int + 1));
        }
        i = i + 1;
    }
    pre.push(0x88);
    pre.push(0xac);
    push_u64_le(&mut pre, spent_value);
    push_u32_le(&mut pre, t.inputs[input_index].sequence);
    push_raw(&mut pre, &hash_outputs);
    push_u32_le(&mut pre, t.lock_time);
    push_u32_le(&mut pre, hash_type);
    proof {
        assert(t.inputs.deep_view().skip(0) =~= t@.inputs);
        assert(t.outputs.deep_view().skip(0) =~= t@.outputs);
        assert(pre@ =~= bip143_preimage(
            t@,
            input_index as int,
            spent_script@.subrange(2, 22),
            spent_value,
            hash_type,
        ));
    }
    let digest = sha256d(&pre);
    Ok(digest)
}

} // verus!
