use vstd::prelude::*;
use crate::codec::{
    has_witness, ser_bytes, ser_items, ser_outpoint, ser_tx, ser_txin, ser_txins, ser_txout,
    ser_txouts, ser_u16_le, ser_u32_le, ser_u64_le, ser_varint, ser_witness_stack, ser_witnesses,
};
use crate::decode::{
    from_le2, from_le4, from_le8, parse_bytes, parse_items, parse_outpoint, parse_stacks,
    parse_tx, parse_tx_body, parse_tx_lists, parse_txin, parse_txins, parse_txout, parse_txouts,
    parse_u16_le, parse_u32_le, parse_u64_le, parse_varint, parse_witness_stack, set_witnesses,
};
use crate::tx::{wf_tx, wf_txin, wf_txout, OutPointV, TransactionV, TxInV, TxOutV};

verus! {

// ---------------------------------------------------------------------------
// The round-trip law: decoding what the codec encoded gives the transaction
// back, byte count and all. Each lemma shows one layer of the format reads
// back what was written, in the presence of arbitrary following bytes.
// ---------------------------------------------------------------------------

/// How many bytes the compact integer encoding of `n` takes.
pub open spec fn varint_len(n: u64) -> int {
    if n < 0xfd {
        1
    } else if n <= 0xffff {
        3
    } else if n <= 0xffff_ffff {
        5
    } else {
        9
    }
}

/// An input as the input section alone reconstructs it: witness still empty.
pub open spec fn clear_witness(i: TxInV) -> TxInV {
    TxInV { prev: i.prev, script_sig: i.script_sig, sequence: i.sequence, witness: seq![] }
}

pub open spec fn clear_all(ins: Seq<TxInV>) -> Seq<TxInV> {
    ins.map_values(|i: TxInV| clear_witness(i))
}

/// The witness stacks of a list of inputs, in input order.
pub open spec fn witness_of(ins: Seq<TxInV>) -> Seq<Seq<Seq<u8>>> {
    ins.map_values(|i: TxInV| i.witness)
}

proof fn lemma_u16_rt(x: u16, rest: Seq<u8>)
    ensures
        parse_u16_le(ser_u16_le(x) + rest) == Some((x, 2int)),
{
    let s = ser_u16_le(x) + rest;
    assert(s[0] == (x & 0xff) as u8);
    assert(s[1] == ((x >> 8) & 0xff) as u8);
    assert(from_le2((x & 0xff) as u8, ((x >> 8) & 0xff) as u8) == x) by (bit_vector);
}

proof fn lemma_u32_rt(x: u32, rest: Seq<u8>)
    ensures
        parse_u32_le(ser_u32_le(x) + rest) == Some((x, 4int)),
{
    let s = ser_u32_le(x) + rest;
    assert(s[0] == (x & 0xff) as u8);
    assert(s[1] == ((x >> 8) & 0xff) as u8);
    assert(s[2] == ((x >> 16) & 0xff) as u8);
    assert(s[3] == ((x >> 24) & 0xff) as u8);
    assert(from_le4(
        (x & 0xff) as u8,
        ((x >> 8) & 0xff) as u8,
        ((x >> 16) & 0xff) as u8,
        ((x >> 24) & 0xff) as u8,
    ) == x) by (bit_vector);
}

proof fn lemma_u64_rt(x: u64, rest: Seq<u8>)
    ensures
        parse_u64_le(ser_u64_le(x) + rest) == Some((x, 8int)),
{
    let s = ser_u64_le(x) + rest;
    assert(s[0] == (x & 0xff) as u8);
    assert(s[1] == ((x >> 8) & 0xff) as u8);
    assert(s[2] == ((x >> 16) & 0xff) as u8);
    assert(s[3] == ((x >> 24) & 0xff) as u8);
    assert(s[4] == ((x >> 32) & 0xff) as u8);
    assert(s[5] == ((x >> 40) & 0xff) as u8);
    assert(s[6] == ((x >> 48) & 0xff) as u8);
    assert(s[7] == ((x >> 56) & 0xff) as u8);
    assert(from_le8(
        (x & 0xff) as u8,
        ((x >> 8) & 0xff) as u8,
        ((x >> 16) & 0xff) as u8,
        ((x >> 24) & 0xff) as u8,
        ((x >> 32) & 0xff) as u8,
        ((x >> 40) & 0xff) as u8,
        ((x >> 48) & 0xff) as u8,
        ((x >> 56) & 0xff) as u8,
    ) == x) by (bit_vector);
}

#[verifier::rlimit(100)]
#[verifier::spinoff_prover]
proof fn lemma_varint_rt(n: u64, rest: Seq<u8>)
    ensures
        parse_varint(ser_varint(n) + rest) == Some((n, varint_len(n))),
        ser_varint(n).len() == varint_len(n),
{
    let s = ser_varint(n) + rest;
    if n < 0xfd {
        assert(s[0] == n as u8);
        assert((n as u8) < 0xfd && (n as u8) as u64 == n) by (bit_vector)
            requires
                n < 0xfd,
        ;
    } else if n <= 0xffff {
        assert(s[0] == 0xfdu8);
        assert(s.skip(1) =~= ser_u16_le(n as u16) + rest);
        lemma_u16_rt(n as u16, rest);
        assert((n as u16) >= 0xfd && (n as u16) as u64 == n) by (bit_vector)
            requires
                0xfd <= n <= 0xffff,
        ;
    } else if n <= 0xffff_ffff {
        assert(s[0] == 0xfeu8);
        assert(s.skip(1) =~= ser_u32_le(n as u32) + rest);
        lemma_u32_rt(n as u32, rest);
        assert((n as u32) > 0xffff && (n as u32) as u64 == n) by (bit_vector)
            requires
                0xffff < n <= 0xffff_ffff,
        ;
    } else {
        assert(s[0] == 0xffu8);
        assert(s.skip(1) =~= ser_u64_le(n) + rest);
        lemma_u64_rt(n, rest);
    }
}

#[verifier::rlimit(100)]
#[verifier::spinoff_prover]
proof fn lemma_bytes_rt(b: Seq<u8>, rest: Seq<u8>)
    requires
        b.len() <= u64::MAX,
    ensures
        parse_bytes(ser_bytes(b) + rest) == Some((b, ser_bytes(b).len() as int)),
        ser_bytes(b).len() == varint_len(b.len() as u64) + b.len(),
{
    let n: u64 = b.len() as u64;
    let s = ser_bytes(b) + rest;
    assert(s =~= ser_varint(n) + (b + rest));
    lemma_varint_rt(n, b + rest);
    let c: int = varint_len(n);
    assert(parse_varint(s) == Some((n, c)));
    assert(s.len() - c >= n);
    assert(s.subrange(c, c + n) =~= b);
}

proof fn lemma_outpoint_rt(o: OutPointV, rest: Seq<u8>)
    requires
        o.txid.len() == 32,
    ensures
        parse_outpoint(ser_outpoint(o) + rest) == Some((o, 36int)),
        ser_outpoint(o).len() == 36,
{
    let s = ser_outpoint(o) + rest;
    assert(s.take(32) =~= o.txid);
    assert(s.skip(32) =~= ser_u32_le(o.vout) + rest);
    lemma_u32_rt(o.vout, rest);
    assert(OutPointV { txid: s.take(32), vout: o.vout } =~~= o);
}

#[verifier::rlimit(100)]
#[verifier::spinoff_prover]
proof fn lemma_txin_rt(i: TxInV, rest: Seq<u8>)
    requires
        wf_txin(i),
    ensures
        parse_txin(ser_txin(i) + rest) == Some((clear_witness(i), ser_txin(i).len() as int)),
{
    let s = ser_txin(i) + rest;
    let b = ser_bytes(i.script_sig);
    let c = ser_u32_le(i.sequence);
    assert(s =~= ser_outpoint(i.prev) + (b + (c + rest)));
    lemma_outpoint_rt(i.prev, b + (c + rest));
    assert(s.skip(36) =~= b + (c + rest));
    lemma_bytes_rt(i.script_sig, c + rest);
    let c2: int = b.len() as int;
    assert(parse_bytes(s.skip(36)) == Some((i.script_sig, c2)));
    assert(s.skip(36 + c2) =~= c + rest);
    lemma_u32_rt(i.sequence, rest);
    assert(parse_u32_le(s.skip(36 + c2)) == Some((i.sequence, 4int)));
}

#[verifier::rlimit(100)]
#[verifier::spinoff_prover]
proof fn lemma_txins_rt(ins: Seq<TxInV>, rest: Seq<u8>)
    requires
        forall|k: int| 0 <= k < ins.len() ==> wf_txin(#[trigger] ins[k]),
        ins.len() <= u64::MAX,
    ensures
        parse_txins(ser_txins(ins) + rest, ins.len() as u64) == Some(
            (clear_all(ins), ser_txins(ins).len() as int),
        ),
    decreases ins.len(),
{
    if ins.len() == 0 {
        assert(clear_all(ins) =~= Seq::<TxInV>::empty());
        assert(parse_txins(ser_txins(ins) + rest, 0) == Some((Seq::<TxInV>::empty(), 0int)));
    } else {
        let tail = ins.skip(1);
        let s = ser_txins(ins) + rest;
        assert(s =~= ser_txin(ins[0]) + (ser_txins(tail) + rest));
        lemma_txin_rt(ins[0], ser_txins(tail) + rest);
        let c1: int = ser_txin(ins[0]).len() as int;
        assert(parse_txin(s) == Some((clear_witness(ins[0]), c1)));
        assert(s.skip(c1) =~= ser_txins(tail) + rest);
        assert forall|k: int| 0 <= k < tail.len() implies wf_txin(#[trigger] tail[k]) by {
            assert(tail[k] == ins[k + 1]);
        }
        lemma_txins_rt(tail, rest);
        let n: u64 = ins.len() as u64;
        assert((n - 1) as u64 == tail.len());
        assert(seq![clear_witness(ins[0])] + clear_all(tail) =~~= clear_all(ins));
    }
}

#[verifier::rlimit(100)]
#[verifier::spinoff_prover]
proof fn lemma_txout_rt(o: TxOutV, rest: Seq<u8>)
    requires
        wf_txout(o),
    ensures
        parse_txout(ser_txout(o) + rest) == Some((o, ser_txout(o).len() as int)),
{
    let s = ser_txout(o) + rest;
    let b = ser_bytes(o.script_pubkey);
    assert(s =~= ser_u64_le(o.value) + (b + rest));
    lemma_u64_rt(o.value, b + rest);
    assert(s.skip(8) =~= b + rest);
    lemma_bytes_rt(o.script_pubkey, rest);
    assert(TxOutV { value: o.value, script_pubkey: o.script_pubkey } =~~= o);
}

#[verifier::rlimit(100)]
#[verifier::spinoff_prover]
proof fn lemma_txouts_rt(outs: Seq<TxOutV>, rest: Seq<u8>)
    requires
        forall|k: int| 0 <= k < outs.len() ==> wf_txout(#[trigger] outs[k]),
        outs.len() <= u64::MAX,
    ensures
        parse_txouts(ser_txouts(outs) + rest, outs.len() as u64) == Some(
            (outs, ser_txouts(outs).len() as int),
        ),
    decreases outs.len(),
{
    if outs.len() == 0 {
        assert(parse_txouts(ser_txouts(outs) + rest, 0) == Some((Seq::<TxOutV>::empty(), 0int)));
        assert(outs =~= Seq::<TxOutV>::empty());
    } else {
        let tail = outs.skip(1);
        let s = ser_txouts(outs) + rest;
        assert(s =~= ser_txout(outs[0]) + (ser_txouts(tail) + rest));
        lemma_txout_rt(outs[0], ser_txouts(tail) + rest);
        let c1: int = ser_txout(outs[0]).len() as int;
        assert(s.skip(c1) =~= ser_txouts(tail) + rest);
        assert forall|k: int| 0 <= k < tail.len() implies wf_txout(#[trigger] tail[k]) by {
            assert(tail[k] == outs[k + 1]);
        }
        lemma_txouts_rt(tail, rest);
        let n: u64 = outs.len() as u64;
        assert((n - 1) as u64 == tail.len());
        assert(seq![outs[0]] + tail =~= outs);
    }
}

#[verifier::rlimit(100)]
#[verifier::spinoff_prover]
proof fn lemma_items_rt(items: Seq<Seq<u8>>, rest: Seq<u8>)
    requires
        forall|k: int| 0 <= k < items.len() ==> #[trigger] items[k].len() <= u64::MAX,
        items.len() <= u64::MAX,
    ensures
        parse_items(ser_items(items) + rest, items.len() as u64) == Some(
            (items, ser_items(items).len() as int),
        ),
    decreases items.len(),
{
    if items.len() == 0 {
        assert(parse_items(ser_items(items) + rest, 0) == Some((Seq::<Seq<u8>>::empty(), 0int)));
        assert(items =~= Seq::<Seq<u8>>::empty());
    } else {
        let tail = items.skip(1);
        let s = ser_items(items) + rest;
        assert(s =~= ser_bytes(items[0]) + (ser_items(tail) + rest));
        lemma_bytes_rt(items[0], ser_items(tail) + rest);
        let c1: int = ser_bytes(items[0]).len() as int;
        assert(s.skip(c1) =~= ser_items(tail) + rest);
        assert forall|k: int| 0 <= k < tail.len() implies #[trigger] tail[k].len() <= u64::MAX by {
            assert(tail[k] == items[k + 1]);
        }
        lemma_items_rt(tail, rest);
        let n: u64 = items.len() as u64;
        assert((n - 1) as u64 == tail.len());
        assert(seq![items[0]] + tail =~= items);
    }
}

#[verifier::rlimit(100)]
#[verifier::spinoff_prover]
proof fn lemma_stack_rt(w: Seq<Seq<u8>>, rest: Seq<u8>)
    requires
        forall|k: int| 0 <= k < w.len() ==> #[trigger] w[k].len() <= u64::MAX,
        w.len() <= u64::MAX,
    ensures
        parse_witness_stack(ser_witness_stack(w) + rest) == Some(
            (w, ser_witness_stack(w).len() as int),
        ),
{
    let n: u64 = w.len() as u64;
    let s = ser_witness_stack(w) + rest;
    assert(s =~= ser_varint(n) + (ser_items(w) + rest));
    lemma_varint_rt(n, ser_items(w) + rest);
    let c1: int = varint_len(n);
    assert(parse_varint(s) == Some((n, c1)));
    assert(s.skip(c1) =~= ser_items(w) + rest);
    lemma_items_rt(w, rest);
}

#[verifier::rlimit(100)]
#[verifier::spinoff_prover]
proof fn lemma_stacks_rt(ins: Seq<TxInV>, rest: Seq<u8>)
    requires
        forall|k: int| 0 <= k < ins.len() ==> wf_txin(#[trigger] ins[k]),
        ins.len() <= u64::MAX,
    ensures
        parse_stacks(ser_witnesses(ins) + rest, ins.len() as u64) == Some(
            (witness_of(ins), ser_witnesses(ins).len() as int),
        ),
    decreases ins.len(),
{
    if ins.len() == 0 {
        assert(parse_stacks(ser_witnesses(ins) + rest, 0) == Some(
            (Seq::<Seq<Seq<u8>>>::empty(), 0int),
        ));
        assert(witness_of(ins) =~= Seq::<Seq<Seq<u8>>>::empty());
    } else {
        let tail = ins.skip(1);
        let s = ser_witnesses(ins) + rest;
        assert(s =~= ser_witness_stack(ins[0].witness) + (ser_witnesses(tail) + rest));
        lemma_stack_rt(ins[0].witness, ser_witnesses(tail) + rest);
        let c1: int = ser_witness_stack(ins[0].witness).len() as int;
        assert(s.skip(c1) =~= ser_witnesses(tail) + rest);
        assert forall|k: int| 0 <= k < tail.len() implies wf_txin(#[trigger] tail[k]) by {
            assert(tail[k] == ins[k + 1]);
        }
        lemma_stacks_rt(tail, rest);
        let n: u64 = ins.len() as u64;
        assert((n - 1) as u64 == tail.len());
        assert(seq![ins[0].witness] + witness_of(tail) =~~= witness_of(ins));
    }
}

/// The round-trip law over the encoding with arbitrary following bytes: the
/// decoder reads the encoded transaction back and consumes exactly its
/// bytes.
proof fn lemma_assoc(a: Seq<u8>, b: Seq<u8>, c: Seq<u8>)
    ensures
        (a + b) + c == a + (b + c),
{
    assert((a + b) + c =~= a + (b + c));
}

proof fn lemma_skip_concat(a: Seq<u8>, b: Seq<u8>)
    ensures
        (a + b).skip(a.len() as int) == b,
{
    assert((a + b).skip(a.len() as int) =~= b);
}

proof fn lemma_skip_add(s: Seq<u8>, a: int, b: int)
    requires
        0 <= a,
        0 <= b,
        a + b <= s.len(),
    ensures
        s.skip(a).skip(b) == s.skip(a + b),
{
    assert(s.skip(a).skip(b) =~= s.skip(a + b));
}

proof fn lemma_flatten8(
    b0: Seq<u8>, b1: Seq<u8>, b2: Seq<u8>, b3: Seq<u8>, b4: Seq<u8>, b5: Seq<u8>, b6: Seq<u8>,
    b7: Seq<u8>, rest: Seq<u8>,
)
    ensures
        (((((((b0 + b1) + b2) + b3) + b4) + b5) + b6) + b7) + rest == b0 + (b1 + (b2 + (b3 + (b4
            + (b5 + (b6 + (b7 + rest))))))),
{
    assert((((((((b0 + b1) + b2) + b3) + b4) + b5) + b6) + b7) + rest =~= b0 + (b1 + (b2 + (b3 + (
    b4 + (b5 + (b6 + (b7 + rest))))))));
}

proof fn lemma_flatten6(
    b0: Seq<u8>, b1: Seq<u8>, b2: Seq<u8>, b3: Seq<u8>, b4: Seq<u8>, b5: Seq<u8>, rest: Seq<u8>,
)
    ensures
        (((((b0 + b1) + b2) + b3) + b4) + b5) + rest == b0 + (b1 + (b2 + (b3 + (b4 + (b5
            + rest))))),
{
    assert((((((b0 + b1) + b2) + b3) + b4) + b5) + rest =~= b0 + (b1 + (b2 + (b3 + (b4 + (b5
        + rest))))));
}

/// The skip positions of a six-segment chain: dropping the first segments in
/// turn leaves exactly the remaining chain.
proof fn lemma_chain6(
    a1: Seq<u8>, a2: Seq<u8>, a3: Seq<u8>, a4: Seq<u8>, a5: Seq<u8>, a6: Seq<u8>, rest: Seq<u8>,
)
    ensures
        (a1 + (a2 + (a3 + (a4 + (a5 + (a6 + rest)))))).skip(a1.len() as int) == a2 + (a3 + (a4 + (
        a5 + (a6 + rest)))),
        (a1 + (a2 + (a3 + (a4 + (a5 + (a6 + rest)))))).skip((a1.len() + a2.len() + a3.len()
            + a4.len()) as int) == a5 + (a6 + rest),
        (a1 + (a2 + (a3 + (a4 + (a5 + (a6 + rest)))))).skip((a1.len() + a2.len() + a3.len()
            + a4.len() + a5.len()) as int) == a6 + rest,
{
    let body = a1 + (a2 + (a3 + (a4 + (a5 + (a6 + rest)))));
    assert(body.skip(a1.len() as int) =~= a2 + (a3 + (a4 + (a5 + (a6 + rest)))));
    assert(body.skip((a1.len() + a2.len() + a3.len() + a4.len()) as int) =~= a5 + (a6 + rest));
    assert(body.skip((a1.len() + a2.len() + a3.len() + a4.len() + a5.len()) as int) =~= a6
        + rest);
}

/// The skip positions of a five-segment chain.
proof fn lemma_chain5(
    a1: Seq<u8>, a2: Seq<u8>, a3: Seq<u8>, a4: Seq<u8>, a6: Seq<u8>, rest: Seq<u8>,
)
    ensures
        (a1 + (a2 + (a3 + (a4 + (a6 + rest))))).skip((a1.len() + a2.len() + a3.len()
            + a4.len()) as int) == a6 + rest,
{
    let body = a1 + (a2 + (a3 + (a4 + (a6 + rest))));
    assert(body.skip((a1.len() + a2.len() + a3.len() + a4.len()) as int) =~= a6 + rest);
}

/// Re-attaching each input's own witness stack to its witness-free form
/// gives the inputs back.
proof fn lemma_set_clear(ins: Seq<TxInV>)
    ensures
        set_witnesses(clear_all(ins), witness_of(ins)) == ins,
{
    assert(set_witnesses(clear_all(ins), witness_of(ins)) =~~= ins);
}

/// Inputs without witnesses are their own witness-free form.
proof fn lemma_clear_id(ins: Seq<TxInV>)
    requires
        forall|k: int| 0 <= k < ins.len() ==> #[trigger] ins[k].witness.len() == 0,
    ensures
        clear_all(ins) == ins,
{
    assert forall|k: int| 0 <= k < ins.len() implies #[trigger] clear_all(ins)[k] == ins[k] by {
        assert(ins[k].witness =~= Seq::<Seq<u8>>::empty());
        assert(clear_witness(ins[k]) =~~= ins[k]);
    }
    assert(clear_all(ins) =~= ins);
}

#[verifier::rlimit(100)]
#[verifier::spinoff_prover]
proof fn lemma_tx_rt_witness(t: TransactionV, rest: Seq<u8>)
    requires
        wf_tx(t),
        has_witness(t),
    ensures
        parse_tx(ser_tx(t) + rest) == Some((t, ser_tx(t).len() as int)),
{
    let nin: u64 = t.inputs.len() as u64;
    let nout: u64 = t.outputs.len() as u64;
    let a0 = ser_u32_le(t.version);
    let m = seq![0x00u8, 0x01u8];
    let a1 = ser_varint(nin);
    let a2 = ser_txins(t.inputs);
    let a3 = ser_varint(nout);
    let a4 = ser_txouts(t.outputs);
    let a5 = ser_witnesses(t.inputs);
    let a6 = ser_u32_le(t.lock_time);
    let s = ser_tx(t) + rest;
    let u1 = a1 + (a2 + (a3 + (a4 + (a5 + (a6 + rest)))));
    let u0 = m + u1;
    lemma_flatten8(a0, m, a1, a2, a3, a4, a5, a6, rest);
    assert(s == a0 + u0);
    lemma_u32_rt(t.version, u0);
    assert(parse_u32_le(s) == Some((t.version, 4int)));
    lemma_skip_concat(a0, u0);
    let r = s.skip(4);
    assert(r == u0);
    assert(r[0] == 0x00u8);
    assert(r[1] == 0x01u8);
    lemma_skip_concat(m, u1);
    assert(r.skip(2) == u1);
    lemma_body_witness(t, rest);
}

#[verifier::rlimit(100)]
#[verifier::spinoff_prover]
proof fn lemma_tx_rt_legacy(t: TransactionV, rest: Seq<u8>)
    requires
        wf_tx(t),
        !has_witness(t),
    ensures
        parse_tx(ser_tx(t) + rest) == Some((t, ser_tx(t).len() as int)),
{
    let nin: u64 = t.inputs.len() as u64;
    let nout: u64 = t.outputs.len() as u64;
    let a0 = ser_u32_le(t.version);
    let a1 = ser_varint(nin);
    let a2 = ser_txins(t.inputs);
    let a3 = ser_varint(nout);
    let a4 = ser_txouts(t.outputs);
    let a6 = ser_u32_le(t.lock_time);
    let s = ser_tx(t) + rest;
    let u1 = a1 + (a2 + (a3 + (a4 + (a6 + rest))));
    lemma_flatten6(a0, a1, a2, a3, a4, a6, rest);
    assert(s == a0 + u1);
    lemma_u32_rt(t.version, u1);
    assert(parse_u32_le(s) == Some((t.version, 4int)));
    lemma_skip_concat(a0, u1);
    let r = s.skip(4);
    assert(r == u1);
    assert(r[0] == a1[0]);
    assert(1 <= nin);
    if nin < 0xfd {
        assert(a1[0] == nin as u8);
        assert(nin as u8 != 0) by (bit_vector)
            requires
                1 <= nin < 0xfd,
        ;
    }
    assert(r[0] != 0x00u8);
    lemma_body_legacy(t, rest);
}

proof fn lemma_tx_rt(t: TransactionV, rest: Seq<u8>)
    requires
        wf_tx(t),
    ensures
        parse_tx(ser_tx(t) + rest) == Some((t, ser_tx(t).len() as int)),
{
    if has_witness(t) {
        lemma_tx_rt_witness(t, rest);
    } else {
        lemma_tx_rt_legacy(t, rest);
    }
}

/// The input and output sections read back what was written/// The input and output sections read back what was written: the inputs in
/// witness-free form, the outputs exactly.
#[verifier::rlimit(100)]
#[verifier::spinoff_prover]
proof fn lemma_lists_rt(ins: Seq<TxInV>, outs: Seq<TxOutV>, rest: Seq<u8>)
    requires
        forall|k: int| 0 <= k < ins.len() ==> wf_txin(#[trigger] ins[k]),
        forall|k: int| 0 <= k < outs.len() ==> wf_txout(#[trigger] outs[k]),
        ins.len() <= u64::MAX,
        outs.len() <= u64::MAX,
    ensures
        parse_tx_lists(
            ser_varint(ins.len() as u64) + (ser_txins(ins) + (ser_varint(outs.len() as u64) + (
            ser_txouts(outs) + rest))),
        ) == Some(
            (
                ins.len() as u64,
                clear_all(ins),
                outs,
                (ser_varint(ins.len() as u64).len() + ser_txins(ins).len() + ser_varint(
                    outs.len() as u64,
                ).len() + ser_txouts(outs).len()) as int,
            ),
        ),
{
    let nin: u64 = ins.len() as u64;
    let nout: u64 = outs.len() as u64;
    let a2 = ser_txins(ins);
    let a4 = ser_txouts(outs);
    let x3 = a4 + rest;
    let x2 = ser_varint(nout) + x3;
    let x1 = a2 + x2;
    let body = ser_varint(nin) + x1;
    lemma_varint_rt(nin, x1);
    let c1: int = varint_len(nin);
    assert(parse_varint(body) == Some((nin, c1)));
    lemma_skip_concat(ser_varint(nin), x1);
    assert(body.skip(c1) == x1);
    lemma_txins_rt(ins, x2);
    let c2: int = a2.len() as int;
    assert(parse_txins(body.skip(c1), nin) == Some((clear_all(ins), c2)));
    lemma_skip_concat(a2, x2);
    lemma_skip_add(body, c1, c2);
    assert(body.skip(c1 + c2) == x2);
    lemma_varint_rt(nout, x3);
    let c3: int = varint_len(nout);
    assert(parse_varint(body.skip(c1 + c2)) == Some((nout, c3)));
    lemma_skip_concat(ser_varint(nout), x3);
    lemma_skip_add(body, c1 + c2, c3);
    assert(body.skip(c1 + c2 + c3) == x3);
    lemma_txouts_rt(outs, rest);
    let c4: int = a4.len() as int;
    assert(parse_txouts(body.skip(c1 + c2 + c3), nout) == Some((outs, c4)));
}

/// The body of the extended form reads back the transaction it encodes.
#[verifier::rlimit(100)]
#[verifier::spinoff_prover]
proof fn lemma_body_witness(t: TransactionV, rest: Seq<u8>)
    requires
        wf_tx(t),
        has_witness(t),
    ensures
        parse_tx_body(
            t.version,
            ser_varint(t.inputs.len() as u64) + (ser_txins(t.inputs) + (ser_varint(
                t.outputs.len() as u64,
            ) + (ser_txouts(t.outputs) + (ser_witnesses(t.inputs) + (ser_u32_le(t.lock_time)
                + rest))))),
            6int,
            true,
        ) == Some((t, ser_tx(t).len() as int)),
{
    let nin: u64 = t.inputs.len() as u64;
    let nout: u64 = t.outputs.len() as u64;
    let a1 = ser_varint(nin);
    let a2 = ser_txins(t.inputs);
    let a3 = ser_varint(nout);
    let a4 = ser_txouts(t.outputs);
    let a5 = ser_witnesses(t.inputs);
    let a6 = ser_u32_le(t.lock_time);
    let x5 = a6 + rest;
    let x4 = a5 + x5;
    let x3 = a4 + x4;
    let x2 = a3 + x3;
    let x1 = a2 + x2;
    let body = a1 + x1;
    lemma_lists_rt(t.inputs, t.outputs, x4);
    let cl: int = a1.len() + a2.len() + a3.len() + a4.len() as int;
    assert(parse_tx_lists(body) == Some((nin, clear_all(t.inputs), t.outputs, cl)));
    lemma_chain6(a1, a2, a3, a4, a5, a6, rest);
    assert(body.skip(cl) == x4);
    lemma_stacks_rt(t.inputs, x5);
    let c5: int = a5.len() as int;
    assert(parse_stacks(body.skip(cl), nin) == Some((witness_of(t.inputs), c5)));
    assert(body.skip(cl + c5) == x5);
    lemma_u32_rt(t.lock_time, rest);
    assert(parse_u32_le(body.skip(cl + c5)) == Some((t.lock_time, 4int)));
    lemma_set_clear(t.inputs);
    let t2 = TransactionV {
        version: t.version,
        lock_time: t.lock_time,
        inputs: set_witnesses(clear_all(t.inputs), witness_of(t.inputs)),
        outputs: t.outputs,
    };
    assert(t2 == t);
    assert(ser_tx(t).len() == 6 + cl + c5 + 4);
}

/// The body of the legacy form reads back the transaction it encodes.
#[verifier::rlimit(100)]
#[verifier::spinoff_prover]
proof fn lemma_body_legacy(t: TransactionV, rest: Seq<u8>)
    requires
        wf_tx(t),
        !has_witness(t),
    ensures
        parse_tx_body(
            t.version,
            ser_varint(t.inputs.len() as u64) + (ser_txins(t.inputs) + (ser_varint(
                t.outputs.len() as u64,
            ) + (ser_txouts(t.outputs) + (ser_u32_le(t.lock_time) + rest)))),
            4int,
            false,
        ) == Some((t, ser_tx(t).len() as int)),
{
    let nin: u64 = t.inputs.len() as u64;
    let nout: u64 = t.outputs.len() as u64;
    let a1 = ser_varint(nin);
    let a2 = ser_txins(t.inputs);
    let a3 = ser_varint(nout);
    let a4 = ser_txouts(t.outputs);
    let a6 = ser_u32_le(t.lock_time);
    let x4 = a6 + rest;
    let x3 = a4 + x4;
    let x2 = a3 + x3;
    let x1 = a2 + x2;
    let body = a1 + x1;
    lemma_lists_rt(t.inputs, t.outputs, x4);
    let cl: int = a1.len() + a2.len() + a3.len() + a4.len() as int;
    assert(parse_tx_lists(body) == Some((nin, clear_all(t.inputs), t.outputs, cl)));
    lemma_chain5(a1, a2, a3, a4, a6, rest);
    assert(body.skip(cl) == x4);
    lemma_u32_rt(t.lock_time, rest);
    assert(parse_u32_le(body.skip(cl)) == Some((t.lock_time, 4int)));
    assert forall|k: int| 0 <= k < t.inputs.len() implies #[trigger] t.inputs[k].witness.len()
        == 0 by {
        assert(!(t.inputs[k].witness.len() > 0));
    }
    lemma_clear_id(t.inputs);
    let t2 = TransactionV {
        version: t.version,
        lock_time: t.lock_time,
        inputs: clear_all(t.inputs),
        outputs: t.outputs,
    };
    assert(t2 == t);
    assert(ser_tx(t).len() == 4 + cl + 4);
}

/// Round-trip law: decoding the canonical encoding of any well-formed
/// transaction yields exactly that transaction, consuming every byte. With
/// the decoder's contract this says `deserialize(serialize(t))` gives `t`
/// back for every well-formed `t`.
pub proof fn lemma_round_trip(t: TransactionV)
    requires
        wf_tx(t),
    ensures
        parse_tx(ser_tx(t)) == Some((t, ser_tx(t).len() as int)),
{
    lemma_tx_rt(t, seq![]);
    assert(ser_tx(t) + seq![] =~= ser_tx(t));
}

} // verus!
