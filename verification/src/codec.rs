use vstd::prelude::*;
use crate::tx::{OutPoint, OutPointV, Transaction, TransactionV, TxIn, TxInV, TxOut, TxOutV};

verus! {

// ---------------------------------------------------------------------------
// The canonical segregated-witness wire encoding, as a mathematical function
// of the transaction model: version, (marker and flag when any input carries
// a witness,) input count and inputs, output count and outputs, (one witness
// stack per input, in input order,) lock time. All multi-byte integers are
// little-endian; all counts and lengths are compact integers.
// ---------------------------------------------------------------------------

pub open spec fn ser_u16_le(x: u16) -> Seq<u8> {
    seq![(x & 0xff) as u8, ((x >> 8) & 0xff) as u8]
}

pub open spec fn ser_u32_le(x: u32) -> Seq<u8> {
    seq![
        (x & 0xff) as u8,
        ((x >> 8) & 0xff) as u8,
        ((x >> 16) & 0xff) as u8,
        ((x >> 24) & 0xff) as u8,
    ]
}

pub open spec fn ser_u64_le(x: u64) -> Seq<u8> {
    seq![
        (x & 0xff) as u8,
        ((x >> 8) & 0xff) as u8,
        ((x >> 16) & 0xff) as u8,
        ((x >> 24) & 0xff) as u8,
        ((x >> 32) & 0xff) as u8,
        ((x >> 40) & 0xff) as u8,
        ((x >> 48) & 0xff) as u8,
        ((x >> 56) & 0xff) as u8,
    ]
}

/// The compact integer ("varint") encoding: one byte below 0xfd, otherwise a
/// tag byte and the shortest little-endian form that holds the value.
pub open spec fn ser_varint(n: u64) -> Seq<u8> {
    if n < 0xfd {
        seq![n as u8]
    } else if n <= 0xffff {
        seq![0xfdu8] + ser_u16_le(n as u16)
    } else if n <= 0xffff_ffff {
        seq![0xfeu8] + ser_u32_le(n as u32)
    } else {
        seq![0xffu8] + ser_u64_le(n)
    }
}

/// A length-prefixed byte string. Exact only while the length fits in 64
/// bits; well-formed transactions guarantee that.
pub open spec fn ser_bytes(b: Seq<u8>) -> Seq<u8> {
    ser_varint(b.len() as u64) + b
}

pub open spec fn ser_outpoint(o: OutPointV) -> Seq<u8> {
    o.txid + ser_u32_le(o.vout)
}

/// An input on the wire: outpoint, unlock script, sequence. The witness
/// stack is not part of this; it stands in its own section.
pub open spec fn ser_txin(i: TxInV) -> Seq<u8> {
    ser_outpoint(i.prev) + ser_bytes(i.script_sig) + ser_u32_le(i.sequence)
}

pub open spec fn ser_txins(ins: Seq<TxInV>) -> Seq<u8>
    decreases ins.len(),
{
    if ins.len() == 0 {
        seq![]
    } else {
        ser_txin(ins[0]) + ser_txins(ins.skip(1))
    }
}

pub open spec fn ser_txout(o: TxOutV) -> Seq<u8> {
    ser_u64_le(o.value) + ser_bytes(o.script_pubkey)
}

pub open spec fn ser_txouts(outs: Seq<TxOutV>) -> Seq<u8>
    decreases outs.len(),
{
    if outs.len() == 0 {
        seq![]
    } else {
        ser_txout(outs[0]) + ser_txouts(outs.skip(1))
    }
}

pub open spec fn ser_items(items: Seq<Seq<u8>>) -> Seq<u8>
    decreases items.len(),
{
    if items.len() == 0 {
        seq![]
    } else {
        ser_bytes(items[0]) + ser_items(items.skip(1))
    }
}

/// One input's witness stack: item count, then each item length-prefixed.
pub open spec fn ser_witness_stack(w: Seq<Seq<u8>>) -> Seq<u8> {
    ser_varint(w.len() as u64) + ser_items(w)
}

pub open spec fn ser_witnesses(ins: Seq<TxInV>) -> Seq<u8>
    decreases ins.len(),
{
    if ins.len() == 0 {
        seq![]
    } else {
        ser_witness_stack(ins[0].witness) + ser_witnesses(ins.skip(1))
    }
}

/// Whether any input carries a witness; decides between the extended
/// (marker and flag) and the legacy serialization, as the standard encoding
/// does.
pub open spec fn has_witness(t: TransactionV) -> bool {
    exists|k: int| 0 <= k < t.inputs.len() && #[trigger] t.inputs[k].witness.len() > 0
}

/// The full wire encoding of a transaction.
pub open spec fn ser_tx(t: TransactionV) -> Seq<u8> {
    if has_witness(t) {
        ser_u32_le(t.version) + seq![0x00u8, 0x01u8] + ser_varint(t.inputs.len() as u64)
            + ser_txins(t.inputs) + ser_varint(t.outputs.len() as u64) + ser_txouts(t.outputs)
            + ser_witnesses(t.inputs) + ser_u32_le(t.lock_time)
    } else {
        ser_u32_le(t.version) + ser_varint(t.inputs.len() as u64) + ser_txins(t.inputs)
            + ser_varint(t.outputs.len() as u64) + ser_txouts(t.outputs) + ser_u32_le(t.lock_time)
    }
}

// ---------------------------------------------------------------------------
// The executable encoder, proved byte-for-byte equal to the specification.
// ---------------------------------------------------------------------------

fn push_u16_le(out: &mut Vec<u8>, x: u16)
    ensures
        final(out)@ == old(out)@ + ser_u16_le(x),
{
    out.push((x & 0xff) as u8);
    out.push(((x >> 8) & 0xff) as u8);
    proof {
        assert(out@ =~= old(out)@ + ser_u16_le(x));
    }
}

pub(crate) fn push_u32_le(out: &mut Vec<u8>, x: u32)
    ensures
        final(out)@ == old(out)@ + ser_u32_le(x),
{
    out.push((x & 0xff) as u8);
    out.push(((x >> 8) & 0xff) as u8);
    out.push(((x >> 16) & 0xff) as u8);
    out.push(((x >> 24) & 0xff) as u8);
    proof {
        assert(out@ =~= old(out)@ + ser_u32_le(x));
    }
}

pub(crate) fn push_u64_le(out: &mut Vec<u8>, x: u64)
    ensures
        final(out)@ == old(out)@ + ser_u64_le(x),
{
    out.push((x & 0xff) as u8);
    out.push(((x >> 8) & 0xff) as u8);
    out.push(((x >> 16) & 0xff) as u8);
    out.push(((x >> 24) & 0xff) as u8);
    out.push(((x >> 32) & 0xff) as u8);
    out.push(((x >> 40) & 0xff) as u8);
    out.push(((x >> 48) & 0xff) as u8);
    out.push(((x >> 56) & 0xff) as u8);
    proof {
        assert(out@ =~= old(out)@ + ser_u64_le(x));
    }
}

fn push_varint(out: &mut Vec<u8>, n: u64)
    ensures
        final(out)@ == old(out)@ + ser_varint(n),
{
    if n < 0xfd {
        out.push(n as u8);
        proof {
            assert(out@ =~= old(out)@ + ser_varint(n));
        }
    } else if n <= 0xffff {
        out.push(0xfd);
        push_u16_le(out, n as u16);
        proof {
            assert(out@ =~= old(out)@ + ser_varint(n));
        }
    } else if n <= 0xffff_ffff {
        out.push(0xfe);
        push_u32_le(out, n as u32);
        proof {
            assert(out@ =~= old(out)@ + ser_varint(n));
        }
    } else {
        out.push(0xff);
        push_u64_le(out, n);
        proof {
            assert(out@ =~= old(out)@ + ser_varint(n));
        }
    }
}

pub(crate) fn push_raw(out: &mut Vec<u8>, b: &Vec<u8>)
    ensures
        final(out)@ == old(out)@ + b@,
{
    let mut i: usize = 0;
    while i < b.len()
        invariant
            i <= b.len(),
            out@ == old(out)@ + b@.take(i as int),
        decreases b.len() - i,
    {
        out.push(b[i]);
        proof {
            assert(out@ =~= old(out)@ + b@.take(i as int + 1));
        }
        i = i + 1;
    }
    proof {
        assert(old(out)@ + b@.take(b@.len() as int) =~= old(out)@ + b@);
    }
}

fn push_bytes(out: &mut Vec<u8>, b: &Vec<u8>)
    ensures
        final(out)@ == old(out)@ + ser_bytes(b@),
{
    push_varint(out, b.len() as u64);
    push_raw(out, b);
    proof {
        assert(out@ =~= old(out)@ + ser_bytes(b@));
    }
}

pub(crate) fn push_outpoint(out: &mut Vec<u8>, o: &OutPoint)
    ensures
        final(out)@ == old(out)@ + ser_outpoint(o@),
{
    push_raw(out, &o.txid);
    push_u32_le(out, o.vout);
    proof {
        assert(out@ =~= old(out)@ + ser_outpoint(o@));
    }
}

fn push_txin(out: &mut Vec<u8>, i: &TxIn)
    ensures
        final(out)@ == old(out)@ + ser_txin(i@),
{
    push_outpoint(out, &i.prev);
    push_bytes(out, &i.script_sig);
    push_u32_le(out, i.sequence);
    proof {
        assert(out@ =~= old(out)@ + ser_txin(i@));
    }
}

fn write_txins(out: &mut Vec<u8>, ins: &Vec<TxIn>, from: usize)
    requires
        from <= ins.len(),
    ensures
        final(out)@ == old(out)@ + ser_txins(ins.deep_view().skip(from as int)),
    decreases ins.len() - from,
{
    if from < ins.len() {
        push_txin(out, &ins[from]);
        write_txins(out, ins, from + 1);
        proof {
            let dv = ins.deep_view();
            assert(dv.skip(from as int).skip(1) =~= dv.skip(from as int + 1));
            assert(dv.skip(from as int)[0] == dv[from as int]);
            assert(out@ =~= old(out)@ + ser_txins(dv.skip(from as int)));
        }
    } else {
        proof {
            assert(ins.deep_view().skip(from as int).len() == 0);
            assert(out@ =~= old(out)@ + ser_txins(ins.deep_view().skip(from as int)));
        }
    }
}

fn push_txout(out: &mut Vec<u8>, o: &TxOut)
    ensures
        final(out)@ == old(out)@ + ser_txout(o@),
{
    push_u64_le(out, o.value);
    push_bytes(out, &o.script_pubkey);
    proof {
        assert(out@ =~= old(out)@ + ser_txout(o@));
    }
}

pub(crate) fn write_txouts(out: &mut Vec<u8>, outs: &Vec<TxOut>, from: usize)
    requires
        from <= outs.len(),
    ensures
        final(out)@ == old(out)@ + ser_txouts(outs.deep_view().skip(from as int)),
    decreases outs.len() - from,
{
    if from < outs.len() {
        push_txout(out, &outs[from]);
        write_txouts(out, outs, from + 1);
        proof {
            let dv = outs.deep_view();
            assert(dv.skip(from as int).skip(1) =~= dv.skip(from as int + 1));
            assert(dv.skip(from as int)[0] == dv[from as int]);
            assert(out@ =~= old(out)@ + ser_txouts(dv.skip(from as int)));
        }
    } else {
        proof {
            assert(outs.deep_view().skip(from as int).len() == 0);
            assert(out@ =~= old(out)@ + ser_txouts(outs.deep_view().skip(from as int)));
        }
    }
}

fn write_items(out: &mut Vec<u8>, items: &Vec<Vec<u8>>, from: usize)
    requires
        from <= items.len(),
    ensures
        final(out)@ == old(out)@ + ser_items(items.deep_view().skip(from as int)),
    decreases items.len() - from,
{
    if from < items.len() {
        push_bytes(out, &items[from]);
        write_items(out, items, from + 1);
        proof {
            let dv = items.deep_view();
            assert(dv.skip(from as int).skip(1) =~= dv.skip(from as int + 1));
            assert(dv.skip(from as int)[0] == dv[from as int]);
            assert(out@ =~= old(out)@ + ser_items(dv.skip(from as int)));
        }
    } else {
        proof {
            assert(items.deep_view().skip(from as int).len() == 0);
            assert(out@ =~= old(out)@ + ser_items(items.deep_view().skip(from as int)));
        }
    }
}

fn push_witness_stack(out: &mut Vec<u8>, w: &Vec<Vec<u8>>)
    ensures
        final(out)@ == old(out)@ + ser_witness_stack(w.deep_view()),
{
    push_varint(out, w.len() as u64);
    write_items(out, w, 0);
    proof {
        assert(w.deep_view().skip(0) =~= w.deep_view());
        assert(out@ =~= old(out)@ + ser_witness_stack(w.deep_view()));
    }
}

fn write_witnesses(out: &mut Vec<u8>, ins: &Vec<TxIn>, from: usize)
    requires
        from <= ins.len(),
    ensures
        final(out)@ == old(out)@ + ser_witnesses(ins.deep_view().skip(from as int)),
    decreases ins.len() - from,
{
    if from < ins.len() {
        push_witness_stack(out, &ins[from].witness);
        write_witnesses(out, ins, from + 1);
        proof {
            let dv = ins.deep_view();
            assert(dv.skip(from as int).skip(1) =~= dv.skip(from as int + 1));
            assert(dv.skip(from as int)[0] == dv[from as int]);
            assert(out@ =~= old(out)@ + ser_witnesses(dv.skip(from as int)));
        }
    } else {
        proof {
            assert(ins.deep_view().skip(from as int).len() == 0);
            assert(out@ =~= old(out)@ + ser_witnesses(ins.deep_view().skip(from as int)));
        }
    }
}

/// Whether any input of the given transaction carries a witness.
pub fn tx_has_witness(t: &Transaction) -> (r: bool)
    ensures
        r == has_witness(t@),
{
    let mut i: usize = 0;
    while i < t.inputs.len()
        invariant
            i <= t.inputs.len(),
            forall|k: int| 0 <= k < i ==> #[trigger] t.inputs.deep_view()[k].witness.len() == 0,
        decreases t.inputs.len() - i,
    {
        if t.inputs[i].witness.len() > 0 {
            proof {
                assert(t@.inputs[i as int].witness.len() > 0);
            }
            return true;
        }
        i = i + 1;
    }
    false
}

/// Encodes a transaction into its canonical wire form.
pub fn serialize(t: &Transaction) -> (r: Vec<u8>)
    ensures
        r@ == ser_tx(t@),
{
    let mut out: Vec<u8> = Vec::new();
    push_u32_le(&mut out, t.version);
    let witness = tx_has_witness(t);
    if witness {
        out.push(0x00);
        out.push(0x01);
    }
    push_varint(&mut out, t.inputs.len() as u64);
    write_txins(&mut out, &t.inputs, 0);
    push_varint(&mut out, t.outputs.len() as u64);
    write_txouts(&mut out, &t.outputs, 0);
    if witness {
        write_witnesses(&mut out, &t.inputs, 0);
    }
    push_u32_le(&mut out, t.lock_time);
    proof {
        assert(t.inputs.deep_view().skip(0) =~= t@.inputs);
        assert(t.outputs.deep_view().skip(0) =~= t@.outputs);
        assert(out@ =~= ser_tx(t@));
    }
    out
}

// ---------------------------------------------------------------------------
// Hexadecimal framing of the wire bytes, as the broadcast interface wants
// them.
// ---------------------------------------------------------------------------

/// The lowercase hexadecimal digit for a value below sixteen.
pub open spec fn hex_digit(n: int) -> char {
    if n == 0 { '0' } else if n == 1 { '1' } else if n == 2 { '2' } else if n == 3 { '3' }
    else if n == 4 { '4' } else if n == 5 { '5' } else if n == 6 { '6' } else if n == 7 { '7' }
    else if n == 8 { '8' } else if n == 9 { '9' } else if n == 10 { 'a' } else if n == 11 { 'b' }
    else if n == 12 { 'c' } else if n == 13 { 'd' } else if n == 14 { 'e' } else { 'f' }
}

/// The lowercase hexadecimal form of a byte string: two digits per byte,
/// high nibble first.
pub open spec fn hex_of(b: Seq<u8>) -> Seq<char>
    decreases b.len(),
{
    if b.len() == 0 {
        seq![]
    } else {
        seq![hex_digit(b[0] as int / 16), hex_digit(b[0] as int % 16)] + hex_of(b.skip(1))
    }
}

pub open spec fn is_hex_char(c: char) -> bool {
    ('0' <= c && c <= '9') || ('a' <= c && c <= 'f') || ('A' <= c && c <= 'F')
}

pub open spec fn hex_val(c: char) -> int {
    if '0' <= c && c <= '9' {
        c as int - '0' as int
    } else if 'a' <= c && c <= 'f' {
        c as int - 'a' as int + 10
    } else {
        c as int - 'A' as int + 10
    }
}

/// What a string of hex digits decodes to, two digits per byte.
pub open spec fn hex_decode_spec(s: Seq<char>) -> Seq<u8>
    decreases s.len(),
{
    if s.len() < 2 {
        seq![]
    } else {
        seq![(hex_val(s[0]) * 16 + hex_val(s[1])) as u8] + hex_decode_spec(s.skip(2))
    }
}

/// A decodable hex string: even length, hex digits throughout.
pub open spec fn is_hex_str(s: Seq<char>) -> bool {
    s.len() % 2 == 0 && forall|k: int| 0 <= k < s.len() ==> is_hex_char(#[trigger] s[k])
}

/// Relies on hex::encode: the lowercase hexadecimal form, two digits per
/// byte, high nibble first.
#[verifier::external_body]
pub fn to_hex(b: &Vec<u8>) -> (r: String)
    ensures
        r@ == hex_of(b@),
{
    hex::encode(b.as_slice())
}

/// Relies on hex::decode: it succeeds exactly on even-length strings of hex
/// digits (either case), one byte per digit pair, high nibble first.
#[verifier::external_body]
pub fn from_hex(s: &str) -> (r: Option<Vec<u8>>)
    ensures
        r matches Some(b) ==> (is_hex_str(s@) && b@ == hex_decode_spec(s@)),
        r is None ==> !is_hex_str(s@),
{
    match hex::decode(s) {
        Ok(v) => Some(v),
        Err(_) => None,
    }
}

/// Encodes a transaction to the hexadecimal form the broadcast interface
/// takes.
pub fn serialize_hex(t: &Transaction) -> (r: String)
    ensures
        r@ == hex_of(ser_tx(t@)),
{
    let bytes = serialize(t);
    to_hex(&bytes)
}

} // verus!
