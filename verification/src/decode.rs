use vstd::prelude::*;
use crate::codec::has_witness;
use crate::tx::{OutPoint, OutPointV, Transaction, TransactionV, TxIn, TxInV, TxOut, TxOutV};

verus! {

// ---------------------------------------------------------------------------
// The wire decoder as a mathematical function: each parser reads a prefix of
// the byte sequence and yields the decoded value together with the number of
// bytes it consumed, or nothing when the bytes are malformed. The executable
// decoder below is proved to return exactly what these parsers say.
// ---------------------------------------------------------------------------

pub open spec fn from_le2(b0: u8, b1: u8) -> u16 {
    (b0 as u16) | ((b1 as u16) << 8)
}

pub open spec fn from_le4(b0: u8, b1: u8, b2: u8, b3: u8) -> u32 {
    (b0 as u32) | ((b1 as u32) << 8) | ((b2 as u32) << 16) | ((b3 as u32) << 24)
}

pub open spec fn from_le8(b0: u8, b1: u8, b2: u8, b3: u8, b4: u8, b5: u8, b6: u8, b7: u8) -> u64 {
    (b0 as u64) | ((b1 as u64) << 8) | ((b2 as u64) << 16) | ((b3 as u64) << 24) | (
    (b4 as u64) << 32) | ((b5 as u64) << 40) | ((b6 as u64) << 48) | ((b7 as u64) << 56)
}

pub open spec fn parse_u16_le(s: Seq<u8>) -> Option<(u16, int)> {
    if s.len() >= 2 {
        Some((from_le2(s[0], s[1]), 2int))
    } else {
        None
    }
}

pub open spec fn parse_u32_le(s: Seq<u8>) -> Option<(u32, int)> {
    if s.len() >= 4 {
        Some((from_le4(s[0], s[1], s[2], s[3]), 4int))
    } else {
        None
    }
}

pub open spec fn parse_u64_le(s: Seq<u8>) -> Option<(u64, int)> {
    if s.len() >= 8 {
        Some((from_le8(s[0], s[1], s[2], s[3], s[4], s[5], s[6], s[7]), 8int))
    } else {
        None
    }
}

/// Reads a compact integer, refusing the non-canonical forms (a wider
/// encoding than the value needs), as strict decoders of the wire format do.
pub open spec fn parse_varint(s: Seq<u8>) -> Option<(u64, int)> {
    if s.len() < 1 {
        None
    } else if s[0] < 0xfd {
        Some((s[0] as u64, 1int))
    } else if s[0] == 0xfd {
        match parse_u16_le(s.skip(1)) {
            Some((v, _)) => if v >= 0xfd {
                Some((v as u64, 3int))
            } else {
                None
            },
            None => None,
        }
    } else if s[0] == 0xfe {
        match parse_u32_le(s.skip(1)) {
            Some((v, _)) => if v > 0xffff {
                Some((v as u64, 5int))
            } else {
                None
            },
            None => None,
        }
    } else {
        match parse_u64_le(s.skip(1)) {
            Some((v, _)) => if v > 0xffff_ffff {
                Some((v, 9int))
            } else {
                None
            },
            None => None,
        }
    }
}

/// Reads a length-prefixed byte string.
pub open spec fn parse_bytes(s: Seq<u8>) -> Option<(Seq<u8>, int)> {
    match parse_varint(s) {
        Some((n, c)) => if s.len() - c >= n {
            Some((s.subrange(c, c + n), c + n))
        } else {
            None
        },
        None => None,
    }
}

pub open spec fn parse_outpoint(s: Seq<u8>) -> Option<(OutPointV, int)> {
    if s.len() < 32 {
        None
    } else {
        match parse_u32_le(s.skip(32)) {
            Some((vout, c)) => Some((OutPointV { txid: s.take(32), vout }, 32 + c)),
            None => None,
        }
    }
}

/// Reads one input; its witness stack stays empty until the witness section
/// is read.
pub open spec fn parse_txin(s: Seq<u8>) -> Option<(TxInV, int)> {
    match parse_outpoint(s) {
        Some((prev, c1)) => match parse_bytes(s.skip(c1)) {
            Some((script_sig, c2)) => match parse_u32_le(s.skip(c1 + c2)) {
                Some((sequence, c3)) => Some(
                    (TxInV { prev, script_sig, sequence, witness: seq![] }, c1 + c2 + c3),
                ),
                None => None,
            },
            None => None,
        },
        None => None,
    }
}

pub open spec fn parse_txins(s: Seq<u8>, n: u64) -> Option<(Seq<TxInV>, int)>
    decreases n,
{
    if n == 0 {
        Some((seq![], 0int))
    } else {
        match parse_txin(s) {
            Some((i, c1)) => match parse_txins(s.skip(c1), (n - 1) as u64) {
                Some((rest, c2)) => Some((seq![i] + rest, c1 + c2)),
                None => None,
            },
            None => None,
        }
    }
}

pub open spec fn parse_txout(s: Seq<u8>) -> Option<(TxOutV, int)> {
    match parse_u64_le(s) {
        Some((value, c1)) => match parse_bytes(s.skip(c1)) {
            Some((script_pubkey, c2)) => Some((TxOutV { value, script_pubkey }, c1 + c2)),
            None => None,
        },
        None => None,
    }
}

pub open spec fn parse_txouts(s: Seq<u8>, n: u64) -> Option<(Seq<TxOutV>, int)>
    decreases n,
{
    if n == 0 {
        Some((seq![], 0int))
    } else {
        match parse_txout(s) {
            Some((o, c1)) => match parse_txouts(s.skip(c1), (n - 1) as u64) {
                Some((rest, c2)) => Some((seq![o] + rest, c1 + c2)),
                None => None,
            },
            None => None,
        }
    }
}

pub open spec fn parse_items(s: Seq<u8>, n: u64) -> Option<(Seq<Seq<u8>>, int)>
    decreases n,
{
    if n == 0 {
        Some((seq![], 0int))
    } else {
        match parse_bytes(s) {
            Some((b, c1)) => match parse_items(s.skip(c1), (n - 1) as u64) {
                Some((rest, c2)) => Some((seq![b] + rest, c1 + c2)),
                None => None,
            },
            None => None,
        }
    }
}

/// Reads one input's witness stack: item count, then the items.
pub open spec fn parse_witness_stack(s: Seq<u8>) -> Option<(Seq<Seq<u8>>, int)> {
    match parse_varint(s) {
        Some((n, c1)) => match parse_items(s.skip(c1), n) {
            Some((items, c2)) => Some((items, c1 + c2)),
            None => None,
        },
        None => None,
    }
}

pub open spec fn parse_stacks(s: Seq<u8>, n: u64) -> Option<(Seq<Seq<Seq<u8>>>, int)>
    decreases n,
{
    if n == 0 {
        Some((seq![], 0int))
    } else {
        match parse_witness_stack(s) {
            Some((w, c1)) => match parse_stacks(s.skip(c1), (n - 1) as u64) {
                Some((rest, c2)) => Some((seq![w] + rest, c1 + c2)),
                None => None,
            },
            None => None,
        }
    }
}

/// Pairs parsed inputs with their parsed witness stacks, in input order.
pub open spec fn set_witnesses(ins: Seq<TxInV>, ws: Seq<Seq<Seq<u8>>>) -> Seq<TxInV> {
    Seq::new(
        ins.len(),
        |k: int|
            TxInV {
                prev: ins[k].prev,
                script_sig: ins[k].script_sig,
                sequence: ins[k].sequence,
                witness: ws[k],
            },
    )
}

/// Reads a whole transaction. The extended form is taken exactly when the
/// byte after the version is the zero marker; a decoded extended form whose
/// witness stacks are all empty is refused as non-canonical, so every byte
/// string decodes in at most one way.
pub open spec fn parse_tx(s: Seq<u8>) -> Option<(TransactionV, int)> {
    match parse_u32_le(s) {
        Some((version, c0)) => {
            let r = s.skip(c0);
            if r.len() >= 1 && r[0] == 0x00 {
                if r.len() >= 2 && r[1] == 0x01 {
                    parse_tx_body(version, r.skip(2), c0 + 2, true)
                } else {
                    None
                }
            } else {
                parse_tx_body(version, r, c0, false)
            }
        },
        None => None,
    }
}

/// Reads the input and output sections: input count, inputs, output count,
/// outputs. Yields the input count too, since the witness section repeats
/// per input.
pub open spec fn parse_tx_lists(s: Seq<u8>) -> Option<(u64, Seq<TxInV>, Seq<TxOutV>, int)> {
    match parse_varint(s) {
        Some((nin, c1)) => match parse_txins(s.skip(c1), nin) {
            Some((ins0, c2)) => match parse_varint(s.skip(c1 + c2)) {
                Some((nout, c3)) => match parse_txouts(s.skip(c1 + c2 + c3), nout) {
                    Some((outs, c4)) => Some((nin, ins0, outs, c1 + c2 + c3 + c4)),
                    None => None,
                },
                None => None,
            },
            None => None,
        },
        None => None,
    }
}

/// Reads the body shared by both forms: inputs, outputs, (witness stacks,)
/// lock time. `before` counts the bytes already consumed ahead of the body.
pub open spec fn parse_tx_body(version: u32, s: Seq<u8>, before: int, extended: bool) -> Option<
    (TransactionV, int),
> {
    match parse_tx_lists(s) {
        Some((nin, ins0, outs, cl)) => if extended {
            match parse_stacks(s.skip(cl), nin) {
                Some((ws, c5)) => match parse_u32_le(s.skip(cl + c5)) {
                    Some((lock_time, c6)) => {
                        let t = TransactionV {
                            version,
                            lock_time,
                            inputs: set_witnesses(ins0, ws),
                            outputs: outs,
                        };
                        if has_witness(t) {
                            Some((t, before + cl + c5 + c6))
                        } else {
                            None
                        }
                    },
                    None => None,
                },
                None => None,
            }
        } else {
            match parse_u32_le(s.skip(cl)) {
                Some((lock_time, c5)) => Some(
                    (
                        TransactionV { version, lock_time, inputs: ins0, outputs: outs },
                        before + cl + c5,
                    ),
                ),
                None => None,
            }
        },
        None => None,
    }
}

// ---------------------------------------------------------------------------
// The executable decoder, proved to return exactly what the parsers above
// say. Each reader walks the byte vector from `pos` and, on success, hands
// back the decoded value and the position just past what it consumed.
// ---------------------------------------------------------------------------

proof fn lemma_skip_skip(s: Seq<u8>, a: int, b: int)
    requires
        0 <= a,
        0 <= b,
        a + b <= s.len(),
    ensures
        s.skip(a).skip(b) == s.skip(a + b),
{
    assert(s.skip(a).skip(b) =~= s.skip(a + b));
}

fn read_u16_le(s: &Vec<u8>, pos: usize) -> (r: Option<(u16, usize)>)
    requires
        pos <= s.len(),
    ensures
        parse_u16_le(s@.skip(pos as int)) is None ==> r is None,
        parse_u16_le(s@.skip(pos as int)) matches Some((v, c)) ==> (r matches Some((rv, rp))
            && rv == v && rp == pos + c),
        r matches Some((rv, rp)) ==> pos <= rp <= s.len(),
{
    if s.len() - pos >= 2 {
        let b0 = s[pos];
        let b1 = s[pos + 1];
        Some(((b0 as u16) | ((b1 as u16) << 8), pos + 2))
    } else {
        None
    }
}

fn read_u32_le(s: &Vec<u8>, pos: usize) -> (r: Option<(u32, usize)>)
    requires
        pos <= s.len(),
    ensures
        parse_u32_le(s@.skip(pos as int)) is None ==> r is None,
        parse_u32_le(s@.skip(pos as int)) matches Some((v, c)) ==> (r matches Some((rv, rp))
            && rv == v && rp == pos + c),
        r matches Some((rv, rp)) ==> pos <= rp <= s.len(),
{
    if s.len() - pos >= 4 {
        let b0 = s[pos];
        let b1 = s[pos + 1];
        let b2 = s[pos + 2];
        let b3 = s[pos + 3];
        Some(((b0 as u32) | ((b1 as u32) << 8) | ((b2 as u32) << 16) | ((b3 as u32) << 24), pos + 4))
    } else {
        None
    }
}

fn read_u64_le(s: &Vec<u8>, pos: usize) -> (r: Option<(u64, usize)>)
    requires
        pos <= s.len(),
    ensures
        parse_u64_le(s@.skip(pos as int)) is None ==> r is None,
        parse_u64_le(s@.skip(pos as int)) matches Some((v, c)) ==> (r matches Some((rv, rp))
            && rv == v && rp == pos + c),
        r matches Some((rv, rp)) ==> pos <= rp <= s.len(),
{
    if s.len() - pos >= 8 {
        let b0 = s[pos];
        let b1 = s[pos + 1];
        let b2 = s[pos + 2];
        let b3 = s[pos + 3];
        let b4 = s[pos + 4];
        let b5 = s[pos + 5];
        let b6 = s[pos + 6];
        let b7 = s[pos + 7];
        let v: u64 = (b0 as u64) | ((b1 as u64) << 8) | ((b2 as u64) << 16) | ((b3 as u64) << 24)
            | ((b4 as u64) << 32) | ((b5 as u64) << 40) | ((b6 as u64) << 48) | ((b7 as u64) << 56);
        Some((v, pos + 8))
    } else {
        None
    }
}

fn read_varint(s: &Vec<u8>, pos: usize) -> (r: Option<(u64, usize)>)
    requires
        pos <= s.len(),
    ensures
        parse_varint(s@.skip(pos as int)) is None ==> r is None,
        parse_varint(s@.skip(pos as int)) matches Some((v, c)) ==> (r matches Some((rv, rp))
            && rv == v && rp == pos + c),
        r matches Some((rv, rp)) ==> pos <= rp <= s.len(),
{
    if s.len() - pos < 1 {
        return None;
    }
    let tag = s[pos];
    proof {
        lemma_skip_skip(s@, pos as int, 1);
    }
    if tag < 0xfd {
        Some((tag as u64, pos + 1))
    } else if tag == 0xfd {
        match read_u16_le(s, pos + 1) {
            Some((v, p2)) => if v >= 0xfd {
                Some((v as u64, p2))
            } else {
                None
            },
            None => None,
        }
    } else if tag == 0xfe {
        match read_u32_le(s, pos + 1) {
            Some((v, p2)) => if v > 0xffff {
                Some((v as u64, p2))
            } else {
                None
            },
            None => None,
        }
    } else {
        match read_u64_le(s, pos + 1) {
            Some((v, p2)) => if v > 0xffff_ffff {
                Some((v, p2))
            } else {
                None
            },
            None => None,
        }
    }
}

/// Copies `len` bytes starting at `pos` into a fresh vector.
fn copy_range(s: &Vec<u8>, pos: usize, len: usize) -> (r: Vec<u8>)
    requires
        pos + len <= s.len(),
    ensures
        r@ == s@.subrange(pos as int, pos as int + len as int),
{
    let mut r: Vec<u8> = Vec::new();
    let mut i: usize = 0;
    while i < len
        invariant
            i <= len,
            pos + len <= s.len(),
            r@ == s@.subrange(pos as int, pos as int + i as int),
        decreases len - i,
    {
        r.push(s[pos + i]);
        proof {
            assert(r@ =~= s@.subrange(pos as int, pos as int + i as int + 1));
        }
        i = i + 1;
    }
    r
}

fn read_bytes(s: &Vec<u8>, pos: usize) -> (r: Option<(Vec<u8>, usize)>)
    requires
        pos <= s.len(),
    ensures
        parse_bytes(s@.skip(pos as int)) is None ==> r is None,
        parse_bytes(s@.skip(pos as int)) matches Some((b, c)) ==> (r matches Some((rb, rp))
            && rb@ == b && rp == pos + c),
        r matches Some((rb, rp)) ==> pos <= rp <= s.len(),
{
    match read_varint(s, pos) {
        Some((n, p1)) => {
            if n <= (s.len() - p1) as u64 {
                let len = n as usize;
                let rb = copy_range(s, p1, len);
                proof {
                    let sk = s@.skip(pos as int);
                    let c: int = p1 - pos;
                    assert(sk.subrange(c, c + n) =~= s@.subrange(p1 as int, p1 as int + n));
                }
                Some((rb, p1 + len))
            } else {
                None
            }
        },
        None => None,
    }
}

fn read_outpoint(s: &Vec<u8>, pos: usize) -> (r: Option<(OutPoint, usize)>)
    requires
        pos <= s.len(),
    ensures
        parse_outpoint(s@.skip(pos as int)) is None ==> r is None,
        parse_outpoint(s@.skip(pos as int)) matches Some((o, c)) ==> (r matches Some((ro, rp))
            && ro@ == o && rp == pos + c),
        r matches Some((ro, rp)) ==> pos <= rp <= s.len(),
{
    if s.len() - pos < 32 {
        return None;
    }
    let txid = copy_range(s, pos, 32);
    proof {
        lemma_skip_skip(s@, pos as int, 32);
        assert(s@.skip(pos as int).take(32) =~= s@.subrange(pos as int, pos as int + 32));
    }
    match read_u32_le(s, pos + 32) {
        Some((vout, p2)) => Some((OutPoint { txid, vout }, p2)),
        None => None,
    }
}

fn read_txin(s: &Vec<u8>, pos: usize) -> (r: Option<(TxIn, usize)>)
    requires
        pos <= s.len(),
    ensures
        parse_txin(s@.skip(pos as int)) is None ==> r is None,
        parse_txin(s@.skip(pos as int)) matches Some((i, c)) ==> (r matches Some((ri, rp))
            && ri@ == i && rp == pos + c),
        r matches Some((ri, rp)) ==> pos <= rp <= s.len(),
{
    match read_outpoint(s, pos) {
        Some((prev, p1)) => {
            proof {
                lemma_skip_skip(s@, pos as int, p1 - pos);
            }
            match read_bytes(s, p1) {
                Some((script_sig, p2)) => {
                    proof {
                        lemma_skip_skip(s@, pos as int, p2 - pos);
                    }
                    match read_u32_le(s, p2) {
                        Some((sequence, p3)) => {
                            let i = TxIn { prev, script_sig, sequence, witness: Vec::new() };
                            proof {
                                let iv = parse_txin(s@.skip(pos as int))->Some_0.0;
                                assert(i@.witness =~= iv.witness);
                                assert(i@ =~~= iv);
                            }
                            Some((i, p3))
                        },
                        None => None,
                    }
                },
                None => None,
            }
        },
        None => None,
    }
}

fn read_txins(s: &Vec<u8>, pos: usize, n: u64) -> (r: Option<(Vec<TxIn>, usize)>)
    requires
        pos <= s.len(),
    ensures
        parse_txins(s@.skip(pos as int), n) is None ==> r is None,
        parse_txins(s@.skip(pos as int), n) matches Some((ins, c)) ==> (r matches Some((rv, rp))
            && rv.deep_view() == ins && rp == pos + c),
        r matches Some((rv, rp)) ==> pos <= rp <= s.len(),
    decreases n,
{
    if n == 0 {
        let rv: Vec<TxIn> = Vec::new();
        proof {
            assert(rv.deep_view() =~= parse_txins(s@.skip(pos as int), n)->Some_0.0);
        }
        Some((rv, pos))
    } else {
        match read_txin(s, pos) {
            Some((i, p1)) => {
                proof {
                    lemma_skip_skip(s@, pos as int, p1 - pos);
                }
                match read_txins(s, p1, n - 1) {
                    Some((mut rv, p2)) => {
                        let ghost rest_dv = rv.deep_view();
                        rv.insert(0, i);
                        proof {
                            assert(rv.deep_view() =~~= seq![i@] + rest_dv);
                        }
                        Some((rv, p2))
                    },
                    None => None,
                }
            },
            None => None,
        }
    }
}

fn read_txout(s: &Vec<u8>, pos: usize) -> (r: Option<(TxOut, usize)>)
    requires
        pos <= s.len(),
    ensures
        parse_txout(s@.skip(pos as int)) is None ==> r is None,
        parse_txout(s@.skip(pos as int)) matches Some((o, c)) ==> (r matches Some((ro, rp))
            && ro@ == o && rp == pos + c),
        r matches Some((ro, rp)) ==> pos <= rp <= s.len(),
{
    match read_u64_le(s, pos) {
        Some((value, p1)) => {
            proof {
                lemma_skip_skip(s@, pos as int, p1 - pos);
            }
            match read_bytes(s, p1) {
                Some((script_pubkey, p2)) => Some((TxOut { value, script_pubkey }, p2)),
                None => None,
            }
        },
        None => None,
    }
}

fn read_txouts(s: &Vec<u8>, pos: usize, n: u64) -> (r: Option<(Vec<TxOut>, usize)>)
    requires
        pos <= s.len(),
    ensures
        parse_txouts(s@.skip(pos as int), n) is None ==> r is None,
        parse_txouts(s@.skip(pos as int), n) matches Some((outs, c)) ==> (r matches Some((rv, rp))
            && rv.deep_view() == outs && rp == pos + c),
        r matches Some((rv, rp)) ==> pos <= rp <= s.len(),
    decreases n,
{
    if n == 0 {
        let rv: Vec<TxOut> = Vec::new();
        proof {
            assert(rv.deep_view() =~= parse_txouts(s@.skip(pos as int), n)->Some_0.0);
        }
        Some((rv, pos))
    } else {
        match read_txout(s, pos) {
            Some((o, p1)) => {
                proof {
                    lemma_skip_skip(s@, pos as int, p1 - pos);
                }
                match read_txouts(s, p1, n - 1) {
                    Some((mut rv, p2)) => {
                        let ghost rest_dv = rv.deep_view();
                        rv.insert(0, o);
                        proof {
                            assert(rv.deep_view() =~~= seq![o@] + rest_dv);
                        }
                        Some((rv, p2))
                    },
                    None => None,
                }
            },
            None => None,
        }
    }
}

fn read_items(s: &Vec<u8>, pos: usize, n: u64) -> (r: Option<(Vec<Vec<u8>>, usize)>)
    requires
        pos <= s.len(),
    ensures
        parse_items(s@.skip(pos as int), n) is None ==> r is None,
        parse_items(s@.skip(pos as int), n) matches Some((items, c)) ==> (r matches Some((rv, rp))
            && rv.deep_view() == items && rp == pos + c),
        r matches Some((rv, rp)) ==> pos <= rp <= s.len(),
    decreases n,
{
    if n == 0 {
        let rv: Vec<Vec<u8>> = Vec::new();
        proof {
            assert(rv.deep_view() =~= parse_items(s@.skip(pos as int), n)->Some_0.0);
        }
        Some((rv, pos))
    } else {
        match read_bytes(s, pos) {
            Some((b, p1)) => {
                proof {
                    lemma_skip_skip(s@, pos as int, p1 - pos);
                }
                match read_items(s, p1, n - 1) {
                    Some((mut rv, p2)) => {
                        let ghost rest_dv = rv.deep_view();
                        rv.insert(0, b);
                        proof {
                            assert(rv.deep_view() =~~= seq![b@] + rest_dv);
                        }
                        Some((rv, p2))
                    },
                    None => None,
                }
            },
            None => None,
        }
    }
}

fn read_witness_stack(s: &Vec<u8>, pos: usize) -> (r: Option<(Vec<Vec<u8>>, usize)>)
    requires
        pos <= s.len(),
    ensures
        parse_witness_stack(s@.skip(pos as int)) is None ==> r is None,
        parse_witness_stack(s@.skip(pos as int)) matches Some((w, c)) ==> (r matches Some(
            (rv, rp),
        ) && rv.deep_view() == w && rp == pos + c),
        r matches Some((rv, rp)) ==> pos <= rp <= s.len(),
{
    match read_varint(s, pos) {
        Some((n, p1)) => {
            proof {
                lemma_skip_skip(s@, pos as int, p1 - pos);
            }
            read_items(s, p1, n)
        },
        None => None,
    }
}

fn read_stacks(s: &Vec<u8>, pos: usize, n: u64) -> (r: Option<(Vec<Vec<Vec<u8>>>, usize)>)
    requires
        pos <= s.len(),
    ensures
        parse_stacks(s@.skip(pos as int), n) is None ==> r is None,
        parse_stacks(s@.skip(pos as int), n) matches Some((ws, c)) ==> (r matches Some((rv, rp))
            && rv.deep_view() == ws && rp == pos + c),
        r matches Some((rv, rp)) ==> pos <= rp <= s.len(),
    decreases n,
{
    if n == 0 {
        let rv: Vec<Vec<Vec<u8>>> = Vec::new();
        proof {
            assert(rv.deep_view() =~= parse_stacks(s@.skip(pos as int), n)->Some_0.0);
        }
        Some((rv, pos))
    } else {
        match read_witness_stack(s, pos) {
            Some((w, p1)) => {
                proof {
                    lemma_skip_skip(s@, pos as int, p1 - pos);
                }
                match read_stacks(s, p1, n - 1) {
                    Some((mut rv, p2)) => {
                        let ghost rest_dv = rv.deep_view();
                        rv.insert(0, w);
                        proof {
                            assert(rv.deep_view() =~~= seq![w.deep_view()] + rest_dv);
                        }
                        Some((rv, p2))
                    },
                    None => None,
                }
            },
            None => None,
        }
    }
}

/// Every successful input-list parse yields exactly `n` inputs.
proof fn lemma_parse_txins_len(s: Seq<u8>, n: u64)
    requires
        parse_txins(s, n) is Some,
    ensures
        parse_txins(s, n)->Some_0.0.len() == n,
    decreases n,
{
    if n != 0 {
        let c1 = parse_txin(s)->Some_0.1;
        lemma_parse_txins_len(s.skip(c1), (n - 1) as u64);
    }
}

/// Every successful witness-section parse yields exactly `n` stacks.
proof fn lemma_parse_stacks_len(s: Seq<u8>, n: u64)
    requires
        parse_stacks(s, n) is Some,
    ensures
        parse_stacks(s, n)->Some_0.0.len() == n,
    decreases n,
{
    if n != 0 {
        let c1 = parse_witness_stack(s)->Some_0.1;
        lemma_parse_stacks_len(s.skip(c1), (n - 1) as u64);
    }
}

/// Moves each parsed witness stack into its input, in input order.
fn attach_witnesses(ins: Vec<TxIn>, stacks: Vec<Vec<Vec<u8>>>) -> (r: Vec<TxIn>)
    requires
        ins.len() == stacks.len(),
    ensures
        r.deep_view() == set_witnesses(ins.deep_view(), stacks.deep_view()),
{
    let ghost ins0 = ins.deep_view();
    let ghost st0 = stacks.deep_view();
    let mut r: Vec<TxIn> = Vec::new();
    let mut k: usize = 0;
    while k < ins.len()
        invariant
            k <= ins.len(),
            ins.len() == stacks.len(),
            ins.deep_view() == ins0,
            stacks.deep_view() == st0,
            r@.len() == k as int,
            forall|j: int| 0 <= j < k as int ==> #[trigger] r@[j]@ == set_witnesses(ins0, st0)[j],
        decreases ins.len() - k,
    {
        let mut ti = TxIn {
            prev: OutPoint { txid: copy_vec(&ins[k].prev.txid), vout: ins[k].prev.vout },
            script_sig: copy_vec(&ins[k].script_sig),
            sequence: ins[k].sequence,
            witness: Vec::new(),
        };
        let w = copy_stack(&stacks[k]);
        ti.witness = w;
        proof {
            assert(ins0[k as int] == ins@[k as int]@);
            assert(st0[k as int] == stacks@[k as int].deep_view());
            assert(ti@ =~~= set_witnesses(ins0, st0)[k as int]);
        }
        r.push(ti);
        k = k + 1;
    }
    proof {
        assert forall|j: int| 0 <= j < r@.len() implies #[trigger] r.deep_view()[j]
            == set_witnesses(ins0, st0)[j] by {
            assert(r.deep_view()[j] == r@[j]@);
            assert(r@[j]@ == set_witnesses(ins0, st0)[j]);
        }
        assert(r.deep_view() =~= set_witnesses(ins0, st0));
    }
    r
}

/// Copies a byte vector.
fn copy_vec(b: &Vec<u8>) -> (r: Vec<u8>)
    ensures
        r@ == b@,
{
    copy_range(b, 0, b.len())
}

/// Copies a witness stack.
fn copy_stack(w: &Vec<Vec<u8>>) -> (r: Vec<Vec<u8>>)
    ensures
        r.deep_view() == w.deep_view(),
{
    let mut r: Vec<Vec<u8>> = Vec::new();
    let mut i: usize = 0;
    while i < w.len()
        invariant
            i <= w.len(),
            r@.len() == i as int,
            forall|j: int| 0 <= j < i as int ==> #[trigger] r@[j]@ == w@[j]@,
        decreases w.len() - i,
    {
        let item = copy_vec(&w[i]);
        r.push(item);
        i = i + 1;
    }
    proof {
        assert forall|j: int| 0 <= j < r@.len() implies #[trigger] r.deep_view()[j]
            == w.deep_view()[j] by {
            assert(r.deep_view()[j] =~= r@[j]@);
            assert(w.deep_view()[j] =~= w@[j]@);
        }
        assert(r.deep_view() =~= w.deep_view());
    }
    r
}

/// Decodes a transaction from its canonical wire form. The whole input must
/// be consumed: trailing bytes, like malformed bytes, decode to nothing.
pub fn deserialize(bytes: &Vec<u8>) -> (r: Option<Transaction>)
    ensures
        parse_tx(bytes@) is None ==> r is None,
        parse_tx(bytes@) matches Some((t, c)) ==> if c == bytes@.len() {
            r matches Some(rt) && rt@ == t
        } else {
            r is None
        },
{
    let s = bytes;
    match read_u32_le(s, 0) {
        None => {
            proof {
                assert(s@.skip(0) =~= s@);
            }
            None
        },
        Some((version, p0)) => {
            proof {
                assert(s@.skip(0) =~= s@);
                lemma_skip_skip(s@, 0, 4);
            }
            let extended = s.len() - p0 >= 1 && s[p0] == 0x00;
            if extended && !(s.len() - p0 >= 2 && s[p0 + 1] == 0x01) {
                return None;
            }
            let body = if extended { p0 + 2 } else { p0 };
            proof {
                if extended {
                    lemma_skip_skip(s@, p0 as int, 2);
                }
            }
            match read_body(s, body, version, extended) {
                None => None,
                Some((t, p_end)) => {
                    if p_end == s.len() {
                        Some(t)
                    } else {
                        None
                    }
                },
            }
        },
    }
}

/// Decodes the body shared by both forms, from `pos` on.
#[verifier::rlimit(100)]
#[verifier::spinoff_prover]
fn read_body(s: &Vec<u8>, pos: usize, version: u32, extended: bool) -> (r: Option<
    (Transaction, usize),
>)
    requires
        pos <= s.len(),
    ensures
        parse_tx_body(version, s@.skip(pos as int), pos as int, extended) is None ==> r is None,
        parse_tx_body(version, s@.skip(pos as int), pos as int, extended) matches Some((t, c))
            ==> (r matches Some((rt, rp)) && rt@ == t && rp == c),
        r matches Some((rt, rp)) ==> pos <= rp <= s.len(),
{
    let ghost sk = s@.skip(pos as int);
    match read_varint(s, pos) {
        None => None,
        Some((nin, p1)) => {
            proof {
                lemma_skip_skip(s@, pos as int, p1 - pos);
            }
            match read_txins(s, p1, nin) {
                None => None,
                Some((ins0, p2)) => {
                    proof {
                        lemma_skip_skip(s@, pos as int, p2 - pos);
                    }
                    match read_varint(s, p2) {
                        None => None,
                        Some((nout, p3)) => {
                            proof {
                                lemma_skip_skip(s@, pos as int, p3 - pos);
                            }
                            match read_txouts(s, p3, nout) {
                                None => None,
                                Some((outs, p4)) => {
                                    proof {
                                        lemma_skip_skip(s@, pos as int, p4 - pos);
                                        assert(parse_tx_lists(sk) == Some(
                                            (nin, ins0.deep_view(), outs.deep_view(), p4 - pos),
                                        ));
                                    }
                                    if extended {
                                        proof {
                                            lemma_parse_txins_len(s@.skip(p1 as int), nin);
                                        }
                                        read_body_witness(
                                            s, pos, p4, version, nin, ins0, outs,
                                        )
                                    } else {
                                        match read_u32_le(s, p4) {
                                            None => None,
                                            Some((lock_time, p5)) => {
                                                let t = Transaction {
                                                    version,
                                                    lock_time,
                                                    inputs: ins0,
                                                    outputs: outs,
                                                };
                                                Some((t, p5))
                                            },
                                        }
                                    }
                                },
                            }
                        },
                    }
                },
            }
        },
    }
}

/// Decodes the witness section and lock time of the extended form, checks
/// canonicality, and assembles the transaction.
#[verifier::rlimit(100)]
#[verifier::spinoff_prover]
fn read_body_witness(
    s: &Vec<u8>,
    pos: usize,
    p4: usize,
    version: u32,
    nin: u64,
    ins0: Vec<TxIn>,
    outs: Vec<TxOut>,
) -> (r: Option<(Transaction, usize)>)
    requires
        pos <= p4 <= s.len(),
        ins0.deep_view().len() == nin,
        parse_tx_lists(s@.skip(pos as int)) == Some(
            (nin, ins0.deep_view(), outs.deep_view(), p4 - pos as int),
        ),
    ensures
        parse_tx_body(version, s@.skip(pos as int), pos as int, true) is None ==> r is None,
        parse_tx_body(version, s@.skip(pos as int), pos as int, true) matches Some((t, c)) ==> (
        r matches Some((rt, rp)) && rt@ == t && rp == c),
        r matches Some((rt, rp)) ==> pos <= rp <= s.len(),
{
    proof {
        lemma_skip_skip(s@, pos as int, p4 - pos);
    }
    match read_stacks(s, p4, nin) {
        None => None,
        Some((ws, p5)) => {
            proof {
                lemma_skip_skip(s@, pos as int, p5 - pos);
                lemma_parse_stacks_len(s@.skip(p4 as int), nin);
            }
            match read_u32_le(s, p5) {
                None => None,
                Some((lock_time, p6)) => {
                    let inputs = attach_witnesses(ins0, ws);
                    let t = Transaction { version, lock_time, inputs, outputs: outs };
                    if crate::codec::tx_has_witness(&t) {
                        Some((t, p6))
                    } else {
                        None
                    }
                },
            }
        },
    }
}

} // verus!
