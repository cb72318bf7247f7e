use vstd::prelude::*;

verus! {

/// Reference to one output of a prior transaction: the transaction id in
/// wire byte order (32 bytes) and the output index.
#[derive(Debug, PartialEq, Eq)]
pub struct OutPoint {
    pub txid: Vec<u8>,
    pub vout: u32,
}

/// Mathematical model of an outpoint.
#[verifier::ext_equal]
pub struct OutPointV {
    pub txid: Seq<u8>,
    pub vout: u32,
}

impl View for OutPoint {
    type V = OutPointV;

    open spec fn view(&self) -> OutPointV {
        OutPointV { txid: self.txid@, vout: self.vout }
    }
}

/// One transaction input: the outpoint it spends, the legacy unlock script
/// (empty for witness inputs), the sequence number, and the witness stack,
/// which stays empty until signing.
#[derive(Debug, PartialEq, Eq)]
pub struct TxIn {
    pub prev: OutPoint,
    pub script_sig: Vec<u8>,
    pub sequence: u32,
    pub witness: Vec<Vec<u8>>,
}

/// Mathematical model of an input.
#[verifier::ext_equal]
pub struct TxInV {
    pub prev: OutPointV,
    pub script_sig: Seq<u8>,
    pub sequence: u32,
    pub witness: Seq<Seq<u8>>,
}

impl View for TxIn {
    type V = TxInV;

    open spec fn view(&self) -> TxInV {
        TxInV {
            prev: self.prev@,
            script_sig: self.script_sig@,
            sequence: self.sequence,
            witness: self.witness.deep_view(),
        }
    }
}

/// One transaction output: a value in satoshis and the destination script.
#[derive(Debug, PartialEq, Eq)]
pub struct TxOut {
    pub value: u64,
    pub script_pubkey: Vec<u8>,
}

/// Mathematical model of an output.
#[verifier::ext_equal]
pub struct TxOutV {
    pub value: u64,
    pub script_pubkey: Seq<u8>,
}

impl View for TxOut {
    type V = TxOutV;

    open spec fn view(&self) -> TxOutV {
        TxOutV { value: self.value, script_pubkey: self.script_pubkey@ }
    }
}

/// A transaction: ordered inputs, ordered outputs, a version tag and an
/// absolute lock time.
#[derive(Debug, PartialEq, Eq)]
pub struct Transaction {
    pub version: u32,
    pub lock_time: u32,
    pub inputs: Vec<TxIn>,
    pub outputs: Vec<TxOut>,
}

/// Mathematical model of a transaction.
#[verifier::ext_equal]
pub struct TransactionV {
    pub version: u32,
    pub lock_time: u32,
    pub inputs: Seq<TxInV>,
    pub outputs: Seq<TxOutV>,
}

impl View for Transaction {
    type V = TransactionV;

    open spec fn view(&self) -> TransactionV {
        TransactionV {
            version: self.version,
            lock_time: self.lock_time,
            inputs: self.inputs.deep_view(),
            outputs: self.outputs.deep_view(),
        }
    }
}

impl DeepView for TxIn {
    type V = TxInV;

    open spec fn deep_view(&self) -> TxInV {
        self@
    }
}

impl DeepView for TxOut {
    type V = TxOutV;

    open spec fn deep_view(&self) -> TxOutV {
        self@
    }
}

/// A well-formed input: its outpoint carries a full 32-byte transaction id,
/// and every length that the wire format writes as a compact integer fits
/// in 64 bits.
pub open spec fn wf_txin(i: TxInV) -> bool {
    &&& i.prev.txid.len() == 32
    &&& i.script_sig.len() <= u64::MAX
    &&& i.witness.len() <= u64::MAX
    &&& forall|k: int| 0 <= k < i.witness.len() ==> #[trigger] i.witness[k].len() <= u64::MAX
}

/// A well-formed output: the destination script's length fits in 64 bits.
pub open spec fn wf_txout(o: TxOutV) -> bool {
    o.script_pubkey.len() <= u64::MAX
}

/// A transaction the codec can encode and recover: at least one input (so the
/// encoding never starts with a zero input count, which the wire format
/// reserves for the witness marker), well-formed inputs and outputs, and
/// counts that fit in 64 bits.
pub open spec fn wf_tx(t: TransactionV) -> bool {
    &&& 1 <= t.inputs.len() <= u64::MAX
    &&& t.outputs.len() <= u64::MAX
    &&& forall|k: int| 0 <= k < t.inputs.len() ==> wf_txin(#[trigger] t.inputs[k])
    &&& forall|k: int| 0 <= k < t.outputs.len() ==> wf_txout(#[trigger] t.outputs[k])
}

} // verus!
