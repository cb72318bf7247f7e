use vstd::prelude::*;
use vstd::string::StringExecFns;
use crate::codec::{from_hex, hex_decode_spec, is_hex_str};
use crate::tx::{OutPoint, OutPointV};

verus! {

/// An unspent output as the chain scan reports it: the outpoint that holds
/// it and its value in satoshis.
pub struct Utxo {
    pub outpoint: OutPoint,
    pub value: u64,
}

/// Mathematical model of an unspent output.
#[verifier::ext_equal]
pub struct UtxoV {
    pub outpoint: OutPointV,
    pub value: u64,
}

impl View for Utxo {
    type V = UtxoV;

    open spec fn view(&self) -> UtxoV {
        UtxoV { outpoint: self.outpoint@, value: self.value }
    }
}

impl DeepView for Utxo {
    type V = UtxoV;

    open spec fn deep_view(&self) -> UtxoV {
        self@
    }
}

/// First-match coin selection over a scan snapshot: the core issues
/// single-coin spends, so it takes the first reported output as it stands
/// in list order. An empty snapshot (an address that never received funds)
/// selects nothing; it is not an error.
pub fn select_utxo(utxos: &Vec<Utxo>) -> (r: Option<&Utxo>)
    ensures
        utxos@.len() == 0 ==> r is None,
        utxos@.len() > 0 ==> (r matches Some(u) && u@ == utxos.deep_view()[0]),
{
    if utxos.len() == 0 {
        None
    } else {
        Some(&utxos[0])
    }
}

/// Copies a byte vector in reverse order.
fn reverse_bytes(b: &Vec<u8>) -> (r: Vec<u8>)
    ensures
        r@ == b@.reverse(),
{
    let mut r: Vec<u8> = Vec::new();
    let mut i: usize = b.len();
    while i > 0
        invariant
            i <= b.len(),
            r@.len() == b@.len() - i,
            forall|j: int| 0 <= j < r@.len() ==> #[trigger] r@[j] == b@[b@.len() - 1 - j],
        decreases i,
    {
        i = i - 1;
        r.push(b[i]);
    }
    proof {
        assert(r@ =~= b@.reverse());
    }
    r
}

/// Reads a transaction id as the scan reports it: 64 hex digits in display
/// order, which is the reverse of the wire byte order. Yields the 32 wire
/// bytes, or nothing when the string is not a 64-digit hex string.
pub fn parse_txid(s: &str) -> (r: Option<Vec<u8>>)
    ensures
        r matches Some(b) ==> (is_hex_str(s@) && b@ == hex_decode_spec(s@).reverse() && b@.len()
            == 32),
        r is None ==> (!is_hex_str(s@) || hex_decode_spec(s@).len() != 32),
{
    match from_hex(s) {
        None => None,
        Some(b) => {
            if b.len() == 32 {
                Some(reverse_bytes(&b))
            } else {
                None
            }
        },
    }
}

/// The scan descriptor that asks the chain service for every output paying
/// the given address.
pub open spec fn descriptor_of(addr: Seq<char>) -> Seq<char> {
    "addr("@ + addr + ")"@
}

/// Builds the scan descriptor for an address string.
pub fn descriptor_for(addr: &String) -> (r: String)
    ensures
        r@ == descriptor_of(addr@),
{
    let mut s = String::from_str("addr(");
    s.append(addr.as_str());
    s.append(")");
    s
}

} // verus!
