use vstd::prelude::*;
use crate::keys::{pubkey_of, scalar_valid, wf_keypair, KeyPair, KeyPairV};
use crate::tx::{Transaction, TxIn, TxInV};
use crate::Error;

verus! {

/// The DER-encoded ECDSA signature that deterministic (RFC 6979) signing
/// produces for a digest under a scalar: a function of the two alone.
pub uninterp spec fn ecdsa_sig_of(digest: Seq<u8>, sk: Seq<u8>) -> Seq<u8>;

/// Whether a DER signature verifies for a digest under a compressed public
/// key: a function of the three alone.
pub uninterp spec fn ecdsa_verifies(sig: Seq<u8>, digest: Seq<u8>, pk: Seq<u8>) -> bool;

/// Relies on secp256k1 sign_ecdsa (RFC 6979 nonce, so deterministic in
/// digest and key) and Signature::serialize_der. The library documents that
/// signatures it produces are normalized and verify under the public key
/// derived from the signing scalar.
#[verifier::external_body]
fn sign_der(digest: &Vec<u8>, sk: &Vec<u8>) -> (r: Vec<u8>)
    requires
        digest@.len() == 32,
        sk@.len() == 32,
        scalar_valid(sk@),
    ensures
        r@ == ecdsa_sig_of(digest@, sk@),
        ecdsa_verifies(r@, digest@, pubkey_of(sk@)),
{
    let secp = bitcoincore_rpc::bitcoin::secp256k1::Secp256k1::new();
    let key = bitcoincore_rpc::bitcoin::secp256k1::SecretKey::from_slice(sk.as_slice()).unwrap();
    let msg = bitcoincore_rpc::bitcoin::secp256k1::Message::from_digest_slice(
        digest.as_slice(),
    ).unwrap();
    let sig = secp.sign_ecdsa(&msg, &key);
    sig.serialize_der().to_vec()
}

/// Relies on secp256k1 verify_ecdsa, with Signature::from_der and
/// PublicKey::from_slice: whether the DER signature verifies for the digest
/// under the key; a malformed signature or key verifies as false.
#[verifier::external_body]
pub fn verify_der(sig: &Vec<u8>, digest: &Vec<u8>, pk: &Vec<u8>) -> (r: bool)
    requires
        digest@.len() == 32,
    ensures
        r == ecdsa_verifies(sig@, digest@, pk@),
{
    let secp = bitcoincore_rpc::bitcoin::secp256k1::Secp256k1::new();
    let msg = bitcoincore_rpc::bitcoin::secp256k1::Message::from_digest_slice(digest.as_slice());
    let p = bitcoincore_rpc::bitcoin::secp256k1::PublicKey::from_slice(pk.as_slice());
    let s = bitcoincore_rpc::bitcoin::secp256k1::ecdsa::Signature::from_der(sig.as_slice());
    match (msg, p, s) {
        (Ok(m), Ok(p), Ok(s)) => secp.verify_ecdsa(&m, &s, &p).is_ok(),
        _ => false,
    }
}

/// The two-element witness stack for a digest and key pair: the DER
/// signature with the all-commitment hash-type byte appended, then the
/// compressed public key.
pub open spec fn witness_stack_of(digest: Seq<u8>, k: KeyPairV) -> Seq<Seq<u8>> {
    seq![ecdsa_sig_of(digest, k.secret) + seq![1u8], k.public]
}

/// Signs the digest and assembles the witness stack, self-verifying the
/// fresh signature before returning it. The signature scheme is
/// deterministic, so signing the same digest with the same key twice yields
/// the identical witness; and every witness this returns verifies under the
/// pair's public key.
pub fn sign(digest: &Vec<u8>, key: &KeyPair) -> (r: Result<Vec<Vec<u8>>, Error>)
    requires
        digest@.len() == 32,
        wf_keypair(key@),
    ensures
        r matches Ok(w) && w.deep_view() == witness_stack_of(digest@, key@),
        ecdsa_verifies(ecdsa_sig_of(digest@, key@.secret), digest@, key@.public),
{
    let sig = sign_der(digest, &key.secret);
    if !verify_der(&sig, digest, &key.public) {
        return Err(Error::SignatureInvalid);
    }
    let mut first = sig;
    first.push(0x01);
    let mut w: Vec<Vec<u8>> = Vec::new();
    w.push(first);
    w.push(crate::assembler::clone_bytes(&key.public));
    proof {
        assert(w.deep_view() =~~= witness_stack_of(digest@, key@));
    }
    Ok(w)
}

/// Installs a witness stack on the given input, leaving every other part of
/// the transaction as it was.
pub fn apply_witness(t: &mut Transaction, index: usize, w: Vec<Vec<u8>>)
    requires
        index < old(t)@.inputs.len(),
    ensures
        final(t)@.version == old(t)@.version,
        final(t)@.lock_time == old(t)@.lock_time,
        final(t)@.outputs == old(t)@.outputs,
        final(t)@.inputs == old(t)@.inputs.update(
            index as int,
            TxInV {
                prev: old(t)@.inputs[index as int].prev,
                script_sig: old(t)@.inputs[index as int].script_sig,
                sequence: old(t)@.inputs[index as int].sequence,
                witness: w.deep_view(),
            },
        ),
{
    let ghost w0 = w.deep_view();
    let mut ti = t.inputs.remove(index);
    ti.witness = w;
    t.inputs.insert(index, ti);
    proof {
        assert(t@.inputs =~~= old(t)@.inputs.update(
            index as int,
            TxInV {
                prev: old(t)@.inputs[index as int].prev,
                script_sig: old(t)@.inputs[index as int].script_sig,
                sequence: old(t)@.inputs[index as int].sequence,
                witness: w0,
            },
        ));
        assert(t@.outputs =~~= old(t)@.outputs);
    }
}

/// Determinism of the signing scheme: two signatures of the same digest
/// under the same key are identical, because the nonce is derived from the
/// digest and key alone.
pub proof fn lemma_sign_deterministic(s1: Seq<u8>, s2: Seq<u8>, digest: Seq<u8>, sk: Seq<u8>)
    requires
        s1 == ecdsa_sig_of(digest, sk),
        s2 == ecdsa_sig_of(digest, sk),
    ensures
        s1 == s2,
{
}

} // verus!
