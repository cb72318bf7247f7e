use p2wpkh_core::assembler::build;
use p2wpkh_core::codec::{serialize, serialize_hex, to_hex};
use p2wpkh_core::decode::deserialize;
use p2wpkh_core::keys::{generate_identity, hash160, script_pubkey, Network};
use p2wpkh_core::locator::{parse_txid, select_utxo, Utxo};
use p2wpkh_core::sighash::{compute_p2wpkh_sighash, sha256d, SIGHASH_ALL};
use p2wpkh_core::signer::{apply_witness, sign, verify_der};
use p2wpkh_core::tx::{OutPoint, Transaction, TxIn, TxOut};
use p2wpkh_core::{fee_or_default, Error, DEFAULT_FEE_SATS};
use bitcoincore_rpc::bitcoin;

fn sample_tx(witness: Vec<Vec<u8>>) -> Transaction {
    Transaction {
        version: 2,
        lock_time: 0,
        inputs: vec![TxIn {
            prev: OutPoint { txid: vec![0xabu8; 32], vout: 1 },
            script_sig: vec![],
            sequence: 0xffff_ffff,
            witness,
        }],
        outputs: vec![TxOut { value: 4_999_999_000, script_pubkey: vec![0x00, 0x14, 7, 7, 7, 7, 7, 7, 7, 7, 7, 7, 7, 7, 7, 7, 7, 7, 7, 7, 7, 7] }],
    }
}

#[test]
fn build_subtracts_flat_fee_exactly() {
    let utxo = Utxo { outpoint: OutPoint { txid: vec![1u8; 32], vout: 0 }, value: 5_000_000_000 };
    let t = build(&utxo, vec![0x51], 1_000).unwrap();
    assert_eq!(t.outputs.len(), 1);
    assert_eq!(t.outputs[0].value, 4_999_999_000);
    assert_eq!(t.inputs.len(), 1);
    assert_eq!(t.inputs[0].prev.vout, 0);
    assert_eq!(t.inputs[0].sequence, 0xffff_ffff);
    assert!(t.inputs[0].script_sig.is_empty());
    assert!(t.inputs[0].witness.is_empty());
    assert_eq!(t.version, 2);
    assert_eq!(t.lock_time, 0);
}

#[test]
fn build_rejects_fee_at_or_above_value() {
    let utxo = Utxo { outpoint: OutPoint { txid: vec![1u8; 32], vout: 0 }, value: 1_000 };
    assert_eq!(build(&utxo, vec![0x51], 1_000), Err(Error::InsufficientFunds));
    assert_eq!(build(&utxo, vec![0x51], 5_000), Err(Error::InsufficientFunds));
    let ok = build(&utxo, vec![0x51], 999).unwrap();
    assert_eq!(ok.outputs[0].value, 1);
}

#[test]
fn round_trip_without_witness() {
    let t = sample_tx(vec![]);
    let bytes = serialize(&t);
    let back = deserialize(&bytes).unwrap();
    assert_eq!(back.version, t.version);
    assert_eq!(back.lock_time, t.lock_time);
    assert_eq!(back.inputs[0].prev.txid, t.inputs[0].prev.txid);
    assert_eq!(back.inputs[0].prev.vout, t.inputs[0].prev.vout);
    assert_eq!(back.inputs[0].script_sig, t.inputs[0].script_sig);
    assert_eq!(back.inputs[0].sequence, t.inputs[0].sequence);
    assert_eq!(back.inputs[0].witness, t.inputs[0].witness);
    assert_eq!(back.outputs[0].value, t.outputs[0].value);
    assert_eq!(back.outputs[0].script_pubkey, t.outputs[0].script_pubkey);
}

#[test]
fn round_trip_with_witness() {
    let t = sample_tx(vec![vec![1, 2, 3], vec![9u8; 33]]);
    let bytes = serialize(&t);
    let back = deserialize(&bytes).unwrap();
    assert_eq!(back.inputs[0].witness, t.inputs[0].witness);
    assert_eq!(back.outputs[0].value, t.outputs[0].value);
}

#[test]
fn deserialize_rejects_trailing_and_truncated_bytes() {
    let t = sample_tx(vec![vec![1, 2, 3]]);
    let mut bytes = serialize(&t);
    bytes.push(0);
    assert!(deserialize(&bytes).is_none());
    bytes.pop();
    bytes.pop();
    assert!(deserialize(&bytes).is_none());
    assert!(deserialize(&vec![]).is_none());
}

#[test]
fn wire_encoding_matches_reference_node_library() {
    let t = sample_tx(vec![vec![1, 2, 3], vec![9u8; 33]]);
    let bytes = serialize(&t);

    let mut txid_be = t.inputs[0].prev.txid.clone();
    txid_be.reverse();
    let reference = bitcoin::Transaction {
        version: bitcoin::transaction::Version::TWO,
        lock_time: bitcoin::absolute::LockTime::ZERO,
        input: vec![bitcoin::TxIn {
            previous_output: bitcoin::OutPoint {
                txid: hex::encode(&txid_be).parse().unwrap(),
                vout: 1,
            },
            script_sig: bitcoin::ScriptBuf::new(),
            sequence: bitcoin::Sequence::MAX,
            witness: bitcoin::Witness::from_slice(&[vec![1u8, 2, 3], vec![9u8; 33]]),
        }],
        output: vec![bitcoin::TxOut {
            value: bitcoin::Amount::from_sat(4_999_999_000),
            script_pubkey: bitcoin::ScriptBuf::from_bytes(t.outputs[0].script_pubkey.clone()),
        }],
    };
    let want = bitcoin::consensus::encode::serialize(&reference);
    assert_eq!(bytes, want);
    assert_eq!(serialize_hex(&t), bitcoin::consensus::encode::serialize_hex(&reference));
}

#[test]
fn sighash_matches_reference_node_library() {
    let t = sample_tx(vec![]);
    let program: Vec<u8> = (1u8..=20).collect();
    let mut spent_script = vec![0x00, 0x14];
    spent_script.extend_from_slice(&program);
    let digest = compute_p2wpkh_sighash(&t, 0, &spent_script, 5_000_000_000, SIGHASH_ALL).unwrap();

    let mut txid_be = t.inputs[0].prev.txid.clone();
    txid_be.reverse();
    let reference = bitcoin::Transaction {
        version: bitcoin::transaction::Version::TWO,
        lock_time: bitcoin::absolute::LockTime::ZERO,
        input: vec![bitcoin::TxIn {
            previous_output: bitcoin::OutPoint {
                txid: hex::encode(&txid_be).parse().unwrap(),
                vout: 1,
            },
            script_sig: bitcoin::ScriptBuf::new(),
            sequence: bitcoin::Sequence::MAX,
            witness: bitcoin::Witness::default(),
        }],
        output: vec![bitcoin::TxOut {
            value: bitcoin::Amount::from_sat(4_999_999_000),
            script_pubkey: bitcoin::ScriptBuf::from_bytes(t.outputs[0].script_pubkey.clone()),
        }],
    };
    let mut cache = bitcoin::sighash::SighashCache::new(&reference);
    let script = bitcoin::ScriptBuf::from_bytes(spent_script.clone());
    let want = cache
        .p2wpkh_signature_hash(
            0,
            &script,
            bitcoin::Amount::from_sat(5_000_000_000),
            bitcoin::EcdsaSighashType::All,
        )
        .unwrap();
    let want_bytes: &[u8] = want.as_ref();
    assert_eq!(digest, want_bytes.to_vec());
}

#[test]
fn sighash_is_deterministic() {
    let t = sample_tx(vec![]);
    let program: Vec<u8> = (1u8..=20).collect();
    let mut spent_script = vec![0x00, 0x14];
    spent_script.extend_from_slice(&program);
    let d1 = compute_p2wpkh_sighash(&t, 0, &spent_script, 42, SIGHASH_ALL).unwrap();
    let d2 = compute_p2wpkh_sighash(&t, 0, &spent_script, 42, SIGHASH_ALL).unwrap();
    assert_eq!(d1, d2);
    assert_eq!(d1.len(), 32);
}

#[test]
fn sighash_rejects_bad_script_and_index() {
    let t = sample_tx(vec![]);
    assert_eq!(
        compute_p2wpkh_sighash(&t, 1, &vec![0x00, 0x14], 42, SIGHASH_ALL),
        Err(Error::SighashComputationFailure)
    );
    assert_eq!(
        compute_p2wpkh_sighash(&t, 0, &vec![0x51], 42, SIGHASH_ALL),
        Err(Error::SighashComputationFailure)
    );
}

#[test]
fn signing_verifies_and_is_deterministic() {
    let (pair, _) = generate_identity(Network::Regtest).unwrap();
    let digest = vec![7u8; 32];
    let w1 = sign(&digest, &pair).unwrap();
    let w2 = sign(&digest, &pair).unwrap();
    assert_eq!(w1, w2);
    assert_eq!(w1.len(), 2);
    assert_eq!(w1[1], pair.public);
    assert_eq!(*w1[0].last().unwrap(), 1u8);
    let der = &w1[0][..w1[0].len() - 1].to_vec();
    assert!(verify_der(der, &digest, &pair.public));
}

#[test]
fn witness_for_wrong_key_fails_verification() {
    let (pair_a, _) = generate_identity(Network::Regtest).unwrap();
    let (pair_b, _) = generate_identity(Network::Regtest).unwrap();
    assert_ne!(pair_a.public, pair_b.public);
    let digest = vec![7u8; 32];
    let w = sign(&digest, &pair_a).unwrap();
    let der = w[0][..w[0].len() - 1].to_vec();
    assert!(!verify_der(&der, &digest, &pair_b.public));
    let other_digest = vec![8u8; 32];
    assert!(!verify_der(&der, &other_digest, &pair_a.public));
}

#[test]
fn apply_witness_fills_the_input() {
    let mut t = sample_tx(vec![]);
    apply_witness(&mut t, 0, vec![vec![5, 6], vec![7]]);
    assert_eq!(t.inputs[0].witness, vec![vec![5u8, 6], vec![7]]);
    assert_eq!(t.outputs[0].value, 4_999_999_000);
}

#[test]
fn identity_address_is_key_hash() {
    let (pair, addr) = generate_identity(Network::Regtest).unwrap();
    assert_eq!(pair.secret.len(), 32);
    assert_eq!(pair.public.len(), 33);
    assert_eq!(addr.program, hash160(&pair.public));
    let script = script_pubkey(&addr);
    assert_eq!(script.len(), 22);
    assert_eq!(&script[..2], &[0x00, 0x14]);
    assert_eq!(&script[2..], &addr.program[..]);
    let shown = p2wpkh_core::keys::address_string(&addr);
    assert!(shown.starts_with("bcrt1"));
}

#[test]
fn empty_scan_selects_nothing() {
    let none: Vec<Utxo> = vec![];
    assert!(select_utxo(&none).is_none());
    let some = vec![
        Utxo { outpoint: OutPoint { txid: vec![3u8; 32], vout: 5 }, value: 10 },
        Utxo { outpoint: OutPoint { txid: vec![4u8; 32], vout: 6 }, value: 20 },
    ];
    let picked = select_utxo(&some).unwrap();
    assert_eq!(picked.value, 10);
    assert_eq!(picked.outpoint.vout, 5);
}

#[test]
fn fee_falls_back_without_data() {
    assert_eq!(fee_or_default(None), DEFAULT_FEE_SATS);
    assert_eq!(fee_or_default(None), 1_000);
    assert_eq!(fee_or_default(Some(21)), 21);
}

#[test]
fn txid_strings_reverse_into_wire_order() {
    let display = "00000000000000000000000000000000000000000000000000000000000000ff";
    let wire = parse_txid(display).unwrap();
    assert_eq!(wire.len(), 32);
    assert_eq!(wire[0], 0xff);
    assert_eq!(wire[31], 0x00);
    assert!(parse_txid("zz").is_none());
    assert!(parse_txid("abcd").is_none());
}

#[test]
fn hex_and_hash_wrappers_do_real_work() {
    let bytes = vec![0xde, 0xad, 0xbe, 0xef];
    assert_eq!(to_hex(&bytes), "deadbeef");
    let d = sha256d(&bytes);
    let want = <bitcoin::hashes::sha256d::Hash as bitcoin::hashes::Hash>::hash(&bytes);
    let want_bytes: &[u8] = want.as_ref();
    assert_eq!(d, want_bytes.to_vec());
    let h = hash160(&bytes);
    let want160 = <bitcoin::hashes::hash160::Hash as bitcoin::hashes::Hash>::hash(&bytes);
    let want160_bytes: &[u8] = want160.as_ref();
    assert_eq!(h, want160_bytes.to_vec());
}

#[test]
fn signed_spend_serializes_to_node_accepted_form() {
    // The full core path: identity, skeleton, sighash, witness, wire bytes.
    let (pair, addr) = generate_identity(Network::Regtest).unwrap();
    let utxo = Utxo { outpoint: OutPoint { txid: vec![2u8; 32], vout: 0 }, value: 5_000_000_000 };
    let (dest_pair, dest_addr) = generate_identity(Network::Regtest).unwrap();
    assert_ne!(dest_pair.public, pair.public);
    let fee = fee_or_default(None);
    let mut t = build(&utxo, script_pubkey(&dest_addr), fee).unwrap();
    let spent_script = script_pubkey(&addr);
    let digest = compute_p2wpkh_sighash(&t, 0, &spent_script, utxo.value, SIGHASH_ALL).unwrap();
    let witness = sign(&digest, &pair).unwrap();
    apply_witness(&mut t, 0, witness);
    let bytes = serialize(&t);
    let back = deserialize(&bytes).unwrap();
    assert_eq!(back.inputs[0].witness, t.inputs[0].witness);
    // The marker and flag of the extended encoding stand after the version.
    assert_eq!(&bytes[4..6], &[0x00, 0x01]);
}
