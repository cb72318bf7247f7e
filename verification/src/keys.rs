use vstd::prelude::*;
use crate::Error;
use bitcoincore_rpc::bitcoin::hashes::Hash as _;

verus! {

/// The network an address is bound to.
#[derive(Clone, Copy, PartialEq, Eq, Structural, Debug)]
pub enum Network {
    Mainnet,
    Testnet,
    Regtest,
}

/// A small integer tag for each network, so that named results of outside
/// calls can speak of the network as a plain value.
pub open spec fn network_tag(n: Network) -> int {
    match n {
        Network::Mainnet => 0,
        Network::Testnet => 1,
        Network::Regtest => 2,
    }
}

/// A key pair: the 32-byte secret scalar and the 33-byte compressed public
/// point derived from it.
pub struct KeyPair {
    pub secret: Vec<u8>,
    pub public: Vec<u8>,
}

/// Mathematical model of a key pair.
#[verifier::ext_equal]
pub struct KeyPairV {
    pub secret: Seq<u8>,
    pub public: Seq<u8>,
}

impl View for KeyPair {
    type V = KeyPairV;

    open spec fn view(&self) -> KeyPairV {
        KeyPairV { secret: self.secret@, public: self.public@ }
    }
}

/// A single-address identity: the 20-byte hash of the compressed public key
/// (the witness program) and the network it is bound to.
pub struct Address {
    pub network: Network,
    pub program: Vec<u8>,
}

/// Mathematical model of an address.
#[verifier::ext_equal]
pub struct AddressV {
    pub network: Network,
    pub program: Seq<u8>,
}

impl View for Address {
    type V = AddressV;

    open spec fn view(&self) -> AddressV {
        AddressV { network: self.network, program: self.program@ }
    }
}

/// Whether 32 bytes are a scalar the curve accepts (nonzero and below the
/// group order); what `SecretKey::from_slice` accepts.
pub uninterp spec fn scalar_valid(sk: Seq<u8>) -> bool;

/// The 33-byte compressed public point derived from a secret scalar.
pub uninterp spec fn pubkey_of(sk: Seq<u8>) -> Seq<u8>;

/// RIPEMD-160 of SHA-256 of the bytes: the 20-byte key hash.
pub uninterp spec fn hash160_of(b: Seq<u8>) -> Seq<u8>;

/// The bech32 string of a version-0 witness program on a network.
pub uninterp spec fn bech32_addr_of(net: int, program: Seq<u8>) -> Seq<char>;

/// A well-formed key pair: a valid 32-byte scalar whose public field is the
/// derived compressed point.
pub open spec fn wf_keypair(k: KeyPairV) -> bool {
    &&& k.secret.len() == 32
    &&& scalar_valid(k.secret)
    &&& k.public == pubkey_of(k.secret)
    &&& k.public.len() == 33
}

/// Relies on rand::fill over the thread's generator: 32 bytes, nothing
/// assumed about their values.
#[verifier::external_body]
fn random_bytes32() -> (r: Vec<u8>)
    ensures
        r@.len() == 32,
{
    let mut b = [0u8; 32];
    rand::fill(&mut b[..]);
    b.to_vec()
}

/// Relies on secp256k1::SecretKey::from_slice: accepts a 32-byte string
/// exactly when it is a valid scalar.
#[verifier::external_body]
fn scalar_check(sk: &Vec<u8>) -> (r: bool)
    requires
        sk@.len() == 32,
    ensures
        r == scalar_valid(sk@),
{
    bitcoincore_rpc::bitcoin::secp256k1::SecretKey::from_slice(sk.as_slice()).is_ok()
}

/// Relies on secp256k1::PublicKey::from_secret_key and serialize: the
/// 33-byte compressed point, a function of the scalar alone.
#[verifier::external_body]
fn derive_public(sk: &Vec<u8>) -> (r: Vec<u8>)
    requires
        sk@.len() == 32,
        scalar_valid(sk@),
    ensures
        r@ == pubkey_of(sk@),
        r@.len() == 33,
{
    let secp = bitcoincore_rpc::bitcoin::secp256k1::Secp256k1::new();
    let key = bitcoincore_rpc::bitcoin::secp256k1::SecretKey::from_slice(sk.as_slice()).unwrap();
    let pk = bitcoincore_rpc::bitcoin::secp256k1::PublicKey::from_secret_key(&secp, &key);
    pk.serialize().to_vec()
}

/// Relies on bitcoin_hashes hash160: the 20-byte RIPEMD-160-of-SHA-256
/// digest, a function of the bytes alone.
#[verifier::external_body]
pub fn hash160(b: &Vec<u8>) -> (r: Vec<u8>)
    ensures
        r@ == hash160_of(b@),
        r@.len() == 20,
{
    let h = bitcoincore_rpc::bitcoin::hashes::hash160::Hash::hash(b.as_slice());
    h.to_byte_array().to_vec()
}

/// Relies on bitcoin::Address::from_witness_program and its display form:
/// the bech32 address string, a function of network and program alone.
#[verifier::external_body]
fn encode_address(network: Network, program: &Vec<u8>) -> (r: String)
    requires
        program@.len() == 20,
    ensures
        r@ == bech32_addr_of(network_tag(network), program@),
{
    let net = match network {
        Network::Mainnet => bitcoincore_rpc::bitcoin::Network::Bitcoin,
        Network::Testnet => bitcoincore_rpc::bitcoin::Network::Testnet,
        Network::Regtest => bitcoincore_rpc::bitcoin::Network::Regtest,
    };
    let wp = bitcoincore_rpc::bitcoin::WitnessProgram::new(
        bitcoincore_rpc::bitcoin::WitnessVersion::V0,
        program.as_slice(),
    ).unwrap();
    bitcoincore_rpc::bitcoin::Address::from_witness_program(wp, net).to_string()
}

/// The bech32 string of an address, for display and for the scan
/// descriptor.
pub fn address_string(a: &Address) -> (r: String)
    requires
        a@.program.len() == 20,
    ensures
        r@ == bech32_addr_of(network_tag(a@.network), a@.program),
{
    encode_address(a.network, &a.program)
}

/// How many draws from the random source are made before giving up.
pub const MAX_KEY_DRAWS: usize = 256;

/// Draws a uniformly random scalar, rejection-sampled to the curve order,
/// and derives the compressed public key and the witness-program address
/// bound to `network`. Fails only if the random source never yields a valid
/// scalar (treated as exhausted, a fatal error).
pub fn generate_identity(network: Network) -> (r: Result<(KeyPair, Address), Error>)
    ensures
        r matches Ok((kp, addr)) ==> {
            &&& wf_keypair(kp@)
            &&& addr@.network == network
            &&& addr@.program == hash160_of(kp@.public)
            &&& addr@.program.len() == 20
        },
        r is Err ==> r == Err::<(KeyPair, Address), Error>(Error::RandomnessExhausted),
{
    let mut attempts: usize = 0;
    while attempts < MAX_KEY_DRAWS
        invariant
            attempts <= MAX_KEY_DRAWS,
        decreases MAX_KEY_DRAWS - attempts,
    {
        let secret = random_bytes32();
        if scalar_check(&secret) {
            let public = derive_public(&secret);
            let program = hash160(&public);
            let pair = KeyPair { secret, public };
            let addr = Address { network, program };
            return Ok((pair, addr));
        }
        attempts = attempts + 1;
    }
    Err(Error::RandomnessExhausted)
}

/// The script-pubkey template an address decodes to: the version-0 witness
/// program, `OP_0` then the 20-byte push.
pub open spec fn p2wpkh_script(program: Seq<u8>) -> Seq<u8> {
    seq![0x00u8, 0x14u8] + program
}

/// Builds the spending script for a P2WPKH address.
pub fn script_pubkey(a: &Address) -> (r: Vec<u8>)
    ensures
        r@ == p2wpkh_script(a@.program),
{
    let mut r: Vec<u8> = Vec::new();
    r.push(0x00);
    r.push(0x14);
    let mut i: usize = 0;
    while i < a.program.len()
        invariant
            i <= a.program.len(),
            r@ == seq![0x00u8, 0x14u8] + a.program@.take(i as int),
        decreases a.program.len() - i,
    {
        r.push(a.program[i]);
        proof {
            assert(r@ =~= seq![0x00u8, 0x14u8] + a.program@.take(i as int + 1));
        }
        i = i + 1;
    }
    proof {
        assert(r@ =~= p2wpkh_script(a@.program));
    }
    r
}

} // verus!
