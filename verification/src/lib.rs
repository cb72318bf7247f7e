use vstd::prelude::*;

pub mod assembler;
pub mod codec;
pub mod codec_laws;
pub mod keys;
pub mod sighash;
pub mod signer;
pub mod decode;
pub mod locator;
pub mod tx;

verus! {

/// The ways the pipeline can fail, from key generation through broadcast.
#[derive(Debug, PartialEq, Eq)]
pub enum Error {
    /// The random source never produced a scalar on the curve (fatal).
    RandomnessExhausted,
    /// The external chain scan failed; carries the service's reason.
    AddressScanFailure(String),
    /// The selected coin does not cover the fee.
    InsufficientFunds,
    /// The spent script or value was malformed for the sighash algorithm.
    SighashComputationFailure,
    /// The freshly made signature failed self-verification.
    SignatureInvalid,
    /// The node rejected the broadcast; carries the node's reason verbatim.
    BroadcastRejected(String),
}

/// Fallback fee in satoshis, used when the external estimator has no
/// sampled blocks and so reports no data.
pub const DEFAULT_FEE_SATS: u64 = 1000;

/// Picks the sampled fee when the estimator produced one, and the fixed
/// fallback when it had no data to sample.
pub fn fee_or_default(estimate: Option<u64>) -> (r: u64)
    ensures
        r == match estimate {
            Some(f) => f,
            None => DEFAULT_FEE_SATS,
        },
{
    match estimate {
        Some(f) => f,
        None => DEFAULT_FEE_SATS,
    }
}

} // verus!
