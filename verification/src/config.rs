//! The bounds that the noise has to meet.

use vstd::prelude::*;

verus! {

/// The bounds that the numeric choice of the parameters has to meet. The
/// propagation of the variances does not depend on them.
#[derive(Clone, Copy, Debug, PartialEq, Eq, Structural)]
pub struct NoiseBoundConfig {
    /// The number of bits of security asked for.
    pub security_level: u64,
    /// The number of bits of the modulus of the ciphertexts.
    pub ciphertext_modulus_log: u32,
}

} // verus!
