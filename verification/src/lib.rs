//! Protection of a native program: it is encrypted under a key that is bound
//! to a device or shipped with it, embedded in a carrier program, and
//! recovered from the carrier when that runs.

pub mod builder;
pub mod crypto;
pub mod embed;
pub mod fingerprint;
pub mod launcher;
pub mod recovery;
pub mod roundtrip;
pub mod stages;
mod text;
