//! Process configuration as the verified core sees it: plain values. The
//! host program reads the environment and command line and converts into
//! these types.

use vstd::prelude::*;

verus! {

/// Settings loaded from the process environment. No setting is consumed by
/// the core at present; the type marks the loading step's completion.
pub struct Env {}

/// Certificate material locations: filesystem paths of the DER-encoded TLS
/// certificate and its private key.
pub struct Certs {
    pub cert: String,
    pub key: String,
}

impl Certs {
    /// Pair a certificate path with its key path.
    pub fn new(cert: String, key: String) -> (c: Certs)
        ensures
            c.cert@ == cert@,
            c.key@ == key@,
    {
        Certs { cert, key }
    }
}

} // verus!
