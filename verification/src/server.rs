//! The inbound hook server's configuration.  The listener itself is
//! network plumbing and lives outside the library; only what it is
//! configured with is modelled here.

use vstd::prelude::*;

verus! {

/// Configuration of the inbound webhook listener.
pub struct Server {
    port: u16,
}

impl Server {
    /// The port the listener binds.
    pub closed spec fn spec_port(self) -> u16 {
        self.port
    }

    pub fn new(port: u16) -> (s: Server)
        ensures
            s.spec_port() == port,
    {
        Server { port }
    }

    pub fn port(&self) -> (p: u16)
        ensures
            p == self.spec_port(),
    {
        self.port
    }
}

} // verus!
