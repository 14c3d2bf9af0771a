//! The server's configuration values.

use vstd::prelude::*;

verus! {

/// The server's configuration as read from its configuration file.
pub struct Config {
    /// The network endpoint to serve on.
    pub net: Net,
}

/// A network endpoint: an address and a port.
pub struct Net {
    ip: String,
    port: u16,
}

impl Net {
    /// The address.
    pub closed spec fn spec_ip(self) -> Seq<char> {
        self.ip@
    }

    /// The port.
    pub closed spec fn spec_port(self) -> u16 {
        self.port
    }

    /// Builds an endpoint of an address and a port.
    pub fn new(ip: String, port: u16) -> (r: Net)
        ensures
            r.spec_ip() == ip@,
            r.spec_port() == port,
    {
        Net { ip, port }
    }

    /// The address and port to bind.
    pub fn addr(&self) -> (r: (&str, u16))
        ensures
            r.0@ == self.spec_ip(),
            r.1 == self.spec_port(),
    {
        (self.ip.as_str(), self.port)
    }
}

} // verus!
