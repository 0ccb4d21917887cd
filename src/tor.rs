//! A local Tor instance: its SOCKS port, for outgoing connections, and its
//! control port.

use vstd::prelude::*;
use vstd::string::*;
use crate::address::{ipv4, Ipv4Address};
use crate::debug::{decimal, push_digits};
use crate::socks::{Socks4, SocksError};

verus! {

/// How to authenticate on the control port.
#[derive(Debug)]
pub enum Auth {
    Cookie(String),
    Password(String),
    /// No authentication.
    NoAuth,
}

/// A hidden service.
#[derive(Debug)]
pub struct Service {
    name: String,
    hostname: String,
    private_key: String,
}

/// A Tor instance on this machine.
#[derive(Debug)]
pub struct Tor {
    socks: Socks4,
    control: Ipv4Address,
    control_auth: Auth,
}

/// `127.0.0.1:<port>`.
pub open spec fn loopback(port: u16) -> Seq<char> {
    seq!['1', '2', '7', '.', '0', '.', '0', '.', '1', ':'] + decimal(port as nat)
}

impl Tor {
    pub closed spec fn socks_proxy(&self) -> Seq<char> {
        self.socks.proxy()
    }

    pub closed spec fn control_address(&self) -> Ipv4Address {
        self.control
    }

    /// The instance whose SOCKS and control ports listen on the loopback
    /// address.
    pub fn new(socks_port: u16, control_port: u16, control_auth: Auth) -> (r: Result<Tor, SocksError>)
        ensures
            r matches Ok(t) && t.socks_proxy() == loopback(socks_port) && t.control_address().octets@
                == seq![127u8, 0u8, 0u8, 1u8] && t.control_address().port == control_port,
    {
        let mut a = String::from_str("127.0.0.1:");
        push_digits(&mut a, socks_port as u64, 10, 1);
        proof {
            reveal_strlit("127.0.0.1:");
            assert(a@ =~= loopback(socks_port));
        }
        let socks = match Socks4::new(a.as_str()) {
            Ok(s) => s,
            Err(e) => return Err(e),
        };
        Ok(Tor { socks, control: ipv4(127, 0, 0, 1, control_port), control_auth })
    }

    /// The SOCKS proxy that outgoing connections go through.
    pub fn socks(&self) -> (r: &Socks4)
        ensures
            r.proxy() == self.socks_proxy(),
    {
        &self.socks
    }
}

} // verus!
