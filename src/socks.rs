//! SOCKS4 and SOCKS4a CONNECT requests: which bytes go to the proxy, and
//! whether its reply grants the connection.

use vstd::prelude::*;
use vstd::string::*;
use vstd::utf8::encode_utf8;
use crate::address::{domain_address, ipv4_address, parse_as_domain_address, parse_as_ipv4_address};
use crate::unsigned::{le_bytes, to_be_bytes};

verus! {

/// The SOCKS version byte.
pub const VERSION: u8 = 4;
/// The CONNECT command.
pub const CONNECT: u8 = 1;
/// The status byte of a granted request.
pub const GRANTED: u8 = 90;

/// Why a SOCKS request could not be made or was refused.
#[derive(Clone, Copy, Debug, PartialEq, Eq, Structural)]
pub enum SocksError {
    /// A host name without a port.
    NoPort,
    /// Neither an IPv4 address nor a host name with a port.
    InvalidAddress,
    /// The reply was not eight bytes long.
    PartialReply,
    /// The proxy answered with this status instead of granting.
    Rejected(u8),
}

/// The port in network byte order.
pub open spec fn port_bytes(port: u16) -> Seq<u8> {
    le_bytes(port as nat, 2).reverse()
}

/// The CONNECT request for `address`: to an IPv4 address directly, or, for a
/// host name, to `0.0.0.1` with the name appended for the proxy to resolve.
pub open spec fn connect_request(address: Seq<char>) -> Result<Seq<u8>, SocksError> {
    match ipv4_address(address) {
        Some((octets, port)) => Ok(seq![VERSION, CONNECT] + port_bytes(port) + octets + seq![0u8]),
        None => match domain_address(address) {
            Some((name, Some(port))) => Ok(
                seq![VERSION, CONNECT] + port_bytes(port) + seq![0u8, 0u8, 0u8, 1u8, 0u8]
                    + encode_utf8(name) + seq![0u8],
            ),
            Some((_, None)) => Err(SocksError::NoPort),
            None => Err(SocksError::InvalidAddress),
        },
    }
}

/// A SOCKS4 proxy, by its `host:port` address.
#[derive(Debug)]
pub struct Socks4 {
    address: String,
}

impl Socks4 {
    pub closed spec fn proxy(&self) -> Seq<char> {
        self.address@
    }

    /// The proxy at `address`; nothing is contacted yet.
    pub fn new(address: &str) -> (r: Result<Socks4, SocksError>)
        ensures
            r matches Ok(s) && s.proxy() == address@,
    {
        Ok(Socks4 { address: String::from_str(address) })
    }

    pub fn proxy_address(&self) -> (r: &str)
        ensures
            r@ == self.proxy(),
    {
        self.address.as_str()
    }

    /// The bytes of the CONNECT request for `address`.
    pub fn request(&self, address: &str) -> (r: Result<Vec<u8>, SocksError>)
        ensures
            match r {
                Ok(v) => connect_request(address@) == Ok::<Seq<u8>, SocksError>(v@),
                Err(e) => connect_request(address@) == Err::<Seq<u8>, SocksError>(e),
            },
    {
        let mut request: Vec<u8> = Vec::new();
        request.push(VERSION);
        request.push(CONNECT);
        match parse_as_ipv4_address(address) {
            Some(a) => {
                let mut port = to_be_bytes(a.port);
                request.append(&mut port);
                request.push(a.octets[0]);
                request.push(a.octets[1]);
                request.push(a.octets[2]);
                request.push(a.octets[3]);
                request.push(0);
                proof {
                    assert(request@ =~= seq![VERSION, CONNECT] + port_bytes(a.port) + a.octets@ + seq![0u8]);
                }
                Ok(request)
            },
            None => match parse_as_domain_address(address) {
                Some((name, Some(p))) => {
                    let mut port = to_be_bytes(p);
                    request.append(&mut port);
                    request.push(0);
                    request.push(0);
                    request.push(0);
                    request.push(1);
                    request.push(0);
                    let mut bytes = name.as_bytes_vec();
                    request.append(&mut bytes);
                    request.push(0);
                    proof {
                        assert(request@ =~= seq![VERSION, CONNECT] + port_bytes(p) + seq![0u8, 0u8, 0u8, 1u8, 0u8]
                            + encode_utf8(name@) + seq![0u8]);
                    }
                    Ok(request)
                },
                Some((_, None)) => Err(SocksError::NoPort),
                None => Err(SocksError::InvalidAddress),
            },
        }
    }
}

/// Whether the proxy's reply grants the connection: eight bytes, with the
/// granted status in the second.
pub fn check_reply(reply: &[u8]) -> (r: Result<(), SocksError>)
    ensures
        r == if reply@.len() != 8 {
            Err::<(), SocksError>(SocksError::PartialReply)
        } else if reply@[1] != GRANTED {
            Err(SocksError::Rejected(reply@[1]))
        } else {
            Ok(())
        },
{
    if reply.len() != 8 {
        Err(SocksError::PartialReply)
    } else if reply[1] != GRANTED {
        Err(SocksError::Rejected(reply[1]))
    } else {
        Ok(())
    }
}

} // verus!
