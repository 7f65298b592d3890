//! Network addresses as plain values.
use vstd::prelude::*;

verus! {

/// The octets of an IP address.
#[derive(Debug, Clone, Copy, PartialEq, Eq)]
pub enum IpAddr {
    V4([u8; 4]),
    V6([u8; 16]),
}

/// An IP address and a port.
#[derive(Debug, Clone, Copy, PartialEq, Eq)]
pub struct SocketAddr {
    pub ip: IpAddr,
    pub port: u16,
}

impl SocketAddr {
    #[must_use]
    pub fn new(ip: IpAddr, port: u16) -> (addr: Self)
        ensures
            addr == (SocketAddr { ip, port }),
    {
        SocketAddr { ip, port }
    }

    #[must_use]
    pub fn ip(&self) -> (ip: IpAddr)
        ensures
            ip == self.ip,
    {
        self.ip
    }

    #[must_use]
    pub fn port(&self) -> (port: u16)
        ensures
            port == self.port,
    {
        self.port
    }
}

/// An address holds what it was made of.
pub proof fn addresses_hold_their_parts(
    ip: IpAddr,
    port: u16,
    addr: SocketAddr,
    its_ip: IpAddr,
    its_port: u16,
)
    requires
        call_ensures(SocketAddr::new, (ip, port), addr),
        call_ensures(SocketAddr::ip, (&addr,), its_ip),
        call_ensures(SocketAddr::port, (&addr,), its_port),
    ensures
        its_ip == ip,
        its_port == port,
{
}

} // verus!
