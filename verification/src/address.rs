//! IPv4 socket addresses.

use vstd::prelude::*;
use vstd::std_specs::cmp::PartialEqSpec;

use crate::id::bytes_eq;

verus! {

/// An IPv4 address with a port.
#[derive(Clone, Copy, Debug)]
pub struct SocketAddrV4 {
    pub ip: [u8; 4],
    pub port: u16,
}

impl PartialEq for SocketAddrV4 {
    fn eq(&self, other: &SocketAddrV4) -> (same: bool) {
        self.port == other.port && bytes_eq(&self.ip, &other.ip)
    }
}

impl Eq for SocketAddrV4 {

}

impl vstd::std_specs::cmp::PartialEqSpecImpl for SocketAddrV4 {
    open spec fn obeys_eq_spec() -> bool {
        true
    }

    open spec fn eq_spec(&self, other: &SocketAddrV4) -> bool {
        *self == *other
    }
}

impl SocketAddrV4 {
    /// The address with the given octets and port.
    pub fn new(ip: [u8; 4], port: u16) -> (address: Self)
        ensures
            address.ip == ip,
            address.port == port,
    {
        SocketAddrV4 { ip, port }
    }

    /// The ip is `0.0.0.0`.
    pub open spec fn unspecified_ip(self) -> bool {
        forall|i: int| 0 <= i < 4 ==> self.ip[i] == 0
    }

    /// Whether the ip is `0.0.0.0`.
    pub fn is_unspecified(&self) -> (unspecified: bool)
        ensures
            unspecified == self.unspecified_ip(),
            unspecified == (self.ip[0] == 0 && self.ip[1] == 0 && self.ip[2] == 0 && self.ip[3]
                == 0),
    {
        self.ip[0] == 0 && self.ip[1] == 0 && self.ip[2] == 0 && self.ip[3] == 0
    }
}

/// A datagram from `from` counts as coming from the peer that `expected` names: the ports agree,
/// and so do the ips unless the expected one is unspecified.
pub open spec fn address_expected(expected: SocketAddrV4, from: SocketAddrV4) -> bool {
    expected.port == from.port && (expected.unspecified_ip() || expected.ip == from.ip)
}

/// Compares two addresses, ignoring the ip where that of `a` is unspecified.
pub fn compare_socket_addr(a: &SocketAddrV4, b: &SocketAddrV4) -> (same: bool)
    ensures
        same == address_expected(*a, *b),
        same == (a.port == b.port && (a.ip == b.ip || (a.ip[0] == 0 && a.ip[1] == 0 && a.ip[2] == 0
            && a.ip[3] == 0))),
{
    if a.port != b.port {
        return false;
    }
    if a.is_unspecified() {
        return true;
    }
    bytes_eq(&a.ip, &b.ip)
}

/// Addresses are equal exactly if all four octets and the ports are.
pub proof fn law_addresses_are_equal_by_octets_and_port(a: SocketAddrV4, b: SocketAddrV4)
    ensures
        a.eq_spec(&b) <==> a.port == b.port && (forall|i: int| 0 <= i < 4 ==> a.ip[i] == b.ip[i]),
{
    if forall|i: int| 0 <= i < 4 ==> a.ip[i] == b.ip[i] {
        assert(a.ip =~= b.ip);
    }
}

/// What comes from another port than the expected one is never expected, whatever the ips are; what
/// comes from another ip is expected only where no ip was named; what comes from the expected
/// address itself always is.
pub proof fn law_only_the_expected_address_is_expected(expected: SocketAddrV4, from: SocketAddrV4)
    ensures
        expected.port != from.port ==> !address_expected(expected, from),
        expected.ip != from.ip && (expected.ip[0] != 0 || expected.ip[1] != 0 || expected.ip[2] != 0
            || expected.ip[3] != 0) ==> !address_expected(expected, from),
        expected.port == from.port && expected.ip[0] == 0 && expected.ip[1] == 0 && expected.ip[2]
            == 0 && expected.ip[3] == 0 ==> address_expected(expected, from),
        address_expected(expected, expected),
{
}

} // verus!
