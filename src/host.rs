//! What this library takes from the `address` crate: literal IP address parsing, domain name
//! validation, and the host value that a URL hands out.

use address::{Domain, DomainRef, HostRef, IPAddress, IPv4Address, IPv6Address, ParseError};
use vstd::prelude::*;
use vstd::string::StringSliceAdditionalSpecFns;

use crate::bytes::lower_bytes;

verus! {

#[verifier::external_type_specification]
#[verifier::external_body]
pub struct ExIPAddress(IPAddress);

#[verifier::external_type_specification]
#[verifier::external_body]
pub struct ExAddressParseError(ParseError);

#[verifier::external_type_specification]
#[verifier::external_body]
pub struct ExHostRef<'a>(HostRef<'a>);

/// Whether `IPv4Address::parse` accepts the text.
pub uninterp spec fn ipv4_accepts(text: Seq<u8>) -> bool;

/// Whether `IPv6Address::parse` accepts the text.
pub uninterp spec fn ipv6_accepts(text: Seq<u8>) -> bool;

/// Whether `Domain::is_valid_name` accepts the name.
pub uninterp spec fn domain_name_valid(name: Seq<u8>) -> bool;

/// Relies on `IPv4Address::parse`: whether it accepts depends on the text alone, and it rejects
/// any text that is not all ASCII.
#[verifier::external_body]
pub(crate) fn parse_ipv4(text: &[u8]) -> (r: Result<IPAddress, ParseError>)
    ensures
        r is Ok == ipv4_accepts(text@),
        r is Ok ==> forall|i: int| 0 <= i < text@.len() ==> text@[i] < 0x80,
{
    IPv4Address::parse(text).map(IPv4Address::to_ip)
}

/// Relies on `IPv6Address::parse`: whether it accepts depends on the text alone, and it rejects
/// any text that is not all ASCII.
#[verifier::external_body]
pub(crate) fn parse_ipv6(text: &[u8]) -> (r: Result<IPAddress, ParseError>)
    ensures
        r is Ok == ipv6_accepts(text@),
        r is Ok ==> forall|i: int| 0 <= i < text@.len() ==> text@[i] < 0x80,
{
    IPv6Address::parse(text).map(IPv6Address::to_ip)
}

/// Relies on `Domain::is_valid_name_ignore_case`: it accepts a name exactly when
/// `Domain::is_valid_name` accepts its ASCII lowercase form, and every name it accepts is ASCII.
#[verifier::external_body]
pub(crate) fn domain_valid_ignore_case(name: &[u8]) -> (r: bool)
    ensures
        r == domain_name_valid(lower_bytes(name@)),
        r ==> forall|i: int| 0 <= i < name@.len() ==> name@[i] < 0x80,
{
    Domain::is_valid_name_ignore_case(name)
}

/// Relies on `DomainRef::parse`, which accepts exactly the names that `Domain::is_valid_name`
/// accepts.
#[verifier::external_body]
pub(crate) fn domain_host_ref(name: &str) -> HostRef<'_>
    requires
        domain_name_valid(name.spec_bytes()),
{
    HostRef::Domain(DomainRef::parse(name.as_bytes()).unwrap())
}

/// Relies on `IPAddress::to_host_ref`.
#[verifier::external_body]
pub(crate) fn ip_host_ref(ip: IPAddress) -> HostRef<'static> {
    ip.to_host_ref()
}

} // verus!
