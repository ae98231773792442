//! The platform boundary: one blocking query of the host's interface list
//! through the `nix` crate, and the conversion of each returned entry into
//! the library's plain record form. Everything the platform reports is
//! machine-dependent, so nothing is promised about the records' contents;
//! the resolution algorithms state their behaviour for every possible
//! list.

use vstd::prelude::*;

use crate::errors::MacAddressError;
use crate::iface::{RawAddr, RawIface};
use crate::ip::IpAddr;

verus! {

#[verifier::external_type_specification]
#[verifier::external_body]
pub struct ExInterfaceAddress(nix::ifaddrs::InterfaceAddress);

/// Relies on nix's `getifaddrs`: one blocking query of the platform's
/// interface list. A failing query surfaces as an error, never a panic;
/// a successful one may hold any records, including none.
#[verifier::external_body]
fn fetch_interfaces() -> (r: Result<Vec<nix::ifaddrs::InterfaceAddress>, MacAddressError>) {
    match nix::ifaddrs::getifaddrs() {
        Ok(entries) => Ok(entries.collect()),
        Err(_) => Err(MacAddressError::InternalError),
    }
}

/// Relies on nix's `InterfaceAddress`: picks the record's interface name
/// field.
#[verifier::external_body]
fn name_of(r: &nix::ifaddrs::InterfaceAddress) -> String {
    r.interface_name.clone()
}

/// Relies on nix's `SockaddrStorage::as_link_addr` and `LinkAddr::addr`:
/// the record's link-layer hardware bytes. The outer option is absent when
/// the record's address is no link-layer address; the inner one when the
/// link carries no usable bytes.
#[verifier::external_body]
fn link_of(r: &nix::ifaddrs::InterfaceAddress) -> Option<Option<Vec<u8>>> {
    match &r.address {
        Some(ss) => match ss.as_link_addr() {
            Some(link) => Some(match link.addr() {
                Some(b) => Some(b.to_vec()),
                None => None,
            }),
            None => None,
        },
        None => None,
    }
}

/// Relies on nix's `SockaddrStorage::as_sockaddr_in` and `SockaddrIn::ip`:
/// the record's bound IPv4 address, as its four octets.
#[verifier::external_body]
fn ipv4_of(r: &nix::ifaddrs::InterfaceAddress) -> Option<[u8; 4]> {
    match &r.address {
        Some(ss) => match ss.as_sockaddr_in() {
            Some(s) => Some(s.ip().octets()),
            None => None,
        },
        None => None,
    }
}

/// Relies on nix's `SockaddrStorage::as_sockaddr_in6` and
/// `SockaddrIn6::ip`: the record's bound IPv6 address, as its sixteen
/// octets.
#[verifier::external_body]
fn ipv6_of(r: &nix::ifaddrs::InterfaceAddress) -> Option<[u8; 16]> {
    match &r.address {
        Some(ss) => match ss.as_sockaddr_in6() {
            Some(s) => Some(s.ip().octets()),
            None => None,
        },
        None => None,
    }
}

/// Takes one snapshot of the platform's interface list and hands each
/// entry over as a plain record: its name, and whichever address the
/// entry carries — link-layer bytes if it is a link-layer record, else a
/// bound IP address, else a family the library does not read.
pub(crate) fn gather() -> Result<Vec<RawIface>, MacAddressError> {
    let raw = match fetch_interfaces() {
        Ok(v) => v,
        Err(e) => {
            return Err(e);
        },
    };
    let n = raw.len();
    let mut out: Vec<RawIface> = Vec::new();
    let mut i: usize = 0;
    while i < n
        invariant
            n == raw@.len(),
            i <= n,
        decreases n - i,
    {
        let entry = &raw[i];
        let addr = match link_of(entry) {
            Some(bytes) => RawAddr::Link(bytes),
            None => match ipv4_of(entry) {
                Some(o) => RawAddr::Ip(IpAddr::V4(o)),
                None => match ipv6_of(entry) {
                    Some(o) => RawAddr::Ip(IpAddr::V6(o)),
                    None => RawAddr::Other,
                },
            },
        };
        out.push(RawIface { name: Some(name_of(entry)), addr });
        i += 1;
    }
    Ok(out)
}

} // verus!
