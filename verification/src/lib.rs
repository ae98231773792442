//! Reports the MAC addresses of the host's network interfaces: the first
//! usable one, the one behind a given interface name, or the one behind a
//! given bound IP address. The platform's interface list is fetched once per
//! query and walked as plain records; every decision taken on those records is
//! verified.

pub mod errors;
pub mod iface;
pub mod ip;
pub mod iter;
pub mod mac;
mod platform;
pub mod resolve;

pub use errors::MacAddressError;
pub use errors::MacParseError;
pub use iter::MacAddressIterator;
pub use iter::MacAddresses;
pub use mac::MacAddress;

use vstd::prelude::*;

verus! {

/// Calls the OS-specific function for retrieving the MAC address of the
/// first network device containing one, ignoring local-loopback. An empty
/// interface list is a normal outcome and yields nothing, not an error.
pub fn get_mac_address() -> (r: Result<Option<MacAddress>, MacAddressError>)
    ensures
        r matches Ok(Some(m)) ==> !iface::is_loopback_bytes(m@),
{
    let records = match platform::gather() {
        Ok(v) => v,
        Err(e) => {
            return Err(e);
        },
    };
    Ok(resolve::first_mac_in(&records))
}

/// Attempts to look up the MAC address of an interface via the specified
/// name: the match is exact and case-sensitive, and the first matching
/// link-layer record decides. The loopback interface can be found this
/// way, if its name is literally what was asked for.
pub fn mac_address_by_name(name: &str) -> Result<Option<MacAddress>, MacAddressError> {
    let records = match platform::gather() {
        Ok(v) => v,
        Err(e) => {
            return Err(e);
        },
    };
    Ok(resolve::mac_by_name_in(&records, name))
}

/// Attempts to look up the MAC address of the interface that the given IP
/// address is bound to, in one forward pass over the platform's combined
/// address list, whatever order that list interleaves hardware and IP
/// records in.
pub fn get_mac_address_by_ip(ip: &ip::IpAddr) -> Result<Option<MacAddress>, MacAddressError> {
    let records = match platform::gather() {
        Ok(v) => v,
        Err(e) => {
            return Err(e);
        },
    };
    Ok(resolve::mac_by_ip_in(&records, ip))
}

/// Attempts to look up the name of the interface that carries the given
/// MAC address; an interface found without a name yields nothing as well.
pub fn get_ifname(mac: &MacAddress) -> Result<Option<String>, MacAddressError> {
    let records = match platform::gather() {
        Ok(v) => v,
        Err(e) => {
            return Err(e);
        },
    };
    match resolve::ifname_in(&records, mac) {
        Some(Some(name)) => Ok(Some(name)),
        _ => Ok(None),
    }
}

/// Retrieves a MAC address from the host's interface list: the first
/// non-loopback one, or, if a name is given, the named interface's.
pub fn get_mac(name: Option<&str>) -> (r: Result<Option<[u8; 6]>, MacAddressError>)
    ensures
        name is None ==> (r matches Ok(Some(b)) ==> !iface::is_loopback_bytes(b@)),
{
    let records = match platform::gather() {
        Ok(v) => v,
        Err(e) => {
            return Err(e);
        },
    };
    let found = match name {
        Some(q) => resolve::mac_by_name_in(&records, q),
        None => resolve::first_mac_in(&records),
    };
    Ok(
        match found {
            Some(m) => Some(m.bytes()),
            None => None,
        },
    )
}

} // verus!
