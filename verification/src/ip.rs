//! The library's own IP address value: the four or sixteen raw bytes of a
//! bound address, as the platform reports them. Callers that hold a
//! platform address type convert it to these bytes at the boundary.

use vstd::prelude::*;

verus! {

/// An IP address bound to an interface: the raw bytes of a version-4 or a
/// version-6 address, in network order.
#[derive(Debug, Clone, Copy)]
pub enum IpAddr {
    /// A version-4 address: four octets.
    V4([u8; 4]),
    /// A version-6 address: sixteen octets.
    V6([u8; 16]),
}

/// What it means for two addresses to be the same: the same version and
/// the same octets.
pub open spec fn ip_eq(a: IpAddr, b: IpAddr) -> bool {
    match (a, b) {
        (IpAddr::V4(x), IpAddr::V4(y)) => x@ == y@,
        (IpAddr::V6(x), IpAddr::V6(y)) => x@ == y@,
        _ => false,
    }
}

/// Compares two fixed slices of bytes.
pub(crate) fn bytes_eq(a: &[u8], b: &[u8]) -> (r: bool)
    requires
        a@.len() == b@.len(),
    ensures
        r == (a@ == b@),
{
    let n = a.len();
    let mut i: usize = 0;
    while i < n
        invariant
            i <= n,
            n == a@.len() == b@.len(),
            forall|j: int| 0 <= j < i ==> a@[j] == b@[j],
        decreases n - i,
    {
        if a[i] != b[i] {
            assert(a@ != b@);
            return false;
        }
        i += 1;
    }
    assert(a@ =~= b@);
    true
}

impl IpAddr {
    /// Whether this address equals another, octet for octet.
    pub fn same(&self, other: &IpAddr) -> (r: bool)
        ensures
            r == ip_eq(*self, *other),
    {
        match (self, other) {
            (IpAddr::V4(x), IpAddr::V4(y)) => bytes_eq(x.as_slice(), y.as_slice()),
            (IpAddr::V6(x), IpAddr::V6(y)) => bytes_eq(x.as_slice(), y.as_slice()),
            _ => false,
        }
    }
}

} // verus!
