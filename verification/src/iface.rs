//! Raw interface records and their normalization. One raw record stands for
//! one address entry of one interface, as a platform enumeration reports
//! it; normalization keeps only the entries that carry a usable hardware
//! address.

use vstd::prelude::*;

use crate::ip::IpAddr;
use crate::mac::MacAddress;

verus! {

/// The address carried by one raw interface record.
#[derive(Debug, Clone)]
pub enum RawAddr {
    /// A link-layer record: the raw hardware bytes, if the platform gave
    /// any. They may be wider than six bytes; only the first six are used.
    Link(Option<Vec<u8>>),
    /// An IP address bound to the interface.
    Ip(IpAddr),
    /// An address family the library does not read.
    Other,
}

/// One raw record of a platform interface enumeration: the interface's
/// name, when the platform exposes one, and one address entry.
#[derive(Debug, Clone)]
pub struct RawIface {
    /// The interface's name; absent when the platform gave none or its
    /// encoding could not be decoded.
    pub name: Option<String>,
    /// The one address this record carries.
    pub addr: RawAddr,
}

/// A normalized record: an interface that carries a usable hardware
/// address.
#[derive(Debug, Clone)]
pub struct InterfaceRecord {
    /// The interface's name, when the platform exposed one.
    pub name: Option<String>,
    /// The interface's MAC address.
    pub mac: MacAddress,
}

/// The view of an optional name: its characters, when present.
pub open spec fn name_view(n: Option<String>) -> Option<Seq<char>> {
    match n {
        Some(s) => Some(s@),
        None => None,
    }
}

/// Whether a raw record is a link-layer record.
pub open spec fn is_link(r: RawIface) -> bool {
    r.addr is Link
}

/// The MAC bytes a raw record yields: the first six hardware bytes of a
/// link-layer record, or nothing if the record is no link-layer record or
/// carries fewer than six bytes.
pub open spec fn raw_mac(r: RawIface) -> Option<Seq<u8>> {
    match r.addr {
        RawAddr::Link(Some(b)) => if b@.len() >= 6 {
            Some(b@.take(6))
        } else {
            None
        },
        _ => None,
    }
}

/// The IP address a raw record carries, if any.
pub open spec fn raw_ip(r: RawIface) -> Option<IpAddr> {
    match r.addr {
        RawAddr::Ip(ip) => Some(ip),
        _ => None,
    }
}

/// The loopback rule: a MAC address whose six bytes are all zero. This is
/// a heuristic applied identically on every platform, not a platform flag.
pub open spec fn is_loopback_bytes(m: Seq<u8>) -> bool {
    forall|i: int| 0 <= i < m.len() ==> m[i] == 0
}

/// Normalizes one raw record: a link-layer record with at least six
/// hardware bytes becomes an interface record, its address truncated to
/// the first six bytes; every other record is rejected.
pub fn normalize(r: &RawIface) -> (res: Option<InterfaceRecord>)
    ensures
        match res {
            Some(rec) => raw_mac(*r) == Some(rec.mac@) && name_view(rec.name) == name_view(r.name),
            None => raw_mac(*r) is None,
        },
{
    match &r.addr {
        RawAddr::Link(Some(b)) => {
            if b.len() >= 6 {
                let arr = [b[0], b[1], b[2], b[3], b[4], b[5]];
                assert(arr@ =~= b@.take(6));
                let name = match &r.name {
                    Some(n) => Some(n.clone()),
                    None => None,
                };
                Some(InterfaceRecord { name, mac: MacAddress::new(arr) })
            } else {
                None
            }
        },
        _ => None,
    }
}

impl MacAddress {
    /// Whether the address is the all-zero loopback address.
    pub fn is_loopback(&self) -> (r: bool)
        ensures
            r == is_loopback_bytes(self@),
    {
        let b = self.bytes();
        let r = b[0] == 0 && b[1] == 0 && b[2] == 0 && b[3] == 0 && b[4] == 0 && b[5] == 0;
        assert(r == is_loopback_bytes(self@)) by {
            if r {
                assert(forall|i: int| 0 <= i < self@.len() ==> self@[i] == 0);
            }
        }
        r
    }
}

/// The wide-name prefix: the code units before the first zero terminator,
/// or all of them if no terminator occurs.
pub open spec fn wide_prefix(units: Seq<u16>) -> Seq<u16>
    decreases units.len(),
{
    if units.len() == 0 {
        Seq::<u16>::empty()
    } else if units[0] == 0 {
        Seq::<u16>::empty()
    } else {
        seq![units[0]] + wide_prefix(units.skip(1))
    }
}

/// What decoding a wide string yields. Relied on below: the result of
/// `String::from_utf16` depends on the code units alone.
pub uninterp spec fn utf16_decode(units: Seq<u16>) -> Option<Seq<char>>;

/// Relies on `String::from_utf16`: decoding is a function of the code
/// units alone, and ill-formed input yields an error, never a panic.
#[verifier::external_body]
fn utf16_to_string(units: &Vec<u16>) -> (r: Option<String>)
    ensures
        match r {
            Some(s) => utf16_decode(units@) == Some(s@),
            None => utf16_decode(units@) is None,
        },
{
    String::from_utf16(units.as_slice()).ok()
}

/// How `wide_prefix` reads off the first terminator's position: up to the
/// first zero unit the prefix copies the input, and it ends there.
proof fn lemma_wide_prefix_at(units: Seq<u16>, k: int)
    requires
        0 <= k <= units.len(),
        forall|i: int| 0 <= i < k ==> units[i] != 0,
        k < units.len() ==> units[k] == 0,
    ensures
        wide_prefix(units) == units.take(k),
    decreases k,
{
    if units.len() == 0 {
        assert(units.take(0) =~= Seq::<u16>::empty());
    } else if k == 0 {
        assert(units.take(0) =~= Seq::<u16>::empty());
    } else {
        lemma_wide_prefix_at(units.skip(1), k - 1);
        assert(units.skip(1).take(k - 1) =~= units.take(k).skip(1));
        assert(seq![units[0]] + units.take(k).skip(1) =~= units.take(k));
    }
}

/// Decodes a platform "friendly name" given as wide code units: the units
/// before the first zero terminator, decoded as a wide string; a name
/// whose encoding cannot be decoded is treated as absent, never as an
/// enumeration failure.
pub fn decode_name(units: &Vec<u16>) -> (r: Option<String>)
    ensures
        match r {
            Some(s) => utf16_decode(wide_prefix(units@)) == Some(s@),
            None => utf16_decode(wide_prefix(units@)) is None,
        },
{
    let n = units.len();
    let mut k: usize = 0;
    while k < n && units[k] != 0
        invariant
            k <= n,
            n == units@.len(),
            forall|i: int| 0 <= i < k ==> units@[i] != 0,
        decreases n - k,
    {
        k += 1;
    }
    proof {
        lemma_wide_prefix_at(units@, k as int);
    }
    let mut prefix: Vec<u16> = Vec::new();
    let mut i: usize = 0;
    while i < k
        invariant
            i <= k <= units@.len(),
            prefix@ == units@.take(k as int).take(i as int),
        decreases k - i,
    {
        prefix.push(units[i]);
        assert(prefix@ =~= units@.take(k as int).take(i + 1));
        i += 1;
    }
    assert(prefix@ =~= units@.take(k as int));
    utf16_to_string(&prefix)
}

} // verus!
