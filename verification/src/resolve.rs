//! The resolution algorithms over one snapshot of raw interface records:
//! first usable address, lookup by interface name, lookup by bound IP
//! address, and the reverse lookup from address to name. Each one takes
//! the records of one platform enumeration as a plain list and is
//! specified exactly over that list.

use vstd::prelude::*;

use crate::iface::{is_link, is_loopback_bytes, name_view, normalize, raw_ip, raw_mac};
use crate::iface::{RawAddr, RawIface};
use crate::ip::{ip_eq, IpAddr};
use crate::mac::MacAddress;

verus! {

/// The first usable MAC address of a record list: the first link-layer
/// record that carries hardware bytes which are not all zero. All-zero
/// addresses are the loopback heuristic and are skipped.
pub open spec fn first_mac_spec(rs: Seq<RawIface>) -> Option<Seq<u8>>
    decreases rs.len(),
{
    if rs.len() == 0 {
        None
    } else {
        match raw_mac(rs[0]) {
            Some(m) => if !is_loopback_bytes(m) {
                Some(m)
            } else {
                first_mac_spec(rs.skip(1))
            },
            None => first_mac_spec(rs.skip(1)),
        }
    }
}

/// What a lookup by name yields: the first link-layer record whose name
/// equals the query, character for character and case-sensitive, decides
/// the answer — its hardware bytes, or nothing if it carries none. No
/// later record is consulted once a name matches.
pub open spec fn by_name_spec(rs: Seq<RawIface>, q: Seq<char>) -> Option<Option<Seq<u8>>>
    decreases rs.len(),
{
    if rs.len() == 0 {
        None
    } else if is_link(rs[0]) && name_view(rs[0].name) == Some(q) {
        Some(raw_mac(rs[0]))
    } else {
        by_name_spec(rs.skip(1), q)
    }
}

/// The lookup by name, collapsed to the address it returns, if any.
pub open spec fn by_name_mac(rs: Seq<RawIface>, q: Seq<char>) -> Option<Seq<u8>> {
    match by_name_spec(rs, q) {
        Some(Some(m)) => Some(m),
        _ => None,
    }
}

/// The view of an optional address.
pub open spec fn mac_opt_view(m: Option<MacAddress>) -> Option<Seq<u8>> {
    match m {
        Some(x) => Some(x@),
        None => None,
    }
}

/// One forward pass of the lookup by IP, with its two pieces of state: the
/// mapping from interface name to the hardware bytes of that interface's
/// latest link-layer record, and the name of the interface that the query
/// IP was last seen bound to. A link-layer record answers at once when the
/// query IP already named its interface; an IP record matching the query
/// answers at once when its interface's hardware bytes are already known.
/// So the answer comes out of a single pass whether the hardware record
/// stands before or after the IP record.
pub open spec fn by_ip_rec(
    rs: Seq<RawIface>,
    ip: IpAddr,
    macs: Map<Option<Seq<char>>, Option<Seq<u8>>>,
    found: Option<Option<Seq<char>>>,
) -> Option<Option<Seq<u8>>>
    decreases rs.len(),
{
    if rs.len() == 0 {
        None
    } else {
        let r = rs[0];
        if is_link(r) {
            if found == Some(name_view(r.name)) {
                Some(raw_mac(r))
            } else {
                by_ip_rec(rs.skip(1), ip, macs.insert(name_view(r.name), raw_mac(r)), found)
            }
        } else if raw_ip(r) is Some && ip_eq(raw_ip(r)->Some_0, ip) {
            if macs.contains_key(name_view(r.name)) {
                Some(macs[name_view(r.name)])
            } else {
                by_ip_rec(rs.skip(1), ip, macs, Some(name_view(r.name)))
            }
        } else {
            by_ip_rec(rs.skip(1), ip, macs, found)
        }
    }
}

/// The lookup by IP over a whole record list, started with empty state.
pub open spec fn by_ip_spec(rs: Seq<RawIface>, ip: IpAddr) -> Option<Option<Seq<u8>>> {
    by_ip_rec(rs, ip, Map::<Option<Seq<char>>, Option<Seq<u8>>>::empty(), None)
}

/// The lookup by IP, collapsed to the address it returns, if any.
pub open spec fn by_ip_mac(rs: Seq<RawIface>, ip: IpAddr) -> Option<Seq<u8>> {
    match by_ip_spec(rs, ip) {
        Some(Some(m)) => Some(m),
        _ => None,
    }
}

/// What the reverse lookup yields: the name of the first link-layer record
/// whose hardware bytes equal the given address.
pub open spec fn ifname_spec(rs: Seq<RawIface>, mac: Seq<u8>) -> Option<Option<Seq<char>>>
    decreases rs.len(),
{
    if rs.len() == 0 {
        None
    } else if raw_mac(rs[0]) == Some(mac) {
        Some(name_view(rs[0].name))
    } else {
        ifname_spec(rs.skip(1), mac)
    }
}

/// On an empty record list every lookup yields nothing — never an error:
/// an empty platform enumeration is a normal outcome.
pub proof fn lemma_empty_resolution(q: Seq<char>, ip: IpAddr, mac: Seq<u8>)
    ensures
        first_mac_spec(Seq::<RawIface>::empty()) is None,
        by_name_mac(Seq::<RawIface>::empty(), q) is None,
        by_ip_mac(Seq::<RawIface>::empty(), ip) is None,
        ifname_spec(Seq::<RawIface>::empty(), mac) is None,
{
}

/// The first usable address is never the all-zero loopback address.
pub proof fn lemma_first_mac_not_loopback(rs: Seq<RawIface>)
    ensures
        first_mac_spec(rs) is Some ==> !is_loopback_bytes(first_mac_spec(rs)->Some_0),
    decreases rs.len(),
{
    if rs.len() > 0 {
        lemma_first_mac_not_loopback(rs.skip(1));
    }
}

/// Clones an optional interface name.
fn clone_name(n: &Option<String>) -> (r: Option<String>)
    ensures
        name_view(r) == name_view(*n),
{
    match n {
        Some(s) => Some(s.clone()),
        None => None,
    }
}

/// Whether two optional names are the same: both absent, or present with
/// the same characters.
fn opt_name_eq(a: &Option<String>, b: &Option<String>) -> (r: bool)
    ensures
        r == (name_view(*a) == name_view(*b)),
{
    match (a, b) {
        (Some(x), Some(y)) => x.eq(y),
        (None, None) => true,
        _ => false,
    }
}

/// Whether a record's optional name equals a query string.
fn name_matches(n: &Option<String>, q: &str) -> (r: bool)
    ensures
        r == (name_view(*n) == Some(q@)),
{
    match n {
        Some(s) => {
            let qs = q.to_owned();
            s.eq(&qs)
        },
        None => false,
    }
}

/// The record's hardware bytes as an address, if it carries usable ones.
fn mac_of(r: &RawIface) -> (res: Option<MacAddress>)
    ensures
        mac_opt_view(res) == raw_mac(*r),
{
    match normalize(r) {
        Some(rec) => Some(rec.mac),
        None => None,
    }
}

/// Returns the first usable MAC address of the records, skipping the
/// all-zero loopback address; nothing if no record carries one.
pub fn first_mac_in(records: &Vec<RawIface>) -> (r: Option<MacAddress>)
    ensures
        mac_opt_view(r) == first_mac_spec(records@),
        r is Some ==> !is_loopback_bytes(r->Some_0@),
{
    let n = records.len();
    let mut i: usize = 0;
    proof {
        assert(records@.skip(0) =~= records@);
    }
    while i < n
        invariant
            i <= n,
            n == records@.len(),
            first_mac_spec(records@.skip(i as int)) == first_mac_spec(records@),
        decreases n - i,
    {
        proof {
            assert(records@.skip(i as int).skip(1) =~= records@.skip(i + 1));
        }
        match mac_of(&records[i]) {
            Some(m) => {
                if !m.is_loopback() {
                    return Some(m);
                }
            },
            None => {},
        }
        i += 1;
    }
    None
}

/// Looks an address up by interface name: the first link-layer record
/// whose name equals the query, exactly and case-sensitively, decides;
/// its address is returned if it carries one.
pub fn mac_by_name_in(records: &Vec<RawIface>, name: &str) -> (r: Option<MacAddress>)
    ensures
        mac_opt_view(r) == by_name_mac(records@, name@),
{
    let n = records.len();
    let mut i: usize = 0;
    proof {
        assert(records@.skip(0) =~= records@);
    }
    while i < n
        invariant
            i <= n,
            n == records@.len(),
            by_name_spec(records@.skip(i as int), name@) == by_name_spec(records@, name@),
        decreases n - i,
    {
        proof {
            assert(records@.skip(i as int).skip(1) =~= records@.skip(i + 1));
        }
        let rec = &records[i];
        let link = match &rec.addr {
            RawAddr::Link(_) => true,
            _ => false,
        };
        if link && name_matches(&rec.name, name) {
            return mac_of(rec);
        }
        i += 1;
    }
    None
}

/// The view of the found-interface slot.
pub open spec fn found_view(f: Option<Option<String>>) -> Option<Option<Seq<char>>> {
    match f {
        Some(n) => Some(name_view(n)),
        None => None,
    }
}

/// The mapping an association list denotes: later entries win.
pub open spec fn assoc_view(pairs: Seq<(Option<String>, Option<MacAddress>)>) -> Map<
    Option<Seq<char>>,
    Option<Seq<u8>>,
>
    decreases pairs.len(),
{
    if pairs.len() == 0 {
        Map::<Option<Seq<char>>, Option<Seq<u8>>>::empty()
    } else {
        assoc_view(pairs.drop_last()).insert(
            name_view(pairs.last().0),
            mac_opt_view(pairs.last().1),
        )
    }
}

/// The latest entry with a key decides that key's value in the mapping.
proof fn lemma_assoc_last_match(
    pairs: Seq<(Option<String>, Option<MacAddress>)>,
    j: int,
    k: Option<Seq<char>>,
)
    requires
        0 <= j < pairs.len(),
        name_view(pairs[j].0) == k,
        forall|t: int| j < t < pairs.len() ==> name_view(#[trigger] pairs[t].0) != k,
    ensures
        assoc_view(pairs).contains_key(k),
        assoc_view(pairs)[k] == mac_opt_view(pairs[j].1),
    decreases pairs.len(),
{
    if j == pairs.len() - 1 {
    } else {
        assert(forall|t: int|
            j < t < pairs.drop_last().len() ==> name_view(
                #[trigger] pairs.drop_last()[t].0,
            ) != k);
        lemma_assoc_last_match(pairs.drop_last(), j, k);
    }
}

/// A key that no entry holds is not in the mapping.
proof fn lemma_assoc_no_match(pairs: Seq<(Option<String>, Option<MacAddress>)>, k: Option<Seq<char>>)
    requires
        forall|t: int| 0 <= t < pairs.len() ==> name_view(#[trigger] pairs[t].0) != k,
    ensures
        !assoc_view(pairs).contains_key(k),
    decreases pairs.len(),
{
    if pairs.len() > 0 {
        lemma_assoc_no_match(pairs.drop_last(), k);
    }
}

/// Looks a name up in the association list; the latest entry wins, as a
/// mapping insert would.
fn assoc_get(pairs: &Vec<(Option<String>, Option<MacAddress>)>, key: &Option<String>) -> (r: Option<
    Option<MacAddress>,
>)
    ensures
        match r {
            Some(v) => assoc_view(pairs@).contains_key(name_view(*key)) && mac_opt_view(v)
                == assoc_view(pairs@)[name_view(*key)],
            None => !assoc_view(pairs@).contains_key(name_view(*key)),
        },
{
    let mut j = pairs.len();
    while j > 0
        invariant
            j <= pairs@.len(),
            forall|t: int| j <= t < pairs@.len() ==> name_view(#[trigger] pairs@[t].0) != name_view(
                *key,
            ),
        decreases j,
    {
        j -= 1;
        if opt_name_eq(&pairs[j].0, key) {
            proof {
                lemma_assoc_last_match(pairs@, j as int, name_view(*key));
            }
            return Some(pairs[j].1);
        }
    }
    proof {
        lemma_assoc_no_match(pairs@, name_view(*key));
    }
    None
}

/// Looks an address up by bound IP, in one forward pass over the records:
/// link-layer records feed a name-to-address mapping, a record binding the
/// query IP names its interface, and the pass answers as soon as both
/// halves of a pair have been seen — in either order.
pub fn mac_by_ip_in(records: &Vec<RawIface>, ip: &IpAddr) -> (r: Option<MacAddress>)
    ensures
        mac_opt_view(r) == by_ip_mac(records@, *ip),
{
    let n = records.len();
    let mut pairs: Vec<(Option<String>, Option<MacAddress>)> = Vec::new();
    let mut found: Option<Option<String>> = None;
    let mut i: usize = 0;
    proof {
        assert(records@.skip(0) =~= records@);
        assert(assoc_view(pairs@) =~= Map::<Option<Seq<char>>, Option<Seq<u8>>>::empty());
    }
    while i < n
        invariant
            i <= n,
            n == records@.len(),
            by_ip_rec(records@.skip(i as int), *ip, assoc_view(pairs@), found_view(found))
                == by_ip_spec(records@, *ip),
        decreases n - i,
    {
        proof {
            assert(records@.skip(i as int).skip(1) =~= records@.skip(i + 1));
        }
        let rec = &records[i];
        match &rec.addr {
            RawAddr::Link(_) => {
                let mac = mac_of(rec);
                let hit = match &found {
                    Some(fname) => opt_name_eq(fname, &rec.name),
                    None => false,
                };
                if hit {
                    return mac;
                }
                let ghost old_pairs = pairs@;
                let nm = clone_name(&rec.name);
                pairs.push((nm, mac));
                proof {
                    assert(pairs@.drop_last() =~= old_pairs);
                    assert(assoc_view(pairs@) == assoc_view(old_pairs).insert(
                        name_view(records@[i as int].name),
                        raw_mac(records@[i as int]),
                    ));
                }
            },
            RawAddr::Ip(addr) => {
                if addr.same(ip) {
                    match assoc_get(&pairs, &rec.name) {
                        Some(v) => {
                            return v;
                        },
                        None => {
                            found = Some(clone_name(&rec.name));
                        },
                    }
                }
            },
            RawAddr::Other => {},
        }
        i += 1;
    }
    None
}

/// The reverse lookup: the name of the first record whose hardware bytes
/// equal the given address, or nothing when no record matches. The inner
/// option is the matching interface's name, which the platform may not
/// have exposed.
pub fn ifname_in(records: &Vec<RawIface>, mac: &MacAddress) -> (r: Option<Option<String>>)
    ensures
        match r {
            Some(nm) => ifname_spec(records@, mac@) == Some(name_view(nm)),
            None => ifname_spec(records@, mac@) is None,
        },
{
    let n = records.len();
    let target = mac.bytes();
    let mut i: usize = 0;
    proof {
        assert(records@.skip(0) =~= records@);
    }
    while i < n
        invariant
            i <= n,
            n == records@.len(),
            target@ == mac@,
            ifname_spec(records@.skip(i as int), mac@) == ifname_spec(records@, mac@),
        decreases n - i,
    {
        proof {
            assert(records@.skip(i as int).skip(1) =~= records@.skip(i + 1));
        }
        match normalize(&records[i]) {
            Some(found_rec) => {
                let fb = found_rec.mac.bytes();
                if crate::ip::bytes_eq(fb.as_slice(), target.as_slice()) {
                    return Some(found_rec.name);
                }
            },
            None => {},
        }
        i += 1;
    }
    None
}

} // verus!
