//! The iterators over one snapshot of interface records. Each iterator
//! owns the records of one platform enumeration and walks them forward,
//! once: a cursor is advanced past every record it reads, and once the
//! records are spent the iterator stays exhausted for good.

use vstd::prelude::*;

use crate::errors::MacAddressError;
use crate::iface::{is_loopback_bytes, name_view, normalize, raw_mac, InterfaceRecord, RawIface};
use crate::mac::MacAddress;
use crate::platform;

verus! {

/// Whether one record is yielded: it must carry usable hardware bytes,
/// and an all-zero address only when loopback is included.
pub open spec fn yields(r: RawIface, include_loopback: bool) -> bool {
    &&& raw_mac(r) is Some
    &&& (include_loopback || !is_loopback_bytes(raw_mac(r)->Some_0))
}

/// The cursor's next stop: the first position at or after `i` whose
/// record is yielded, if any.
pub open spec fn next_index(rs: Seq<RawIface>, i: int, include_loopback: bool) -> Option<int>
    decreases rs.len() - i,
{
    if i < 0 || i >= rs.len() {
        None
    } else if yields(rs[i], include_loopback) {
        Some(i)
    } else {
        next_index(rs, i + 1, include_loopback)
    }
}

/// An iterator over the named MAC addresses of one interface snapshot,
/// with loopback included or excluded at construction.
#[derive(Debug)]
pub struct MacAddresses {
    records: Vec<RawIface>,
    idx: usize,
    include_loopback: bool,
}

impl MacAddresses {
    /// The snapshot's records.
    pub closed spec fn recs(&self) -> Seq<RawIface> {
        self.records@
    }

    /// The cursor: how many records have been read.
    pub closed spec fn pos(&self) -> int {
        self.idx as int
    }

    /// Whether all-zero addresses are yielded.
    pub closed spec fn incl(&self) -> bool {
        self.include_loopback
    }

    #[verifier::type_invariant]
    spec fn wf(&self) -> bool {
        self.idx as int <= self.records@.len()
    }

    /// Builds an iterator over the given records, read from the first.
    pub fn from_records(records: Vec<RawIface>, include_loopback: bool) -> (r: MacAddresses)
        ensures
            r.recs() == records@,
            r.pos() == 0,
            r.incl() == include_loopback,
    {
        MacAddresses { records, idx: 0, include_loopback }
    }

    /// Enumerates the host's interfaces, excluding the loopback address.
    pub fn new() -> (r: Result<MacAddresses, MacAddressError>)
        ensures
            r matches Ok(it) ==> it.pos() == 0 && !it.incl(),
    {
        Self::with_loopback(false)
    }

    /// Enumerates the host's interfaces, including the all-zero loopback
    /// address if asked to.
    pub fn with_loopback(include_loopback: bool) -> (r: Result<MacAddresses, MacAddressError>)
        ensures
            r matches Ok(it) ==> it.pos() == 0 && it.incl() == include_loopback,
    {
        let records = match platform::gather() {
            Ok(v) => v,
            Err(e) => {
                return Err(e);
            },
        };
        Ok(Self::from_records(records, include_loopback))
    }

    /// Yields the next record that carries a usable address, advancing the
    /// cursor past it; when the records are spent it yields nothing, moves
    /// the cursor to the end, and every later call yields nothing again.
    #[verifier::loop_isolation(false)]
    pub fn next(&mut self) -> (r: Option<InterfaceRecord>)
        ensures
            final(self).recs() == old(self).recs(),
            final(self).incl() == old(self).incl(),
            match next_index(old(self).recs(), old(self).pos(), old(self).incl()) {
                Some(j) => r is Some && raw_mac(old(self).recs()[j]) == Some(r->Some_0.mac@)
                    && name_view(r->Some_0.name) == name_view(old(self).recs()[j].name)
                    && final(self).pos() == j + 1,
                None => r is None && final(self).pos() == old(self).recs().len(),
            },
            !old(self).incl() && r is Some ==> !is_loopback_bytes(r->Some_0.mac@),
    {
        proof {
            use_type_invariant(&*self);
        }
        let ghost recs = self.records@;
        let ghost incl = self.include_loopback;
        let ghost start = self.idx as int;
        let n = self.records.len();
        let mut j = self.idx;
        while j < n
            invariant
                j <= n,
                n == recs.len(),
                recs == self.records@,
                incl == self.include_loopback,
                start == self.idx as int,
                next_index(recs, j as int, incl) == next_index(recs, start, incl),
            decreases n - j,
        {
            match normalize(&self.records[j]) {
                Some(found) => {
                    if self.include_loopback || !found.mac.is_loopback() {
                        assert(next_index(recs, j as int, incl) == Some(j as int));
                        self.idx = j + 1;
                        return Some(found);
                    }
                    assert(!yields(recs[j as int], incl));
                },
                None => {
                    assert(!yields(recs[j as int], incl));
                },
            }
            assert(next_index(recs, j as int, incl) == next_index(recs, j + 1, incl));
            j += 1;
        }
        assert(next_index(recs, n as int, incl) is None);
        self.idx = n;
        None
    }
}

/// An iterator over all available MAC addresses on the system, the
/// all-zero loopback address included, without names.
#[derive(Debug)]
pub struct MacAddressIterator {
    records: Vec<RawIface>,
    idx: usize,
}

impl MacAddressIterator {
    /// The snapshot's records.
    pub closed spec fn recs(&self) -> Seq<RawIface> {
        self.records@
    }

    /// The cursor: how many records have been read.
    pub closed spec fn pos(&self) -> int {
        self.idx as int
    }

    #[verifier::type_invariant]
    spec fn wf(&self) -> bool {
        self.idx as int <= self.records@.len()
    }

    /// Builds an iterator over the given records, read from the first.
    pub fn from_records(records: Vec<RawIface>) -> (r: MacAddressIterator)
        ensures
            r.recs() == records@,
            r.pos() == 0,
    {
        MacAddressIterator { records, idx: 0 }
    }

    /// Creates a new `MacAddressIterator` over the host's interfaces.
    pub fn new() -> (r: Result<MacAddressIterator, MacAddressError>)
        ensures
            r matches Ok(it) ==> it.pos() == 0,
    {
        let records = match platform::gather() {
            Ok(v) => v,
            Err(e) => {
                return Err(e);
            },
        };
        Ok(Self::from_records(records))
    }

    /// Yields the next record's address, advancing the cursor past it;
    /// exhaustion is final, as for `MacAddresses`.
    #[verifier::loop_isolation(false)]
    pub fn next(&mut self) -> (r: Option<MacAddress>)
        ensures
            final(self).recs() == old(self).recs(),
            match next_index(old(self).recs(), old(self).pos(), true) {
                Some(j) => r is Some && raw_mac(old(self).recs()[j]) == Some(r->Some_0@)
                    && final(self).pos() == j + 1,
                None => r is None && final(self).pos() == old(self).recs().len(),
            },
    {
        proof {
            use_type_invariant(&*self);
        }
        let ghost recs = self.records@;
        let ghost start = self.idx as int;
        let n = self.records.len();
        let mut j = self.idx;
        while j < n
            invariant
                j <= n,
                n == recs.len(),
                recs == self.records@,
                start == self.idx as int,
                next_index(recs, j as int, true) == next_index(recs, start, true),
            decreases n - j,
        {
            match normalize(&self.records[j]) {
                Some(found) => {
                    assert(next_index(recs, j as int, true) == Some(j as int));
                    self.idx = j + 1;
                    return Some(found.mac);
                },
                None => {
                    assert(!yields(recs[j as int], true));
                },
            }
            assert(next_index(recs, j as int, true) == next_index(recs, j + 1, true));
            j += 1;
        }
        assert(next_index(recs, n as int, true) is None);
        self.idx = n;
        None
    }
}

} // verus!
