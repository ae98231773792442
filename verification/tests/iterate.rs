use mac_address::iface::{decode_name, RawAddr, RawIface};
use mac_address::{MacAddressIterator, MacAddresses};

fn link(name: &str, bytes: [u8; 6]) -> RawIface {
    RawIface {
        name: Some(name.to_string()),
        addr: RawAddr::Link(Some(bytes.to_vec())),
    }
}

const MAC_A: [u8; 6] = [0x80, 0xFA, 0x5B, 0x41, 0x10, 0x6B];
const MAC_B: [u8; 6] = [0x01, 0x23, 0x45, 0x67, 0x89, 0xAB];

#[test]
fn loopback_is_filtered_by_default() {
    let records = vec![link("lo", [0; 6]), link("eth0", MAC_A), link("lo2", [0; 6])];
    let mut it = MacAddresses::from_records(records, false);
    let first = it.next().unwrap();
    assert_eq!(first.mac.bytes(), MAC_A);
    assert_eq!(first.name.as_deref(), Some("eth0"));
    assert!(it.next().is_none());
}

#[test]
fn loopback_is_yielded_when_included() {
    let records = vec![link("lo", [0; 6]), link("eth0", MAC_A)];
    let mut it = MacAddresses::from_records(records, true);
    let first = it.next().unwrap();
    assert_eq!(first.mac.bytes(), [0; 6]);
    assert_eq!(first.name.as_deref(), Some("lo"));
    let second = it.next().unwrap();
    assert_eq!(second.mac.bytes(), MAC_A);
    assert!(it.next().is_none());
}

#[test]
fn exhaustion_is_stable() {
    let records = vec![link("eth0", MAC_A)];
    let mut it = MacAddresses::from_records(records, false);
    assert!(it.next().is_some());
    assert!(it.next().is_none());
    assert!(it.next().is_none());
    assert!(it.next().is_none());
}

#[test]
fn empty_snapshot_is_exhausted_at_once() {
    let mut it = MacAddresses::from_records(vec![], true);
    assert!(it.next().is_none());
    assert!(it.next().is_none());
}

#[test]
fn non_link_records_are_skipped() {
    let records = vec![
        RawIface {
            name: Some("eth0".to_string()),
            addr: RawAddr::Other,
        },
        link("eth0", MAC_A),
    ];
    let mut it = MacAddresses::from_records(records, true);
    assert_eq!(it.next().unwrap().mac.bytes(), MAC_A);
    assert!(it.next().is_none());
}

#[test]
fn bare_iterator_includes_loopback() {
    let records = vec![link("lo", [0; 6]), link("eth0", MAC_A), link("wlan0", MAC_B)];
    let mut it = MacAddressIterator::from_records(records);
    assert_eq!(it.next().unwrap().bytes(), [0; 6]);
    assert_eq!(it.next().unwrap().bytes(), MAC_A);
    assert_eq!(it.next().unwrap().bytes(), MAC_B);
    assert!(it.next().is_none());
    assert!(it.next().is_none());
}

#[test]
fn decode_name_reads_up_to_terminator() {
    let units: Vec<u16> = vec![
        'e' as u16, 't' as u16, 'h' as u16, '0' as u16, 0, 'x' as u16,
    ];
    assert_eq!(decode_name(&units).as_deref(), Some("eth0"));
}

#[test]
fn decode_name_without_terminator() {
    let units: Vec<u16> = vec!['l' as u16, 'o' as u16];
    assert_eq!(decode_name(&units).as_deref(), Some("lo"));
}

#[test]
fn decode_name_beyond_ascii() {
    // One code unit outside ASCII: decoding must translate it, not hand the
    // unit back.
    let units: Vec<u16> = vec![0x00E9, 0];
    assert_eq!(decode_name(&units).as_deref(), Some("\u{e9}"));
}

#[test]
fn decode_name_failure_is_absent_name() {
    // A lone surrogate is not decodable; the name is treated as absent.
    let units: Vec<u16> = vec![0xD800, 0];
    assert!(decode_name(&units).is_none());
}

#[test]
fn live_enumeration_smoke() {
    if let Ok(mut it) = MacAddresses::new() {
        while let Some(entry) = it.next() {
            assert_ne!(entry.mac.bytes(), [0; 6]);
        }
    }
}
