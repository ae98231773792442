use mac_address::iface::{RawAddr, RawIface};
use mac_address::ip::IpAddr;
use mac_address::resolve::{first_mac_in, ifname_in, mac_by_ip_in, mac_by_name_in};
use mac_address::MacAddress;
use mac_address::MacAddressError;

fn link(name: &str, bytes: [u8; 6]) -> RawIface {
    RawIface {
        name: Some(name.to_string()),
        addr: RawAddr::Link(Some(bytes.to_vec())),
    }
}

fn bound_v4(name: &str, octets: [u8; 4]) -> RawIface {
    RawIface {
        name: Some(name.to_string()),
        addr: RawAddr::Ip(IpAddr::V4(octets)),
    }
}

const MAC_A: [u8; 6] = [0x80, 0xFA, 0x5B, 0x41, 0x10, 0x6B];
const MAC_B: [u8; 6] = [0x01, 0x23, 0x45, 0x67, 0x89, 0xAB];

#[test]
fn first_mac_skips_loopback() {
    let records = vec![link("lo", [0; 6]), link("eth0", MAC_A)];
    let found = first_mac_in(&records).unwrap();
    assert_eq!(found.bytes(), MAC_A);
}

#[test]
fn first_mac_none_when_all_loopback() {
    let records = vec![link("lo", [0; 6])];
    assert!(first_mac_in(&records).is_none());
}

#[test]
fn by_name_exact_match() {
    let records = vec![link("eth0", MAC_A), link("wlan0", MAC_B)];
    let found = mac_by_name_in(&records, "wlan0").unwrap();
    assert_eq!(found.bytes(), MAC_B);
}

#[test]
fn by_name_is_case_sensitive() {
    let records = vec![link("eth0", MAC_A)];
    assert!(mac_by_name_in(&records, "ETH0").is_none());
    assert!(mac_by_name_in(&records, "Eth0").is_none());
}

#[test]
fn by_name_finds_loopback_when_asked() {
    let records = vec![link("lo", [0; 6]), link("eth0", MAC_A)];
    let found = mac_by_name_in(&records, "lo").unwrap();
    assert_eq!(found.bytes(), [0; 6]);
}

#[test]
fn by_ip_mac_before_ip() {
    let ip = IpAddr::V4([192, 168, 1, 10]);
    let records = vec![
        link("eth0", MAC_A),
        bound_v4("eth0", [192, 168, 1, 10]),
        link("wlan0", MAC_B),
        bound_v4("wlan0", [10, 0, 0, 1]),
    ];
    let found = mac_by_ip_in(&records, &ip).unwrap();
    assert_eq!(found.bytes(), MAC_A);
}

#[test]
fn by_ip_ip_before_mac() {
    let ip = IpAddr::V4([192, 168, 1, 10]);
    let records = vec![
        bound_v4("eth0", [192, 168, 1, 10]),
        link("eth0", MAC_A),
        bound_v4("wlan0", [10, 0, 0, 1]),
        link("wlan0", MAC_B),
    ];
    let found = mac_by_ip_in(&records, &ip).unwrap();
    assert_eq!(found.bytes(), MAC_A);
}

#[test]
fn by_ip_no_match() {
    let records = vec![link("eth0", MAC_A), bound_v4("eth0", [192, 168, 1, 10])];
    let ip = IpAddr::V4([10, 0, 0, 1]);
    assert!(mac_by_ip_in(&records, &ip).is_none());
}

#[test]
fn by_ip_v6_address() {
    let mut octets = [0u8; 16];
    octets[15] = 1;
    let ip = IpAddr::V6(octets);
    let records = vec![
        RawIface {
            name: Some("eth0".to_string()),
            addr: RawAddr::Ip(IpAddr::V6(octets)),
        },
        link("eth0", MAC_A),
    ];
    let found = mac_by_ip_in(&records, &ip).unwrap();
    assert_eq!(found.bytes(), MAC_A);
}

#[test]
fn empty_list_resolves_to_none() {
    let records: Vec<RawIface> = vec![];
    assert!(first_mac_in(&records).is_none());
    assert!(mac_by_name_in(&records, "eth0").is_none());
    assert!(mac_by_ip_in(&records, &IpAddr::V4([127, 0, 0, 1])).is_none());
    assert!(ifname_in(&records, &MacAddress::new(MAC_A)).is_none());
}

#[test]
fn ifname_reverse_lookup() {
    let records = vec![link("lo", [0; 6]), link("eth0", MAC_A)];
    let name = ifname_in(&records, &MacAddress::new(MAC_A)).unwrap().unwrap();
    assert_eq!(name, "eth0");
}

#[test]
fn ifname_none_when_absent() {
    let records = vec![link("eth0", MAC_A)];
    assert!(ifname_in(&records, &MacAddress::new(MAC_B)).is_none());
}

#[test]
fn wide_hardware_bytes_are_truncated() {
    let records = vec![RawIface {
        name: Some("eth0".to_string()),
        addr: RawAddr::Link(Some(vec![
            0x80, 0xFA, 0x5B, 0x41, 0x10, 0x6B, 0xDE, 0xAD,
        ])),
    }];
    let found = first_mac_in(&records).unwrap();
    assert_eq!(found.bytes(), MAC_A);
}

#[test]
fn short_hardware_bytes_are_rejected() {
    let records = vec![RawIface {
        name: Some("eth0".to_string()),
        addr: RawAddr::Link(Some(vec![0x80, 0xFA])),
    }];
    assert!(first_mac_in(&records).is_none());
}

#[test]
fn live_lookup_never_yields_loopback() {
    match mac_address::get_mac_address() {
        Ok(Some(found)) => assert_ne!(found.bytes(), [0; 6]),
        Ok(None) => {}
        Err(_) => {}
    }
    match mac_address::get_mac(None) {
        Ok(Some(bytes)) => assert_ne!(bytes, [0; 6]),
        Ok(None) => {}
        Err(_) => {}
    }
}

#[test]
fn by_ip_latest_link_record_wins() {
    // Two link records for the same interface name: the mapping keeps the
    // later one, as an overwriting insert would.
    let ip = IpAddr::V4([192, 168, 1, 10]);
    let records = vec![
        link("eth0", MAC_B),
        link("eth0", MAC_A),
        bound_v4("eth0", [192, 168, 1, 10]),
    ];
    let found = mac_by_ip_in(&records, &ip).unwrap();
    assert_eq!(found.bytes(), MAC_A);
}

#[test]
fn by_name_first_match_decides() {
    // The first matching link record decides, even when it carries no
    // usable bytes; a later record under the same name is not consulted.
    let records = vec![
        RawIface {
            name: Some("eth0".to_string()),
            addr: RawAddr::Link(None),
        },
        link("eth0", MAC_A),
    ];
    assert!(mac_by_name_in(&records, "eth0").is_none());
}

#[test]
fn error_message_text() {
    assert_eq!(MacAddressError::InternalError.message(), "Internal API error");
}
