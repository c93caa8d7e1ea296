//! Addresses that a gateway must not be sent to.

use praxis_apis::openai::url_security::{
    is_cloud_metadata, is_file_url_ssrf_blocked, is_non_public_ip, is_private_or_special_use,
    is_unconditionally_blocked, normalize_mapped_ipv4, IpAddr, Ipv4Addr, Ipv6Addr,
};

fn v4(a: u8, b: u8, c: u8, d: u8) -> IpAddr {
    IpAddr::V4(Ipv4Addr::new(a, b, c, d))
}

fn v6(segments: [u16; 8]) -> IpAddr {
    IpAddr::V6(Ipv6Addr::new(segments))
}

fn mapped(a: u16, b: u16) -> IpAddr {
    v6([0, 0, 0, 0, 0, 0xffff, a, b])
}

#[test]
fn public_addresses_pass() {
    for ip in [v4(8, 8, 8, 8), v4(93, 184, 216, 34), v6([0x2606, 0x4700, 0, 0, 0, 0, 0, 1])] {
        assert!(!is_non_public_ip(&ip));
        assert!(!is_file_url_ssrf_blocked(&ip, false));
    }
}

#[test]
fn private_addresses_pass_only_where_allowed() {
    for ip in [v4(10, 0, 0, 1), v4(172, 16, 3, 4), v4(192, 168, 1, 1), v4(127, 0, 0, 1)] {
        assert!(is_non_public_ip(&ip));
        assert!(is_private_or_special_use(&ip));
        assert!(is_file_url_ssrf_blocked(&ip, false));
        assert!(!is_file_url_ssrf_blocked(&ip, true));
    }
}

#[test]
fn metadata_services_are_always_blocked() {
    let ip = v4(169, 254, 169, 254);
    assert!(is_cloud_metadata(&ip));
    assert!(is_unconditionally_blocked(&ip));
    assert!(is_file_url_ssrf_blocked(&ip, true));
}

#[test]
fn mapped_addresses_are_seen_through() {
    let disguised = mapped(0xa9fe, 0xa9fe);
    let normal = normalize_mapped_ipv4(disguised);
    match normal {
        IpAddr::V4(ip) => assert_eq!(ip.octets, [169, 254, 169, 254]),
        IpAddr::V6(_) => panic!("a mapped address is an IPv4 address"),
    }
    assert!(is_file_url_ssrf_blocked(&disguised, true));
    assert!(is_non_public_ip(&mapped(0x0a00, 0x0001)));
    assert!(!is_non_public_ip(&mapped(0x0808, 0x0808)));
}
