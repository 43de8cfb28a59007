use bugle::net::{is_valid_ip, is_valid_port, IpAddress};

#[test]
fn public_ipv4_addresses_are_valid() {
    assert!(is_valid_ip(&IpAddress::V4(8, 8, 8, 8)));
    assert!(is_valid_ip(&IpAddress::V4(172, 32, 0, 1)));
    assert!(!is_valid_ip(&IpAddress::V4(10, 1, 2, 3)));
    assert!(!is_valid_ip(&IpAddress::V4(172, 16, 0, 1)));
    assert!(!is_valid_ip(&IpAddress::V4(192, 168, 1, 1)));
    assert!(!is_valid_ip(&IpAddress::V4(127, 0, 0, 1)));
    assert!(!is_valid_ip(&IpAddress::V4(169, 254, 3, 4)));
    assert!(!is_valid_ip(&IpAddress::V4(255, 255, 255, 255)));
    assert!(!is_valid_ip(&IpAddress::V4(0, 0, 0, 0)));
    assert!(!is_valid_ip(&IpAddress::V6(0x2001, 0xdb8, 0, 0, 0, 0, 0, 1)));
}

#[test]
fn ports_lie_strictly_between_0_and_65535() {
    assert!(!is_valid_port(0));
    assert!(is_valid_port(1));
    assert!(is_valid_port(7777));
    assert!(is_valid_port(65534));
    assert!(!is_valid_port(65535));
    assert!(!is_valid_port(70000));
}
