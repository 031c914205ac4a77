use cc_proxy::netaddr::{is_ipv6_unicast_link_local, is_usable_ip, is_virtual_iface, pick_local_ip, proxy_base_url, LocalIp};

#[test]
fn virtual_interfaces() {
    for name in ["lo", "LO", "localhost", "docker0", "br-1a2b", "veth12", "virbr0", "vmnet8", "tailscale0", "wg0", "tun0", "tap1", "zt3"] {
        assert!(is_virtual_iface(name), "{}", name);
    }
    for name in ["eth0", "en0", "wlan0", "l"] {
        assert!(!is_virtual_iface(name), "{}", name);
    }
}

#[test]
fn usable_addresses() {
    assert!(is_usable_ip(&LocalIp::V4([192, 168, 1, 10])));
    assert!(!is_usable_ip(&LocalIp::V4([127, 0, 0, 1])));
    assert!(!is_usable_ip(&LocalIp::V4([169, 254, 3, 4])));
    assert!(!is_usable_ip(&LocalIp::V6([0, 0, 0, 0, 0, 0, 0, 1])));
    assert!(!is_usable_ip(&LocalIp::V6([0; 8])));
    assert!(!is_usable_ip(&LocalIp::V6([0xfe80, 0, 0, 0, 0, 0, 0, 1])));
    assert!(is_usable_ip(&LocalIp::V6([0xfd00, 0, 0, 0, 0, 0, 0, 1])));
    assert!(is_ipv6_unicast_link_local(&[0xfebf, 0, 0, 0, 0, 0, 0, 0]));
    assert!(!is_ipv6_unicast_link_local(&[0xfec0, 0, 0, 0, 0, 0, 0, 0]));
}

#[test]
fn picks_ipv4_then_ipv6_then_fallback() {
    let v6 = LocalIp::V6([0x2001, 0xdb8, 0, 0, 0, 0, 0, 1]);
    let v4 = LocalIp::V4([10, 0, 0, 5]);
    let list = vec![
        ("lo".to_string(), LocalIp::V4([127, 0, 0, 1])),
        ("eth0".to_string(), v6),
        ("docker0".to_string(), LocalIp::V4([172, 17, 0, 1])),
        ("eth1".to_string(), v4),
    ];
    assert_eq!(pick_local_ip(&list, None), Some(v4));
    assert_eq!(pick_local_ip(&list[..3].to_vec(), None), Some(v6));
    let fallback = LocalIp::V4([192, 168, 0, 2]);
    assert_eq!(pick_local_ip(&vec![], Some(fallback)), Some(fallback));
    assert_eq!(pick_local_ip(&vec![], Some(LocalIp::V4([127, 0, 0, 1]))), None);
}

#[test]
fn base_url() {
    assert_eq!(proxy_base_url("10.0.0.5:18100"), "http://10.0.0.5:18100");
}
