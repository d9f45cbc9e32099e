use specs_ultra::net::{
    counter_delta, display_order, iface_kind, ipv4_summary, is_active, kind_label, mac_is_shown,
    parse_iface_addrs, IfaceKind,
};

fn reference_kind(name: &str) -> &'static str {
    let n = name.to_lowercase();
    if n == "lo" || n.starts_with("lo") {
        "Loopback"
    } else if n.starts_with("wl") || n.contains("wifi") || n.contains("wi-fi") {
        "Wi-Fi"
    } else if n.starts_with("eth") || n.starts_with("en") || n.starts_with("em") {
        "Ethernet"
    } else if n.contains("docker") || n.contains("br-") || n.contains("veth") || n.contains("virbr") {
        "Virtual"
    } else if n.starts_with("tun") || n.starts_with("tap") {
        "VPN/Tunnel"
    } else {
        "Other"
    }
}

fn reference_rank(kind: &str) -> u8 {
    match kind {
        "Ethernet" => 0,
        "Wi-Fi" => 1,
        "VPN/Tunnel" => 2,
        "Other" => 3,
        "Virtual" => 4,
        _ => 5,
    }
}

const NAMES: [&str; 14] = [
    "lo", "eth0", "wlp3s0", "docker0", "br-1234", "tun0", "tap1", "enp0s31f6", "Wi-Fi", "veth9a",
    "virbr0", "utun3", "Ethernet 2", "em1",
];

#[test]
fn kinds_agree_with_reference() {
    for n in NAMES {
        assert_eq!(kind_label(iface_kind(n)), reference_kind(n), "{}", n);
    }
    assert_eq!(iface_kind("lo0"), IfaceKind::Loopback);
    assert_eq!(iface_kind("WLAN"), IfaceKind::WiFi);
}

#[test]
fn display_order_is_the_stable_sort_by_rank() {
    let kinds: Vec<IfaceKind> = NAMES.iter().map(|n| iface_kind(n)).collect();
    let order = display_order(&kinds);
    let mut want: Vec<usize> = (0..NAMES.len()).collect();
    want.sort_by_key(|&i| reference_rank(reference_kind(NAMES[i])));
    assert_eq!(order, want);
    assert_eq!(kind_label(kinds[order[0]]), "Ethernet");
    assert_eq!(kind_label(kinds[*order.last().unwrap()]), "Loopback");
}

#[test]
fn display_order_keeps_equal_kinds_in_place() {
    let kinds = vec![IfaceKind::Other, IfaceKind::Ethernet, IfaceKind::Other, IfaceKind::Ethernet];
    assert_eq!(display_order(&kinds), vec![1, 3, 0, 2]);
    assert_eq!(display_order(&vec![]), Vec::<usize>::new());
}

#[test]
fn addresses_from_ip_addr() {
    let out = "2: enp0s31f6: <BROADCAST,MULTICAST,UP,LOWER_UP> mtu 1500 qdisc fq_codel state UP group default qlen 1000\n    link/ether 8c:16:45:aa:bb:cc brd ff:ff:ff:ff:ff:ff\n    inet 192.168.1.23/24 brd 192.168.1.255 scope global dynamic noprefixroute enp0s31f6\n       valid_lft 85999sec preferred_lft 85999sec\n    inet6 fe80::1c2b:3cff:fe4d:5e6f/64 scope link noprefixroute \n       valid_lft forever preferred_lft forever\n    inet 10.0.0.5/8 scope global secondary enp0s31f6\n";
    let (v4, v6) = parse_iface_addrs(out.as_bytes());
    assert_eq!(v4, vec!["192.168.1.23/24".to_string(), "10.0.0.5/8".to_string()]);
    assert_eq!(v6, vec!["fe80::1c2b:3cff:fe4d:5e6f/64".to_string()]);
    let (v4, v6) = parse_iface_addrs(b"\tinet 127.0.0.1 netmask 0xff000000\n\tinet6 ::1 prefixlen 128\n\tinet\n");
    assert_eq!(v4, vec!["127.0.0.1".to_string()]);
    assert_eq!(v6, vec!["::1".to_string()]);
}

#[test]
fn counters_and_flags() {
    assert_eq!(counter_delta(1500, 1000), 500);
    assert_eq!(counter_delta(10, 1000), 0);
    assert!(is_active(0, 1));
    assert!(!is_active(0, 0));
    assert!(mac_is_shown("8c:16:45:aa:bb:cc"));
    assert!(!mac_is_shown("00:00:00:00:00:00"));
    assert!(!mac_is_shown(""));
}

#[test]
fn ipv4_line() {
    assert_eq!(ipv4_summary(&vec![]), "None (check ip addr)");
    assert_eq!(ipv4_summary(&vec!["1.2.3.4/24".to_string()]), "1.2.3.4/24");
    let v = vec!["a".to_string(), "b".to_string(), "c".to_string()];
    assert_eq!(ipv4_summary(&v), v.join(", "));
}
