use wg_tui::Error;
use wg_tui::addr::{
    format_ipv4, next_peer_address, parse_entry_host, parse_ipv4, suggest_server_address,
    used_addresses,
};

fn ip(a: u8, b: u8, c: u8, d: u8) -> u32 {
    (a as u32) << 24 | (b as u32) << 16 | (c as u32) << 8 | d as u32
}

#[test]
fn parse_ipv4_accepts_dotted_quads() {
    assert_eq!(parse_ipv4("10.0.0.1"), Some(ip(10, 0, 0, 1)));
    assert_eq!(parse_ipv4("255.255.255.255"), Some(u32::MAX));
    assert_eq!(parse_ipv4("0.0.0.0"), Some(0));
}

#[test]
fn parse_ipv4_rejects_malformed() {
    assert_eq!(parse_ipv4(""), None);
    assert_eq!(parse_ipv4("10.0.0"), None);
    assert_eq!(parse_ipv4("10.0.0.1.2"), None);
    assert_eq!(parse_ipv4("10.0.0.256"), None);
    assert_eq!(parse_ipv4("10.0.0.x"), None);
    assert_eq!(parse_ipv4("10..0.1"), None);
}

#[test]
fn entry_host_ignores_prefix() {
    assert_eq!(parse_entry_host("10.0.0.1/24"), Some(ip(10, 0, 0, 1)));
    assert_eq!(parse_entry_host("10.0.0.1"), Some(ip(10, 0, 0, 1)));
    assert_eq!(parse_entry_host("fd00::1/64"), None);
}

#[test]
fn format_ipv4_round_trips() {
    assert_eq!(format_ipv4(ip(10, 0, 3, 1)), "10.0.3.1");
    assert_eq!(format_ipv4(0), "0.0.0.0");
    assert_eq!(format_ipv4(u32::MAX), "255.255.255.255");
    assert_eq!(parse_ipv4(&format_ipv4(ip(192, 168, 7, 254))), Some(ip(192, 168, 7, 254)));
}

#[test]
fn used_addresses_unions_interface_lists() {
    let c1 = "[Interface]\nAddress = 10.0.0.1/24, fd00::1/64\n".to_string();
    let c2 = "[Interface]\nAddress = 10.0.1.1/24\n[Peer]\nAllowedIPs = 10.0.0.9/32\n".to_string();
    let used = used_addresses(&vec![c1, c2]);
    assert_eq!(used, vec![ip(10, 0, 0, 1), ip(10, 0, 1, 1)]);
}

#[test]
fn next_peer_skips_used_addresses() {
    let base = ip(10, 0, 0, 1);
    let used = vec![base, ip(10, 0, 0, 2), ip(10, 0, 0, 3)];
    let got = next_peer_address(base, &used).unwrap();
    assert_eq!(got, ip(10, 0, 0, 4));
    assert!(!used.contains(&got));
}

#[test]
fn next_peer_never_returns_network_or_broadcast_edge() {
    // Base host .250 leaves only .251 .. .253 to scan.
    let base = ip(10, 0, 0, 250);
    let used = vec![ip(10, 0, 0, 251), ip(10, 0, 0, 252)];
    assert_eq!(next_peer_address(base, &used).unwrap(), ip(10, 0, 0, 253));
    let all = vec![ip(10, 0, 0, 251), ip(10, 0, 0, 252), ip(10, 0, 0, 253)];
    assert!(matches!(
        next_peer_address(base, &all),
        Err(Error::AllocationExhausted)
    ));
}

#[test]
fn next_peer_starts_past_base_host() {
    let base = ip(10, 0, 0, 5);
    let got = next_peer_address(base, &Vec::new()).unwrap();
    assert_eq!(got, ip(10, 0, 0, 6));
}

#[test]
fn next_peer_stays_in_the_same_network() {
    let base = ip(192, 168, 42, 1);
    let got = next_peer_address(base, &Vec::new()).unwrap();
    assert_eq!(got & 0xFFFF_FF00, base & 0xFFFF_FF00);
}

#[test]
fn suggest_takes_first_free_candidate() {
    assert_eq!(suggest_server_address(&Vec::new()), ip(10, 0, 0, 1));
    let used = vec![ip(10, 0, 0, 1), ip(10, 0, 1, 1)];
    assert_eq!(suggest_server_address(&used), ip(10, 0, 2, 1));
}

#[test]
fn suggest_falls_back_when_all_taken() {
    let mut used = Vec::new();
    for i in 0..=255u32 {
        used.push(ip(10, 0, 0, 1) + i * 256);
    }
    assert_eq!(suggest_server_address(&used), ip(10, 0, 0, 1));
}
