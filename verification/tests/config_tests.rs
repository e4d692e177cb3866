use wg_tui::config::{
    append_peer_block, classify_server, detect_full_tunnel, read_all_values, read_value,
    split_list,
};

const CLIENT_CONF: &str = "[Interface]\n\
    PrivateKey = PRIV\n\
    Address = 10.0.0.2/32\n\
    # a comment\n\
    ; another comment\n\
    DNS = 1.1.1.1, 8.8.8.8\n\
    \n\
    [Peer]\n\
    PublicKey = PUB\n\
    AllowedIPs = 0.0.0.0/0, ::/0\n\
    Endpoint = vpn.example.org:51820\n";

#[test]
fn read_value_finds_trimmed_value() {
    assert_eq!(
        read_value(CLIENT_CONF, "Interface", "PrivateKey").as_deref(),
        Some("PRIV")
    );
    assert_eq!(
        read_value(CLIENT_CONF, "Peer", "Endpoint").as_deref(),
        Some("vpn.example.org:51820")
    );
}

#[test]
fn read_value_matches_case_insensitively() {
    assert_eq!(
        read_value(CLIENT_CONF, "interface", "privatekey").as_deref(),
        Some("PRIV")
    );
    assert_eq!(
        read_value(CLIENT_CONF, "INTERFACE", "ADDRESS").as_deref(),
        Some("10.0.0.2/32")
    );
}

#[test]
fn read_value_ignores_comments() {
    let text = "[Interface]\n# Address = 1.2.3.4\n; Address = 5.6.7.8\nAddress = 10.0.0.1\n";
    assert_eq!(read_value(text, "Interface", "Address").as_deref(), Some("10.0.0.1"));
}

#[test]
fn read_value_first_match_wins() {
    let text = "[Interface]\nAddress = first\nAddress = second\n";
    assert_eq!(read_value(text, "Interface", "Address").as_deref(), Some("first"));
}

#[test]
fn read_value_respects_sections() {
    assert_eq!(read_value(CLIENT_CONF, "Peer", "PrivateKey"), None);
    assert_eq!(read_value(CLIENT_CONF, "Interface", "PublicKey"), None);
    assert_eq!(read_value(CLIENT_CONF, "Missing", "PrivateKey"), None);
}

#[test]
fn read_all_values_collects_every_peer() {
    let text = "[Peer]\nAllowedIPs = 10.0.0.2/32\n[Peer]\nAllowedIPs = 10.0.0.3/32\n";
    let vals = read_all_values(text, "Peer", "AllowedIPs");
    assert_eq!(vals, vec!["10.0.0.2/32".to_string(), "10.0.0.3/32".to_string()]);
}

#[test]
fn split_list_trims_and_drops_empties() {
    let items = split_list(" 10.0.0.1/24 ,, 1.1.1.1 , ");
    assert_eq!(items, vec!["10.0.0.1/24".to_string(), "1.1.1.1".to_string()]);
    assert_eq!(split_list(""), Vec::<String>::new());
}

#[test]
fn classify_server_on_markers() {
    assert!(!classify_server(CLIENT_CONF));
    let with_save = "[Interface]\nSaveConfig = true\n";
    assert!(classify_server(with_save));
    let with_postup = "[Interface]\nPostUp = iptables -A FORWARD -i %i -j ACCEPT\n";
    assert!(classify_server(with_postup));
    let with_postdown = "[Interface]\nPostDown = iptables -D FORWARD -i %i -j ACCEPT\n";
    assert!(classify_server(with_postdown));
    let marker_in_peer_only = "[Peer]\nPostUp = x\n";
    assert!(!classify_server(marker_in_peer_only));
}

#[test]
fn full_tunnel_on_default_route() {
    let full = "[Peer]\nAllowedIPs = 0.0.0.0/0, ::/0\n";
    assert!(detect_full_tunnel(full));
    let split = "[Peer]\nAllowedIPs = 10.0.0.0/24\n";
    assert!(!detect_full_tunnel(split));
}

#[test]
fn full_tunnel_ipv6_only_counts() {
    let v6 = "[Peer]\nAllowedIPs = ::/0\n";
    assert!(detect_full_tunnel(v6));
}

#[test]
fn full_tunnel_in_second_peer_counts() {
    let text = "[Peer]\nAllowedIPs = 10.0.0.2/32\n[Peer]\nAllowedIPs = 0.0.0.0/0\n";
    assert!(detect_full_tunnel(text));
}

#[test]
fn full_tunnel_ignores_interface_section() {
    let text = "[Interface]\nAllowedIPs = 0.0.0.0/0\n";
    assert!(!detect_full_tunnel(text));
}

#[test]
fn append_adds_newline_when_missing() {
    assert_eq!(append_peer_block("a = b", "[Peer]\n"), "a = b\n[Peer]\n");
    assert_eq!(append_peer_block("a = b\n", "[Peer]\n"), "a = b\n[Peer]\n");
    assert_eq!(append_peer_block("", "[Peer]\n"), "[Peer]\n");
}
