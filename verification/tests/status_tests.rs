use wg_tui::{parse_bytes, parse_wg_output};

#[test]
fn parse_two_peers_in_order() {
    let text = "interface: wg0\n\
                public key: SERVERKEY\n\
                listening port: 51820\n\
                \n\
                peer: PEER_ONE\n\
                  endpoint: 203.0.113.5:51820\n\
                  allowed ips: 10.0.0.2/32\n\
                  latest handshake: 1 minute, 3 seconds ago\n\
                  transfer: 1.00 KiB received, 2.00 MiB sent\n\
                \n\
                peer: PEER_TWO\n\
                  allowed ips: 10.0.0.3/32, 10.0.0.4/32\n";
    let info = parse_wg_output(text);
    assert_eq!(info.public_key, "SERVERKEY");
    assert_eq!(info.listen_port, Some(51820));
    assert_eq!(info.peers.len(), 2);
    assert_eq!(info.peers[0].public_key, "PEER_ONE");
    assert_eq!(info.peers[1].public_key, "PEER_TWO");
    assert_eq!(info.peers[0].endpoint.as_deref(), Some("203.0.113.5:51820"));
    assert_eq!(
        info.peers[0].latest_handshake.as_deref(),
        Some("1 minute, 3 seconds ago")
    );
    assert_eq!(info.peers[0].allowed_ips, vec!["10.0.0.2/32".to_string()]);
    assert_eq!(info.peers[0].transfer_rx, 1024);
    assert_eq!(info.peers[0].transfer_tx, 2097152);
    assert_eq!(
        info.peers[1].allowed_ips,
        vec!["10.0.0.3/32".to_string(), "10.0.0.4/32".to_string()]
    );
    assert_eq!(info.peers[1].endpoint, None);
    assert_eq!(info.peers[1].transfer_rx, 0);
    assert_eq!(info.peers[1].transfer_tx, 0);
}

#[test]
fn trailing_peer_is_included() {
    let text = "public key: K\npeer: LAST_PEER";
    let info = parse_wg_output(text);
    assert_eq!(info.peers.len(), 1);
    assert_eq!(info.peers[0].public_key, "LAST_PEER");
}

#[test]
fn no_peers_yields_empty_list() {
    let info = parse_wg_output("public key: K\nlistening port: 1234\n");
    assert_eq!(info.peers.len(), 0);
    assert_eq!(info.public_key, "K");
    assert_eq!(info.listen_port, Some(1234));
}

#[test]
fn peer_count_matches_peer_lines() {
    let mut text = String::from("public key: K\n");
    for i in 0..7 {
        text.push_str(&format!("peer: P{}\n", i));
    }
    let info = parse_wg_output(&text);
    assert_eq!(info.peers.len(), 7);
    for i in 0..7 {
        assert_eq!(info.peers[i].public_key, format!("P{}", i));
    }
}

#[test]
fn lines_without_colon_are_ignored() {
    let info = parse_wg_output("garbage\npublic key: K\n???\n");
    assert_eq!(info.public_key, "K");
    assert_eq!(info.peers.len(), 0);
}

#[test]
fn peer_fields_before_any_peer_are_ignored() {
    let info = parse_wg_output("endpoint: 1.2.3.4:5\nallowed ips: 10.0.0.1/32\npublic key: K\n");
    assert_eq!(info.public_key, "K");
    assert_eq!(info.peers.len(), 0);
}

#[test]
fn public_key_inside_peer_block_is_ignored() {
    let info = parse_wg_output("peer: P\npublic key: SHOULD_NOT_REPLACE\n");
    assert_eq!(info.public_key, "");
    assert_eq!(info.peers.len(), 1);
    assert_eq!(info.peers[0].public_key, "P");
}

#[test]
fn unparsable_listen_port_becomes_none() {
    let info = parse_wg_output("listening port: (none)\n");
    assert_eq!(info.listen_port, None);
    let info = parse_wg_output("listening port: 51820\nlistening port: 99999\n");
    assert_eq!(info.listen_port, None);
}

#[test]
fn transfer_kib_and_mib() {
    assert_eq!(parse_bytes("1.00 KiB received"), 1024);
    assert_eq!(parse_bytes("2.00 MiB sent"), 2097152);
}

#[test]
fn transfer_units_are_binary() {
    assert_eq!(parse_bytes("17 B received"), 17);
    assert_eq!(parse_bytes("1.50 KiB sent"), 1536);
    assert_eq!(parse_bytes("3.00 GiB received"), 3 * 1024 * 1024 * 1024);
    assert_eq!(parse_bytes("1.00 TiB sent"), 1024u64 * 1024 * 1024 * 1024);
}

#[test]
fn transfer_unit_case_is_ignored() {
    assert_eq!(parse_bytes("1 kib"), 1024);
    assert_eq!(parse_bytes("1 KIB"), 1024);
    assert_eq!(parse_bytes("2 mib"), 2 * 1024 * 1024);
}

#[test]
fn transfer_fraction_truncates() {
    // 0.1 KiB = 102.4 bytes; the fraction is dropped.
    assert_eq!(parse_bytes("0.1 KiB"), 102);
    assert_eq!(parse_bytes("0.5 B"), 0);
}

#[test]
fn unparsable_transfer_is_zero() {
    assert_eq!(parse_bytes(""), 0);
    assert_eq!(parse_bytes("garbage"), 0);
    assert_eq!(parse_bytes("12"), 0);
    assert_eq!(parse_bytes("1.0 XB"), 0);
    assert_eq!(parse_bytes("x.y KiB"), 0);
    assert_eq!(parse_bytes(". KiB"), 0);
}

#[test]
fn transfer_line_with_one_part_sets_only_rx() {
    let info = parse_wg_output("peer: P\ntransfer: 4.00 KiB received\n");
    assert_eq!(info.peers[0].transfer_rx, 4096);
    assert_eq!(info.peers[0].transfer_tx, 0);
}
