use wg_tui::{Message, Tunnel, check_dependencies, discover_tunnels, format_bytes, truncate_key};

fn names(ts: &[Tunnel]) -> Vec<String> {
    ts.iter().map(|t| t.name.clone()).collect()
}

#[test]
fn discover_sorts_by_name() {
    let entries = vec![
        "zeta.conf".to_string(),
        "alpha.conf".to_string(),
        "mid.conf".to_string(),
    ];
    let ts = discover_tunnels("/etc/wireguard", &entries);
    assert_eq!(names(&ts), vec!["alpha", "mid", "zeta"]);
}

#[test]
fn discover_is_order_independent() {
    let e1 = vec!["b.conf".to_string(), "a.conf".to_string(), "c.conf".to_string()];
    let e2 = vec!["c.conf".to_string(), "b.conf".to_string(), "a.conf".to_string()];
    let t1 = discover_tunnels("/etc/wireguard", &e1);
    let t2 = discover_tunnels("/etc/wireguard", &e2);
    assert_eq!(names(&t1), names(&t2));
    assert_eq!(names(&t1), vec!["a", "b", "c"]);
}

#[test]
fn discover_empty_listing_is_empty() {
    let ts = discover_tunnels("/etc/wireguard", &Vec::new());
    assert!(ts.is_empty());
}

#[test]
fn discover_keeps_only_conf_files() {
    let entries = vec![
        "notes.txt".to_string(),
        "wg0.conf".to_string(),
        ".conf".to_string(),
        "conf".to_string(),
        "a.conf.bak".to_string(),
    ];
    let ts = discover_tunnels("/etc/wireguard", &entries);
    assert_eq!(names(&ts), vec!["wg0"]);
}

#[test]
fn discover_builds_config_paths() {
    let ts = discover_tunnels("/etc/wireguard", &vec!["wg0.conf".to_string()]);
    assert_eq!(ts[0].config_path, "/etc/wireguard/wg0.conf");
    assert!(!ts[0].is_active);
    assert!(ts[0].interface.is_none());
}

#[test]
fn missing_commands_are_reported() {
    assert_eq!(check_dependencies(true, true, true), Vec::<String>::new());
    assert_eq!(check_dependencies(false, true, false), vec!["wg", "ip"]);
    assert_eq!(
        check_dependencies(false, false, false),
        vec!["wg", "wg-quick", "ip"]
    );
}

#[test]
fn short_keys_are_untouched() {
    assert_eq!(truncate_key("shortkey"), "shortkey");
    assert_eq!(truncate_key("12345678901234567890"), "12345678901234567890");
}

#[test]
fn long_keys_are_shortened() {
    let key = "ABCDEFGHIJKLMNOPQRSTUVWXYZabcdef";
    assert_eq!(truncate_key(key), "ABCDEFGH…YZabcdef");
}

#[test]
fn bytes_format_with_two_places() {
    assert_eq!(format_bytes(0), "0 B");
    assert_eq!(format_bytes(1023), "1023 B");
    assert_eq!(format_bytes(1024), "1.00 KiB");
    assert_eq!(format_bytes(1536), "1.50 KiB");
    assert_eq!(format_bytes(10 * 1024 * 1024), "10.00 MiB");
    assert_eq!(format_bytes(3 * 1024 * 1024 * 1024), "3.00 GiB");
}

#[test]
fn bytes_format_rounds_to_nearest() {
    // 1100 B = 1.07421875 KiB.
    assert_eq!(format_bytes(1100), "1.07 KiB");
    // 1101 B = 1.0751953125 KiB rounds up.
    assert_eq!(format_bytes(1101), "1.08 KiB");
    // 1152 B = exactly 1.125 KiB: the tie goes to the even hundredth.
    assert_eq!(format_bytes(1152), "1.12 KiB");
    // 1177.6 B = exactly 1.15 KiB is no tie and stays.
    assert_eq!(format_bytes(1178), "1.15 KiB");
}

#[test]
fn message_text_returns_payload() {
    assert_eq!(Message::Info("a".to_string()).text(), "a");
    assert_eq!(Message::Success("b".to_string()).text(), "b");
    assert_eq!(Message::Error("c".to_string()).text(), "c");
}
