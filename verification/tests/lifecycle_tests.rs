use wg_tui::Error;
use wg_tui::lifecycle::{
    DeleteState, NewServerDraft, NewTunnelDraft, ResyncState, StepOutcome,
    add_server_peer_finish, add_server_peer_plan, create_client_tunnel, create_server_tunnel,
    delete_begin, delete_next, expand_path, import_tunnel, resync_begin, resync_next,
    validate_key_output, wg_quick_outcome,
};

fn client_draft() -> NewTunnelDraft {
    NewTunnelDraft {
        name: "home".to_string(),
        private_key: " PRIV ".to_string(),
        address: "10.0.0.2/32".to_string(),
        dns: "".to_string(),
        peer_public_key: "PUB".to_string(),
        allowed_ips: "0.0.0.0/0".to_string(),
        endpoint: "vpn.example.org:51820".to_string(),
    }
}

#[test]
fn client_config_is_rendered_exactly() {
    let text = create_client_tunnel(&client_draft(), false).unwrap();
    assert_eq!(
        text,
        "[Interface]\nPrivateKey = PRIV\nAddress = 10.0.0.2/32\n\n\
         [Peer]\nPublicKey = PUB\nAllowedIPs = 0.0.0.0/0\nEndpoint = vpn.example.org:51820\n"
    );
}

#[test]
fn client_config_includes_dns_when_given() {
    let mut d = client_draft();
    d.dns = "1.1.1.1".to_string();
    let text = create_client_tunnel(&d, false).unwrap();
    assert!(text.contains("\nDNS = 1.1.1.1\n"));
}

#[test]
fn empty_peer_public_key_is_validation() {
    let mut d = client_draft();
    d.peer_public_key = "  ".to_string();
    match create_client_tunnel(&d, false) {
        Err(Error::Validation(m)) => assert_eq!(m, "Peer PublicKey must not be empty"),
        other => panic!("expected Validation, got {:?}", other),
    }
}

#[test]
fn invalid_names_are_rejected() {
    for bad in ["", "has space", "has/slash", "tab\tname"] {
        let mut d = client_draft();
        d.name = bad.to_string();
        assert!(matches!(create_client_tunnel(&d, false), Err(Error::Validation(_))));
    }
}

#[test]
fn client_collision_is_already_exists() {
    match create_client_tunnel(&client_draft(), true) {
        Err(Error::AlreadyExists(m)) => assert_eq!(m, "Tunnel 'home' already exists"),
        other => panic!("expected AlreadyExists, got {:?}", other),
    }
}

fn server_draft() -> NewServerDraft {
    NewServerDraft {
        name: "srv".to_string(),
        address: "10.0.0.1/24".to_string(),
        listen_port: "51820".to_string(),
        egress_interface: "eth0".to_string(),
        private_key: "SPRIV".to_string(),
    }
}

#[test]
fn server_config_is_rendered_exactly() {
    let text = create_server_tunnel(&server_draft(), false).unwrap();
    assert_eq!(
        text,
        "[Interface]\nAddress = 10.0.0.1/24\nSaveConfig = true\n\
         PostUp = iptables -A FORWARD -i %i -j ACCEPT; iptables -t nat -A POSTROUTING -o eth0 -j MASQUERADE\n\
         PostDown = iptables -D FORWARD -i %i -j ACCEPT; iptables -t nat -D POSTROUTING -o eth0 -j MASQUERADE\n\
         ListenPort = 51820\nPrivateKey = SPRIV\n"
    );
}

#[test]
fn server_port_must_be_u16() {
    for bad in ["", "65536", "port", "-1", "12.5"] {
        let mut d = server_draft();
        d.listen_port = bad.to_string();
        match create_server_tunnel(&d, false) {
            Err(Error::Validation(m)) => {
                assert_eq!(m, "ListenPort must be an integer between 0 and 65535")
            }
            other => panic!("expected Validation, got {:?}", other),
        }
    }
}

#[test]
fn import_collision_is_already_exists() {
    match import_tunnel("/tmp/foo.conf", true, true) {
        Err(Error::AlreadyExists(m)) => assert_eq!(m, "Tunnel 'foo' already exists"),
        other => panic!("expected AlreadyExists, got {:?}", other),
    }
}

#[test]
fn import_derives_name_from_stem() {
    assert_eq!(import_tunnel("/tmp/foo.conf", true, false).unwrap(), "foo");
    assert_eq!(import_tunnel("rel/a.b.conf", true, false).unwrap(), "a.b");
    assert_eq!(import_tunnel("bare.conf", true, false).unwrap(), "bare");
}

#[test]
fn import_requires_existing_source() {
    match import_tunnel("/tmp/foo.conf", false, false) {
        Err(Error::NotFound(m)) => assert_eq!(m, "Source file does not exist"),
        other => panic!("expected NotFound, got {:?}", other),
    }
}

#[test]
fn import_requires_conf_extension() {
    for bad in ["/tmp/foo.txt", "/tmp/foo", "/tmp/.conf", "/dir.conf/file"] {
        assert!(matches!(import_tunnel(bad, true, false), Err(Error::Validation(_))));
    }
}

#[test]
fn expand_path_resolves_home() {
    assert_eq!(expand_path(" ~/wg/a.conf ", Some("/root")), "/root/wg/a.conf");
    assert_eq!(expand_path("~/a.conf", None), "~/a.conf");
    assert_eq!(expand_path("  /etc/wireguard/a.conf  ", Some("/root")), "/etc/wireguard/a.conf");
}

#[test]
fn wg_quick_outcome_carries_trimmed_stderr() {
    assert!(wg_quick_outcome("up", true, "ignored").is_ok());
    match wg_quick_outcome("up", false, "  boom  \n") {
        Err(Error::SubprocessFailure(m)) => assert_eq!(m, "boom"),
        other => panic!("expected SubprocessFailure, got {:?}", other),
    }
    match wg_quick_outcome("down", false, "   ") {
        Err(Error::SubprocessFailure(m)) => assert_eq!(m, "wg-quick down failed"),
        other => panic!("expected SubprocessFailure, got {:?}", other),
    }
}

#[test]
fn key_output_is_trimmed_or_fails() {
    assert_eq!(validate_key_output("wg genkey", true, "KEY\n", "").unwrap(), "KEY");
    assert!(matches!(
        validate_key_output("wg genkey", false, "", "err"),
        Err(Error::SubprocessFailure(_))
    ));
    match validate_key_output("wg genkey", true, "  \n", "") {
        Err(Error::SubprocessFailure(m)) => assert_eq!(m, "wg genkey produced no output"),
        other => panic!("expected SubprocessFailure, got {:?}", other),
    }
}

#[test]
fn delete_inactive_goes_straight_to_removal() {
    let s = delete_begin(false);
    assert!(matches!(s, DeleteState::RemoveFile));
    let s = delete_next(s, StepOutcome::Success);
    assert!(matches!(s, DeleteState::Done));
}

#[test]
fn delete_active_brings_down_first() {
    let s = delete_begin(true);
    assert!(matches!(s, DeleteState::BringDown));
    let s = delete_next(s, StepOutcome::Success);
    assert!(matches!(s, DeleteState::RemoveFile));
}

#[test]
fn failed_bring_down_never_reaches_removal() {
    let s = delete_begin(true);
    let s = delete_next(s, StepOutcome::Failure("device busy".to_string()));
    match s {
        DeleteState::Failed(Error::SubprocessFailure(m)) => assert_eq!(m, "device busy"),
        other => panic!("expected Failed(SubprocessFailure), got {:?}", other),
    }
}

#[test]
fn resync_runs_through_its_steps() {
    let s = resync_begin();
    assert!(matches!(s, ResyncState::WriteTemp));
    let s = resync_next(s, StepOutcome::Success);
    assert!(matches!(s, ResyncState::StripConfig));
    let s = resync_next(s, StepOutcome::Success);
    assert!(matches!(s, ResyncState::Reconcile));
    let s = resync_next(s, StepOutcome::Success);
    assert!(matches!(s, ResyncState::Cleanup));
    let s = resync_next(s, StepOutcome::Success);
    assert!(matches!(s, ResyncState::Done));
}

#[test]
fn resync_cleanup_failure_is_ignored() {
    let s = resync_next(ResyncState::Cleanup, StepOutcome::Failure("unlink failed".to_string()));
    assert!(matches!(s, ResyncState::Done));
}

#[test]
fn resync_reconcile_failure_stops() {
    let s = resync_next(ResyncState::Reconcile, StepOutcome::Failure("bad config".to_string()));
    match s {
        ResyncState::Failed(Error::SubprocessFailure(m)) => assert_eq!(m, "bad config"),
        other => panic!("expected Failed(SubprocessFailure), got {:?}", other),
    }
}

fn server_conf() -> String {
    "[Interface]\nAddress = 10.0.0.1/24\nSaveConfig = true\nListenPort = 51820\nPrivateKey = SPRIV\n"
        .to_string()
}

#[test]
fn add_peer_allocates_next_host() {
    let mut conf = server_conf();
    conf.push_str("[Peer]\nPublicKey = A\nAllowedIPs = 10.0.0.2/32\n");
    let addr = add_server_peer_plan(&conf).unwrap();
    assert_eq!(addr, (10u32 << 24) | 3);
}

#[test]
fn add_peer_rejects_non_server() {
    let conf = "[Interface]\nAddress = 10.0.0.2/32\nPrivateKey = X\n";
    match add_server_peer_plan(conf) {
        Err(Error::Validation(m)) => assert_eq!(m, "Not a server configuration"),
        other => panic!("expected Validation, got {:?}", other),
    }
}

#[test]
fn add_peer_requires_ipv4_interface_address() {
    let conf = "[Interface]\nAddress = fd00::1/64\nSaveConfig = true\n";
    match add_server_peer_plan(conf) {
        Err(Error::Validation(m)) => assert_eq!(m, "No IPv4 address on the Interface section"),
        other => panic!("expected Validation, got {:?}", other),
    }
}

#[test]
fn add_peer_exhausts_full_network() {
    let mut conf = server_conf();
    for host in 2..=253u32 {
        conf.push_str(&format!("[Peer]\nAllowedIPs = 10.0.0.{}/32\n", host));
    }
    assert!(matches!(add_server_peer_plan(&conf), Err(Error::AllocationExhausted)));
}

#[test]
fn add_peer_finish_builds_block_and_template() {
    let conf = server_conf();
    let addr = (10u32 << 24) | 2;
    let (new_conf, pc) = add_server_peer_finish(&conf, "PEERPUB\n", "PEERPRIV", "SRVPUB", addr);
    assert_eq!(
        new_conf,
        format!("{}[Peer]\nPublicKey = PEERPUB\nAllowedIPs = 10.0.0.2/32\n", conf)
    );
    assert_eq!(
        pc.content,
        "[Interface]\nPrivateKey = PEERPRIV\nAddress = 10.0.0.2/32\nDNS = {{DNS}}\n\n\
         [Peer]\nPublicKey = SRVPUB\nAllowedIPs = 0.0.0.0/0\nEndpoint = {{ENDPOINT}}\n"
    );
    assert_eq!(pc.suggested_filename, "peer-10.0.0.2-51820.conf");
    assert_eq!(pc.listen_port.as_deref(), Some("51820"));
}

#[test]
fn add_peer_finish_without_port_omits_it() {
    let conf = "[Interface]\nAddress = 10.0.0.1/24\nSaveConfig = true\n";
    let addr = (10u32 << 24) | 2;
    let (_, pc) = add_server_peer_finish(conf, "P", "K", "S", addr);
    assert_eq!(pc.suggested_filename, "peer-10.0.0.2.conf");
    assert_eq!(pc.listen_port, None);
}

#[test]
fn failed_removal_is_io() {
    let s = delete_next(DeleteState::RemoveFile, StepOutcome::Failure("permission denied".to_string()));
    match s {
        DeleteState::Failed(Error::Io(m)) => assert_eq!(m, "permission denied"),
        other => panic!("expected Failed(Io), got {:?}", other),
    }
}

#[test]
fn error_messages_are_exposed() {
    assert_eq!(Error::NotFound("x".to_string()).message(), "x");
    assert_eq!(Error::Validation("v".to_string()).message(), "v");
    assert_eq!(
        Error::AllocationExhausted.message(),
        "No free addresses remain in range"
    );
}
