use wg_tui::wizard::{
    ClientStep, ServerStep, client_wizard_advance, client_wizard_finish, client_wizard_new,
    server_wizard_advance, server_wizard_finish, server_wizard_new,
};

#[test]
fn client_wizard_walks_all_steps() {
    let w = client_wizard_new();
    assert_eq!(w.step, ClientStep::Name);
    assert!(client_wizard_finish(&w).is_none());

    let (w, ok) = client_wizard_advance(w, "home");
    assert!(ok);
    assert_eq!(w.step, ClientStep::PrivateKey);
    let (w, ok) = client_wizard_advance(w, " PRIV ");
    assert!(ok);
    let (w, ok) = client_wizard_advance(w, "10.0.0.2/32");
    assert!(ok);
    let (w, ok) = client_wizard_advance(w, "");
    assert!(ok, "DNS may be left empty");
    let (w, ok) = client_wizard_advance(w, "PUB");
    assert!(ok);
    let (w, ok) = client_wizard_advance(w, "0.0.0.0/0");
    assert!(ok);
    let (w, ok) = client_wizard_advance(w, "vpn.example.org:51820");
    assert!(ok);
    assert_eq!(w.step, ClientStep::Confirm);

    let draft = client_wizard_finish(&w).unwrap();
    assert_eq!(draft.name, "home");
    assert_eq!(draft.private_key, "PRIV");
    assert_eq!(draft.dns, "");
    assert_eq!(draft.endpoint, "vpn.example.org:51820");
}

#[test]
fn client_wizard_rejects_invalid_fields() {
    let w = client_wizard_new();
    let (w, ok) = client_wizard_advance(w, "bad name");
    assert!(!ok);
    assert_eq!(w.step, ClientStep::Name);
    let (w, ok) = client_wizard_advance(w, "good");
    assert!(ok);
    let (w, ok) = client_wizard_advance(w, "   ");
    assert!(!ok, "an empty private key must not advance");
    assert_eq!(w.step, ClientStep::PrivateKey);
    assert_eq!(w.draft.name, "good");
}

#[test]
fn server_wizard_validates_port() {
    let w = server_wizard_new();
    let (w, ok) = server_wizard_advance(w, "srv");
    assert!(ok);
    let (w, ok) = server_wizard_advance(w, "10.0.0.1/24");
    assert!(ok);
    assert_eq!(w.step, ServerStep::ListenPort);
    let (w, ok) = server_wizard_advance(w, "not-a-port");
    assert!(!ok);
    let (w, ok) = server_wizard_advance(w, "70000");
    assert!(!ok);
    let (w, ok) = server_wizard_advance(w, " 51820 ");
    assert!(ok);
    let (w, ok) = server_wizard_advance(w, "eth0");
    assert!(ok);
    assert_eq!(w.step, ServerStep::Confirm);
    let draft = server_wizard_finish(&w).unwrap();
    assert_eq!(draft.listen_port, "51820");
    assert_eq!(draft.egress_interface, "eth0");
}
