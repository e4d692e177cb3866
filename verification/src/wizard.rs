//! The creation wizards: linear step sequences where each step owns one
//! draft field, validates the entered text, and advances only when that
//! text is acceptable; confirming at the terminal step hands the caller
//! the fully assembled draft.

use vstd::prelude::*;

use crate::lifecycle::{NewServerDraft, NewTunnelDraft, ServerDraftV, TunnelDraftV, valid_name};
use crate::status::parse_port;
use crate::text::{trim_spec, trim_str};

verus! {

/// The steps of the client-tunnel wizard, in order.
#[derive(Debug, Clone, Copy, PartialEq, Eq, Structural)]
pub enum ClientStep {
    Name,
    PrivateKey,
    Address,
    Dns,
    PeerPublicKey,
    AllowedIps,
    Endpoint,
    Confirm,
}

/// The step after `s`; the terminal step stays put.
pub open spec fn client_next_step(s: ClientStep) -> ClientStep {
    match s {
        ClientStep::Name => ClientStep::PrivateKey,
        ClientStep::PrivateKey => ClientStep::Address,
        ClientStep::Address => ClientStep::Dns,
        ClientStep::Dns => ClientStep::PeerPublicKey,
        ClientStep::PeerPublicKey => ClientStep::AllowedIps,
        ClientStep::AllowedIps => ClientStep::Endpoint,
        ClientStep::Endpoint => ClientStep::Confirm,
        ClientStep::Confirm => ClientStep::Confirm,
    }
}

/// Whether `input` satisfies the validator of step `s`: the name must be
/// a valid tunnel name, DNS may be empty, every other field must be
/// non-empty after trimming, and the terminal step takes no field.
pub open spec fn client_field_ok(s: ClientStep, input: Seq<char>) -> bool {
    match s {
        ClientStep::Name => valid_name(trim_spec(input)),
        ClientStep::Dns => true,
        ClientStep::Confirm => false,
        _ => trim_spec(input).len() > 0,
    }
}

/// The draft with the field of step `s` set to `v`.
pub open spec fn set_client_field(d: TunnelDraftV, s: ClientStep, v: Seq<char>) -> TunnelDraftV {
    match s {
        ClientStep::Name => TunnelDraftV { name: v, ..d },
        ClientStep::PrivateKey => TunnelDraftV { private_key: v, ..d },
        ClientStep::Address => TunnelDraftV { address: v, ..d },
        ClientStep::Dns => TunnelDraftV { dns: v, ..d },
        ClientStep::PeerPublicKey => TunnelDraftV { peer_public_key: v, ..d },
        ClientStep::AllowedIps => TunnelDraftV { allowed_ips: v, ..d },
        ClientStep::Endpoint => TunnelDraftV { endpoint: v, ..d },
        ClientStep::Confirm => d,
    }
}

/// A client-tunnel wizard in progress.
#[derive(Debug, Clone)]
pub struct ClientWizard {
    pub step: ClientStep,
    pub draft: NewTunnelDraft,
}

/// Starts the client wizard at its first step with an empty draft.
pub fn client_wizard_new() -> (r: ClientWizard)
    ensures
        r.step == ClientStep::Name,
        r.draft@ == (TunnelDraftV {
            name: Seq::<char>::empty(),
            private_key: Seq::<char>::empty(),
            address: Seq::<char>::empty(),
            dns: Seq::<char>::empty(),
            peer_public_key: Seq::<char>::empty(),
            allowed_ips: Seq::<char>::empty(),
            endpoint: Seq::<char>::empty(),
        }),
{
    ClientWizard {
        step: ClientStep::Name,
        draft: NewTunnelDraft {
            name: String::new(),
            private_key: String::new(),
            address: String::new(),
            dns: String::new(),
            peer_public_key: String::new(),
            allowed_ips: String::new(),
            endpoint: String::new(),
        },
    }
}

/// Offers `input` to the wizard's current step.  When the step's
/// validator accepts the trimmed text, the field is stored and the wizard
/// advances; otherwise nothing changes and `false` comes back.
pub fn client_wizard_advance(w: ClientWizard, input: &str) -> (r: (ClientWizard, bool))
    ensures
        r.1 == client_field_ok(w.step, input@),
        r.1 ==> r.0.step == client_next_step(w.step) && r.0.draft@ == set_client_field(
            w.draft@,
            w.step,
            trim_spec(input@),
        ),
        !r.1 ==> r.0.step == w.step && r.0.draft@ == w.draft@,
{
    let ClientWizard { step, draft } = w;
    let t = trim_str(input);
    let ok = match step {
        ClientStep::Name => crate::lifecycle::name_valid(t.as_str()),
        ClientStep::Dns => true,
        ClientStep::Confirm => false,
        _ => !t.as_str().is_empty(),
    };
    if !ok {
        return (ClientWizard { step, draft }, false);
    }
    let mut draft = draft;
    let next = match step {
        ClientStep::Name => {
            draft.name = t;
            ClientStep::PrivateKey
        },
        ClientStep::PrivateKey => {
            draft.private_key = t;
            ClientStep::Address
        },
        ClientStep::Address => {
            draft.address = t;
            ClientStep::Dns
        },
        ClientStep::Dns => {
            draft.dns = t;
            ClientStep::PeerPublicKey
        },
        ClientStep::PeerPublicKey => {
            draft.peer_public_key = t;
            ClientStep::AllowedIps
        },
        ClientStep::AllowedIps => {
            draft.allowed_ips = t;
            ClientStep::Endpoint
        },
        ClientStep::Endpoint => {
            draft.endpoint = t;
            ClientStep::Confirm
        },
        ClientStep::Confirm => ClientStep::Confirm,
    };
    (ClientWizard { step: next, draft }, true)
}

/// The assembled draft, once every step has validated.
pub fn client_wizard_finish(w: &ClientWizard) -> (r: Option<&NewTunnelDraft>)
    ensures
        w.step == ClientStep::Confirm <==> r is Some,
        match r {
            Some(d) => d@ == w.draft@,
            None => true,
        },
{
    if let ClientStep::Confirm = w.step {
        Some(&w.draft)
    } else {
        None
    }
}

/// The steps of the server-tunnel wizard, in order.  The private key is
/// not entered: the caller generates it when the draft is confirmed.
#[derive(Debug, Clone, Copy, PartialEq, Eq, Structural)]
pub enum ServerStep {
    Name,
    Address,
    ListenPort,
    EgressInterface,
    Confirm,
}

/// The step after `s`; the terminal step stays put.
pub open spec fn server_next_step(s: ServerStep) -> ServerStep {
    match s {
        ServerStep::Name => ServerStep::Address,
        ServerStep::Address => ServerStep::ListenPort,
        ServerStep::ListenPort => ServerStep::EgressInterface,
        ServerStep::EgressInterface => ServerStep::Confirm,
        ServerStep::Confirm => ServerStep::Confirm,
    }
}

/// Whether `input` satisfies the validator of step `s`: the name must be
/// a valid tunnel name, the listen port a 16-bit integer, the rest
/// non-empty after trimming.
pub open spec fn server_field_ok(s: ServerStep, input: Seq<char>) -> bool {
    match s {
        ServerStep::Name => valid_name(trim_spec(input)),
        ServerStep::ListenPort => parse_port(trim_spec(input)) is Some,
        ServerStep::Confirm => false,
        _ => trim_spec(input).len() > 0,
    }
}

/// The draft with the field of step `s` set to `v`.
pub open spec fn set_server_field(d: ServerDraftV, s: ServerStep, v: Seq<char>) -> ServerDraftV {
    match s {
        ServerStep::Name => ServerDraftV { name: v, ..d },
        ServerStep::Address => ServerDraftV { address: v, ..d },
        ServerStep::ListenPort => ServerDraftV { listen_port: v, ..d },
        ServerStep::EgressInterface => ServerDraftV { egress_interface: v, ..d },
        ServerStep::Confirm => d,
    }
}

/// A server-tunnel wizard in progress.
#[derive(Debug, Clone)]
pub struct ServerWizard {
    pub step: ServerStep,
    pub draft: NewServerDraft,
}

/// Starts the server wizard at its first step with an empty draft.
pub fn server_wizard_new() -> (r: ServerWizard)
    ensures
        r.step == ServerStep::Name,
        r.draft@ == (ServerDraftV {
            name: Seq::<char>::empty(),
            address: Seq::<char>::empty(),
            listen_port: Seq::<char>::empty(),
            egress_interface: Seq::<char>::empty(),
            private_key: Seq::<char>::empty(),
        }),
{
    ServerWizard {
        step: ServerStep::Name,
        draft: NewServerDraft {
            name: String::new(),
            address: String::new(),
            listen_port: String::new(),
            egress_interface: String::new(),
            private_key: String::new(),
        },
    }
}

/// Offers `input` to the wizard's current step, advancing only when the
/// step's validator accepts it.
pub fn server_wizard_advance(w: ServerWizard, input: &str) -> (r: (ServerWizard, bool))
    ensures
        r.1 == server_field_ok(w.step, input@),
        r.1 ==> r.0.step == server_next_step(w.step) && r.0.draft@ == set_server_field(
            w.draft@,
            w.step,
            trim_spec(input@),
        ),
        !r.1 ==> r.0.step == w.step && r.0.draft@ == w.draft@,
{
    let ServerWizard { step, draft } = w;
    let t = trim_str(input);
    let ok = match step {
        ServerStep::Name => crate::lifecycle::name_valid(t.as_str()),
        ServerStep::ListenPort => {
            let cs = crate::text::to_chars(t.as_str());
            let n = cs.len();
            proof {
                assert(cs@.subrange(0, n as int) =~= trim_spec(input@));
            }
            crate::text::parse_dec_bounded(&cs, 0, n, 65535).is_some()
        },
        ServerStep::Confirm => false,
        _ => !t.as_str().is_empty(),
    };
    if !ok {
        return (ServerWizard { step, draft }, false);
    }
    let mut draft = draft;
    let next = match step {
        ServerStep::Name => {
            draft.name = t;
            ServerStep::Address
        },
        ServerStep::Address => {
            draft.address = t;
            ServerStep::ListenPort
        },
        ServerStep::ListenPort => {
            draft.listen_port = t;
            ServerStep::EgressInterface
        },
        ServerStep::EgressInterface => {
            draft.egress_interface = t;
            ServerStep::Confirm
        },
        ServerStep::Confirm => ServerStep::Confirm,
    };
    (ServerWizard { step: next, draft }, true)
}

/// The assembled draft, once every step has validated.
pub fn server_wizard_finish(w: &ServerWizard) -> (r: Option<&NewServerDraft>)
    ensures
        w.step == ServerStep::Confirm <==> r is Some,
        match r {
            Some(d) => d@ == w.draft@,
            None => true,
        },
{
    if let ServerStep::Confirm = w.step {
        Some(&w.draft)
    } else {
        None
    }
}

} // verus!
