//! The lifecycle decisions: validating and rendering new tunnel
//! configurations, importing files, ordering the steps of deletion and
//! live resynchronisation, shaping subprocess outcomes, and provisioning
//! a new peer on a server tunnel.

use vstd::prelude::*;

use crate::{Error, ErrorV};
use crate::addr::{
    entry_host, host_of, ipv4_str, net_of, next_peer_address, parse_entry_host,
};
use crate::config::{
    append_block_spec, append_peer_block, classify_server, read_all_values, read_value,
    spec_classify_server, spec_read_all_values, spec_read_value, split_list, split_list_spec,
};
use crate::text::{
    ends_with, extract, find_char, is_space, is_space_char, parse_dec_bounded, range_ends_with,
    starts_with, to_chars, trim_spec, trim_str,
};

verus! {

/// The view of a `Result` whose success is a `String`.
pub open spec fn res_view(r: Result<String, Error>) -> Result<Seq<char>, ErrorV> {
    match r {
        Ok(s) => Ok(s@),
        Err(e) => Err(e@),
    }
}

/// A valid tunnel name: non-empty, no whitespace, no `/`.
pub open spec fn valid_name(n: Seq<char>) -> bool {
    n.len() > 0 && (forall|i: int| 0 <= i < n.len() ==> !is_space_char(n[i]) && n[i] != '/')
}

/// Checks a tunnel name for validity.
pub fn name_valid(n: &str) -> (r: bool)
    ensures
        r == valid_name(n@),
{
    let cs = to_chars(n);
    let len = cs.len();
    proof {
        assert(cs@ =~= n@);
    }
    if len == 0 {
        return false;
    }
    let mut i: usize = 0;
    while i < len
        invariant
            i <= len == cs.len(),
            cs@ == n@,
            forall|k: int| 0 <= k < i ==> !is_space_char(n@[k]) && n@[k] != '/',
        decreases len - i,
    {
        let c = cs[i];
        if is_space(c) || c == '/' {
            return false;
        }
        i = i + 1;
    }
    true
}

/// What the user enters to create a client tunnel; every field is raw
/// and is trimmed on use.  An empty `dns` means no DNS line is written.
#[derive(Debug, Clone)]
pub struct NewTunnelDraft {
    pub name: String,
    pub private_key: String,
    pub address: String,
    pub dns: String,
    pub peer_public_key: String,
    pub allowed_ips: String,
    pub endpoint: String,
}

/// The mathematical shape of a `NewTunnelDraft`.
pub struct TunnelDraftV {
    pub name: Seq<char>,
    pub private_key: Seq<char>,
    pub address: Seq<char>,
    pub dns: Seq<char>,
    pub peer_public_key: Seq<char>,
    pub allowed_ips: Seq<char>,
    pub endpoint: Seq<char>,
}

impl View for NewTunnelDraft {
    type V = TunnelDraftV;

    open spec fn view(&self) -> TunnelDraftV {
        TunnelDraftV {
            name: self.name@,
            private_key: self.private_key@,
            address: self.address@,
            dns: self.dns@,
            peer_public_key: self.peer_public_key@,
            allowed_ips: self.allowed_ips@,
            endpoint: self.endpoint@,
        }
    }
}

/// What the user enters to create a server tunnel.
#[derive(Debug, Clone)]
pub struct NewServerDraft {
    pub name: String,
    pub address: String,
    pub listen_port: String,
    pub egress_interface: String,
    pub private_key: String,
}

/// The mathematical shape of a `NewServerDraft`.
pub struct ServerDraftV {
    pub name: Seq<char>,
    pub address: Seq<char>,
    pub listen_port: Seq<char>,
    pub egress_interface: Seq<char>,
    pub private_key: Seq<char>,
}

impl View for NewServerDraft {
    type V = ServerDraftV;

    open spec fn view(&self) -> ServerDraftV {
        ServerDraftV {
            name: self.name@,
            address: self.address@,
            listen_port: self.listen_port@,
            egress_interface: self.egress_interface@,
            private_key: self.private_key@,
        }
    }
}

/// The client configuration text written for a draft.
pub open spec fn render_client_spec(d: TunnelDraftV) -> Seq<char> {
    "[Interface]\nPrivateKey = "@ + trim_spec(d.private_key) + "\nAddress = "@ + trim_spec(
        d.address,
    ) + (if trim_spec(d.dns).len() > 0 {
        "\nDNS = "@ + trim_spec(d.dns)
    } else {
        Seq::<char>::empty()
    }) + "\n\n[Peer]\nPublicKey = "@ + trim_spec(d.peer_public_key) + "\nAllowedIPs = "@
        + trim_spec(d.allowed_ips) + "\nEndpoint = "@ + trim_spec(d.endpoint) + "\n"@
}

/// The first reason a client draft is invalid, if any, in field order.
pub open spec fn client_error(d: TunnelDraftV) -> Option<Seq<char>> {
    if !valid_name(d.name) {
        Some("Tunnel name must not be empty or contain whitespace or '/'"@)
    } else if trim_spec(d.private_key).len() == 0 {
        Some("PrivateKey must not be empty"@)
    } else if trim_spec(d.address).len() == 0 {
        Some("Address must not be empty"@)
    } else if trim_spec(d.peer_public_key).len() == 0 {
        Some("Peer PublicKey must not be empty"@)
    } else if trim_spec(d.allowed_ips).len() == 0 {
        Some("AllowedIPs must not be empty"@)
    } else if trim_spec(d.endpoint).len() == 0 {
        Some("Endpoint must not be empty"@)
    } else {
        None
    }
}

/// The message of a name collision.
pub open spec fn exists_error(name: Seq<char>) -> Seq<char> {
    "Tunnel '"@ + name + "' already exists"@
}

/// What creating a client tunnel decides: a validation failure, a name
/// collision, or the exact text to write.
pub open spec fn spec_create_client(d: TunnelDraftV, dest_exists: bool) -> Result<
    Seq<char>,
    ErrorV,
> {
    match client_error(d) {
        Some(m) => Err(ErrorV::Validation(m)),
        None => if dest_exists {
            Err(ErrorV::AlreadyExists(exists_error(d.name)))
        } else {
            Ok(render_client_spec(d))
        },
    }
}

/// Builds the message for a name collision.
fn exists_error_exec(name: &str) -> (r: String)
    ensures
        r@ == exists_error(name@),
{
    let mut m = String::from_str("Tunnel '");
    m.append(name);
    m.append("' already exists");
    m
}

/// Validates a client draft and renders its configuration text.  On a
/// validation failure or a name collision nothing is rendered, so no
/// file is ever written for a rejected draft.  `dest_exists` says whether
/// the target file already exists.
pub fn create_client_tunnel(draft: &NewTunnelDraft, dest_exists: bool) -> (r: Result<
    String,
    Error,
>)
    ensures
        res_view(r) == spec_create_client(draft@, dest_exists),
{
    if !name_valid(draft.name.as_str()) {
        return Err(
            Error::Validation(
                String::from_str("Tunnel name must not be empty or contain whitespace or '/'"),
            ),
        );
    }
    let pk = trim_str(draft.private_key.as_str());
    if pk.as_str().is_empty() {
        return Err(Error::Validation(String::from_str("PrivateKey must not be empty")));
    }
    let addr = trim_str(draft.address.as_str());
    if addr.as_str().is_empty() {
        return Err(Error::Validation(String::from_str("Address must not be empty")));
    }
    let ppk = trim_str(draft.peer_public_key.as_str());
    if ppk.as_str().is_empty() {
        return Err(Error::Validation(String::from_str("Peer PublicKey must not be empty")));
    }
    let ips = trim_str(draft.allowed_ips.as_str());
    if ips.as_str().is_empty() {
        return Err(Error::Validation(String::from_str("AllowedIPs must not be empty")));
    }
    let ep = trim_str(draft.endpoint.as_str());
    if ep.as_str().is_empty() {
        return Err(Error::Validation(String::from_str("Endpoint must not be empty")));
    }
    if dest_exists {
        return Err(Error::AlreadyExists(exists_error_exec(draft.name.as_str())));
    }
    let dns = trim_str(draft.dns.as_str());
    let mut s = String::from_str("[Interface]\nPrivateKey = ");
    s.append(pk.as_str());
    s.append("\nAddress = ");
    s.append(addr.as_str());
    if !dns.as_str().is_empty() {
        s.append("\nDNS = ");
        s.append(dns.as_str());
    }
    s.append("\n\n[Peer]\nPublicKey = ");
    s.append(ppk.as_str());
    s.append("\nAllowedIPs = ");
    s.append(ips.as_str());
    s.append("\nEndpoint = ");
    s.append(ep.as_str());
    s.append("\n");
    proof {
        assert(s@ =~= render_client_spec(draft@));
    }
    Ok(s)
}

/// The server configuration text written for a draft: the address,
/// `SaveConfig`, NAT rules through the chosen egress interface, the
/// listen port and the private key.
pub open spec fn render_server_spec(d: ServerDraftV) -> Seq<char> {
    "[Interface]\nAddress = "@ + trim_spec(d.address)
        + "\nSaveConfig = true\nPostUp = iptables -A FORWARD -i %i -j ACCEPT; iptables -t nat -A POSTROUTING -o "@
        + trim_spec(d.egress_interface)
        + " -j MASQUERADE\nPostDown = iptables -D FORWARD -i %i -j ACCEPT; iptables -t nat -D POSTROUTING -o "@
        + trim_spec(d.egress_interface) + " -j MASQUERADE\nListenPort = "@ + trim_spec(
        d.listen_port,
    ) + "\nPrivateKey = "@ + trim_spec(d.private_key) + "\n"@
}

/// The first reason a server draft is invalid, if any, in field order.
pub open spec fn server_error(d: ServerDraftV) -> Option<Seq<char>> {
    if !valid_name(d.name) {
        Some("Tunnel name must not be empty or contain whitespace or '/'"@)
    } else if trim_spec(d.address).len() == 0 {
        Some("Address must not be empty"@)
    } else if crate::status::parse_port(trim_spec(d.listen_port)) is None {
        Some("ListenPort must be an integer between 0 and 65535"@)
    } else if trim_spec(d.egress_interface).len() == 0 {
        Some("Egress interface must not be empty"@)
    } else if trim_spec(d.private_key).len() == 0 {
        Some("PrivateKey must not be empty"@)
    } else {
        None
    }
}

/// What creating a server tunnel decides.
pub open spec fn spec_create_server(d: ServerDraftV, dest_exists: bool) -> Result<
    Seq<char>,
    ErrorV,
> {
    match server_error(d) {
        Some(m) => Err(ErrorV::Validation(m)),
        None => if dest_exists {
            Err(ErrorV::AlreadyExists(exists_error(d.name)))
        } else {
            Ok(render_server_spec(d))
        },
    }
}

/// Validates a server draft and renders its configuration text; the
/// listen port must read as a 16-bit integer.  Nothing is rendered for a
/// rejected draft.
pub fn create_server_tunnel(draft: &NewServerDraft, dest_exists: bool) -> (r: Result<
    String,
    Error,
>)
    ensures
        res_view(r) == spec_create_server(draft@, dest_exists),
{
    if !name_valid(draft.name.as_str()) {
        return Err(
            Error::Validation(
                String::from_str("Tunnel name must not be empty or contain whitespace or '/'"),
            ),
        );
    }
    let addr = trim_str(draft.address.as_str());
    if addr.as_str().is_empty() {
        return Err(Error::Validation(String::from_str("Address must not be empty")));
    }
    let port = trim_str(draft.listen_port.as_str());
    let pcs = to_chars(port.as_str());
    let pn = pcs.len();
    proof {
        assert(pcs@.subrange(0, pn as int) =~= trim_spec(draft@.listen_port));
    }
    if parse_dec_bounded(&pcs, 0, pn, 65535).is_none() {
        return Err(
            Error::Validation(String::from_str("ListenPort must be an integer between 0 and 65535")),
        );
    }
    let egress = trim_str(draft.egress_interface.as_str());
    if egress.as_str().is_empty() {
        return Err(Error::Validation(String::from_str("Egress interface must not be empty")));
    }
    let pk = trim_str(draft.private_key.as_str());
    if pk.as_str().is_empty() {
        return Err(Error::Validation(String::from_str("PrivateKey must not be empty")));
    }
    if dest_exists {
        return Err(Error::AlreadyExists(exists_error_exec(draft.name.as_str())));
    }
    let mut s = String::from_str("[Interface]\nAddress = ");
    s.append(addr.as_str());
    s.append(
        "\nSaveConfig = true\nPostUp = iptables -A FORWARD -i %i -j ACCEPT; iptables -t nat -A POSTROUTING -o ",
    );
    s.append(egress.as_str());
    s.append(" -j MASQUERADE\nPostDown = iptables -D FORWARD -i %i -j ACCEPT; iptables -t nat -D POSTROUTING -o ");
    s.append(egress.as_str());
    s.append(" -j MASQUERADE\nListenPort = ");
    s.append(port.as_str());
    s.append("\nPrivateKey = ");
    s.append(pk.as_str());
    s.append("\n");
    proof {
        assert(s@ =~= render_server_spec(draft@));
    }
    Ok(s)
}

/// The error reported when an external command fails: the trimmed
/// standard error, or `<what> failed` when that is empty.
pub open spec fn subprocess_error_spec(what: Seq<char>, stderr: Seq<char>) -> ErrorV {
    let t = trim_spec(stderr);
    ErrorV::SubprocessFailure(
        if t.len() == 0 {
            what + " failed"@
        } else {
            t
        },
    )
}

/// Builds the error for a failed external command.
pub fn subprocess_failure(what: &str, stderr: &str) -> (r: Error)
    ensures
        r@ == subprocess_error_spec(what@, stderr@),
{
    let t = trim_str(stderr);
    if t.as_str().is_empty() {
        let mut m = what.to_owned();
        m.append(" failed");
        Error::SubprocessFailure(m)
    } else {
        Error::SubprocessFailure(t)
    }
}

/// What a `wg-quick` invocation decides.
pub open spec fn spec_wg_quick_outcome(action: Seq<char>, exit_ok: bool, stderr: Seq<char>) -> Result<
    (),
    ErrorV,
> {
    if exit_ok {
        Ok(())
    } else {
        Err(subprocess_error_spec("wg-quick "@ + action, stderr))
    }
}

/// Shapes the outcome of a `wg-quick <action> <name>` invocation: success
/// on a zero exit, otherwise a `SubprocessFailure` carrying the trimmed
/// standard error or a generic message.
pub fn wg_quick_outcome(action: &str, exit_ok: bool, stderr: &str) -> (r: Result<(), Error>)
    ensures
        match (r, spec_wg_quick_outcome(action@, exit_ok, stderr@)) {
            (Ok(()), Ok(())) => true,
            (Err(e), Err(ev)) => e@ == ev,
            _ => false,
        },
{
    if exit_ok {
        Ok(())
    } else {
        let mut what = String::from_str("wg-quick ");
        what.append(action);
        Err(subprocess_failure(what.as_str(), stderr))
    }
}

/// What a key-generation or key-derivation command decides: the trimmed
/// output on success, `SubprocessFailure` on a non-zero exit or when the
/// output is empty after trimming.
pub open spec fn spec_key_output(what: Seq<char>, exit_ok: bool, stdout: Seq<char>, stderr: Seq<char>) -> Result<
    Seq<char>,
    ErrorV,
> {
    if !exit_ok {
        Err(subprocess_error_spec(what, stderr))
    } else if trim_spec(stdout).len() == 0 {
        Err(ErrorV::SubprocessFailure(what + " produced no output"@))
    } else {
        Ok(trim_spec(stdout))
    }
}

/// Shapes the outcome of an external key command into key material.
pub fn validate_key_output(what: &str, exit_ok: bool, stdout: &str, stderr: &str) -> (r: Result<
    String,
    Error,
>)
    ensures
        res_view(r) == spec_key_output(what@, exit_ok, stdout@, stderr@),
{
    if !exit_ok {
        return Err(subprocess_failure(what, stderr));
    }
    let key = trim_str(stdout);
    if key.as_str().is_empty() {
        let mut m = what.to_owned();
        m.append(" produced no output");
        return Err(Error::SubprocessFailure(m));
    }
    Ok(key)
}

/// The outcome of one external step, as the runner reports it: the
/// failure text is the command's trimmed or raw standard error.
#[derive(Debug, Clone)]
pub enum StepOutcome {
    Success,
    Failure(String),
}

/// The mathematical shape of a `StepOutcome`.
pub enum StepOutcomeV {
    Success,
    Failure(Seq<char>),
}

impl View for StepOutcome {
    type V = StepOutcomeV;

    open spec fn view(&self) -> StepOutcomeV {
        match self {
            StepOutcome::Success => StepOutcomeV::Success,
            StepOutcome::Failure(s) => StepOutcomeV::Failure(s@),
        }
    }
}

/// The deletion machine: what remains to be done to remove a tunnel.
/// The configuration file may be removed only after an active interface
/// was brought down successfully.
#[derive(Debug, Clone)]
pub enum DeleteState {
    /// The interface is active and must be brought down first.
    BringDown,
    /// The configuration file may now be removed.
    RemoveFile,
    /// The tunnel is gone.
    Done,
    /// A step failed; nothing further may be attempted.
    Failed(Error),
}

/// The mathematical shape of a `DeleteState`.
pub enum DeleteStateV {
    BringDown,
    RemoveFile,
    Done,
    Failed(ErrorV),
}

impl View for DeleteState {
    type V = DeleteStateV;

    open spec fn view(&self) -> DeleteStateV {
        match self {
            DeleteState::BringDown => DeleteStateV::BringDown,
            DeleteState::RemoveFile => DeleteStateV::RemoveFile,
            DeleteState::Done => DeleteStateV::Done,
            DeleteState::Failed(e) => DeleteStateV::Failed(e@),
        }
    }
}

/// Where deletion starts: an active tunnel is brought down first; an
/// inactive one goes straight to file removal.
pub open spec fn spec_delete_begin(is_active: bool) -> DeleteStateV {
    if is_active {
        DeleteStateV::BringDown
    } else {
        DeleteStateV::RemoveFile
    }
}

/// How one step outcome advances the deletion machine.  A failed
/// bring-down stops the machine before the file-removal state, and a
/// terminal state absorbs every event.
pub open spec fn spec_delete_next(s: DeleteStateV, ev: StepOutcomeV) -> DeleteStateV {
    match (s, ev) {
        (DeleteStateV::BringDown, StepOutcomeV::Success) => DeleteStateV::RemoveFile,
        (DeleteStateV::BringDown, StepOutcomeV::Failure(e)) => DeleteStateV::Failed(
            subprocess_error_spec("wg-quick down"@, e),
        ),
        (DeleteStateV::RemoveFile, StepOutcomeV::Success) => DeleteStateV::Done,
        (DeleteStateV::RemoveFile, StepOutcomeV::Failure(e)) => DeleteStateV::Failed(
            ErrorV::Io(e),
        ),
        (s, _) => s,
    }
}

/// Starts deleting a tunnel.
pub fn delete_begin(is_active: bool) -> (r: DeleteState)
    ensures
        r@ == spec_delete_begin(is_active),
{
    if is_active {
        DeleteState::BringDown
    } else {
        DeleteState::RemoveFile
    }
}

/// Advances the deletion machine by the outcome of the step its state
/// asked for.
pub fn delete_next(s: DeleteState, ev: StepOutcome) -> (r: DeleteState)
    ensures
        r@ == spec_delete_next(s@, ev@),
{
    match (s, ev) {
        (DeleteState::BringDown, StepOutcome::Success) => DeleteState::RemoveFile,
        (DeleteState::BringDown, StepOutcome::Failure(e)) => DeleteState::Failed(
            subprocess_failure("wg-quick down", e.as_str()),
        ),
        (DeleteState::RemoveFile, StepOutcome::Success) => DeleteState::Done,
        (DeleteState::RemoveFile, StepOutcome::Failure(e)) => DeleteState::Failed(Error::Io(e)),
        (s, _) => s,
    }
}

/// Law: deleting an active tunnel whose bring-down fails ends in a failed
/// state; the machine never reaches the file-removal state, so the
/// configuration file stays in place.
pub proof fn lemma_failed_bring_down_keeps_config(stderr: Seq<char>)
    ensures
        spec_delete_begin(true) == DeleteStateV::BringDown,
        spec_delete_next(
            DeleteStateV::BringDown,
            StepOutcomeV::Failure(stderr),
        ) matches DeleteStateV::Failed(e) && e matches ErrorV::SubprocessFailure(_),
{
}

/// The live-resync machine: writing the updated configuration to a
/// temporary file, stripping it to the wire-safe subset, reconciling the
/// running interface with the result, and finally removing the
/// temporary files on a best-effort basis.
#[derive(Debug, Clone)]
pub enum ResyncState {
    /// The updated configuration must be written to a temporary file.
    WriteTemp,
    /// The temporary file must be stripped to its wire-safe subset.
    StripConfig,
    /// The running interface must be reconciled with the stripped file.
    Reconcile,
    /// The temporary files should be removed; failure here is ignored.
    Cleanup,
    /// The running interface now matches the new configuration.
    Done,
    /// A step failed; the temporary files may remain.
    Failed(Error),
}

/// The mathematical shape of a `ResyncState`.
pub enum ResyncStateV {
    WriteTemp,
    StripConfig,
    Reconcile,
    Cleanup,
    Done,
    Failed(ErrorV),
}

impl View for ResyncState {
    type V = ResyncStateV;

    open spec fn view(&self) -> ResyncStateV {
        match self {
            ResyncState::WriteTemp => ResyncStateV::WriteTemp,
            ResyncState::StripConfig => ResyncStateV::StripConfig,
            ResyncState::Reconcile => ResyncStateV::Reconcile,
            ResyncState::Cleanup => ResyncStateV::Cleanup,
            ResyncState::Done => ResyncStateV::Done,
            ResyncState::Failed(e) => ResyncStateV::Failed(e@),
        }
    }
}

/// Where a live resync starts.
pub open spec fn spec_resync_begin() -> ResyncStateV {
    ResyncStateV::WriteTemp
}

/// How one step outcome advances the resync machine.  Every step failure
/// stops the machine except a cleanup failure, which still counts as
/// completed; a terminal state absorbs every event.
pub open spec fn spec_resync_next(s: ResyncStateV, ev: StepOutcomeV) -> ResyncStateV {
    match (s, ev) {
        (ResyncStateV::WriteTemp, StepOutcomeV::Success) => ResyncStateV::StripConfig,
        (ResyncStateV::WriteTemp, StepOutcomeV::Failure(e)) => ResyncStateV::Failed(ErrorV::Io(e)),
        (ResyncStateV::StripConfig, StepOutcomeV::Success) => ResyncStateV::Reconcile,
        (ResyncStateV::StripConfig, StepOutcomeV::Failure(e)) => ResyncStateV::Failed(
            subprocess_error_spec("wg-quick strip"@, e),
        ),
        (ResyncStateV::Reconcile, StepOutcomeV::Success) => ResyncStateV::Cleanup,
        (ResyncStateV::Reconcile, StepOutcomeV::Failure(e)) => ResyncStateV::Failed(
            subprocess_error_spec("wg syncconf"@, e),
        ),
        (ResyncStateV::Cleanup, _) => ResyncStateV::Done,
        (s, _) => s,
    }
}

/// Starts a live resync.
pub fn resync_begin() -> (r: ResyncState)
    ensures
        r@ == spec_resync_begin(),
{
    ResyncState::WriteTemp
}

/// Advances the resync machine by the outcome of the step its state
/// asked for.
pub fn resync_next(s: ResyncState, ev: StepOutcome) -> (r: ResyncState)
    ensures
        r@ == spec_resync_next(s@, ev@),
{
    match (s, ev) {
        (ResyncState::WriteTemp, StepOutcome::Success) => ResyncState::StripConfig,
        (ResyncState::WriteTemp, StepOutcome::Failure(e)) => ResyncState::Failed(Error::Io(e)),
        (ResyncState::StripConfig, StepOutcome::Success) => ResyncState::Reconcile,
        (ResyncState::StripConfig, StepOutcome::Failure(e)) => ResyncState::Failed(
            subprocess_failure("wg-quick strip", e.as_str()),
        ),
        (ResyncState::Reconcile, StepOutcome::Success) => ResyncState::Cleanup,
        (ResyncState::Reconcile, StepOutcome::Failure(e)) => ResyncState::Failed(
            subprocess_failure("wg syncconf", e.as_str()),
        ),
        (ResyncState::Cleanup, _) => ResyncState::Done,
        (s, _) => s,
    }
}

/// Law: cleanup is best-effort.  A failure while removing the temporary
/// files leaves the resync completed all the same.
pub proof fn lemma_resync_cleanup_best_effort(stderr: Seq<char>)
    ensures
        spec_resync_next(ResyncStateV::Cleanup, StepOutcomeV::Failure(stderr))
            == ResyncStateV::Done,
        spec_resync_next(ResyncStateV::Cleanup, StepOutcomeV::Success) == ResyncStateV::Done,
{
}

/// The position of the last `/` in `s`.
pub open spec fn rfind_slash(s: Seq<char>) -> Option<int>
    decreases s.len(),
{
    if s.len() == 0 {
        None
    } else if s.last() == '/' {
        Some(s.len() - 1)
    } else {
        rfind_slash(s.drop_last())
    }
}

/// The file-name portion of a path: what follows the last `/`.
pub open spec fn file_name_of(p: Seq<char>) -> Seq<char> {
    match rfind_slash(p) {
        None => p,
        Some(j) => p.subrange(j + 1, p.len() as int),
    }
}

/// Finds the last `/` of `cs`, as an index.
fn rfind_slash_exec(cs: &Vec<char>) -> (r: Option<usize>)
    ensures
        match r {
            Some(j) => j < cs.len() && rfind_slash(cs@) == Some(j as int),
            None => rfind_slash(cs@) is None,
        },
{
    let mut b = cs.len();
    proof {
        assert(cs@.subrange(0, cs@.len() as int) =~= cs@);
    }
    while b > 0
        invariant
            b <= cs.len(),
            rfind_slash(cs@) == rfind_slash(cs@.subrange(0, b as int)),
        decreases b,
    {
        proof {
            assert(cs@.subrange(0, b as int).drop_last() =~= cs@.subrange(0, b - 1));
            assert(cs@.subrange(0, b as int).last() == cs@[b - 1]);
        }
        if cs[b - 1] == '/' {
            return Some(b - 1);
        }
        b = b - 1;
    }
    proof {
        assert(cs@.subrange(0, 0) =~= Seq::<char>::empty());
    }
    None
}

/// What importing a file decides: the source must exist and end in
/// `.conf` with a non-empty stem; that stem is the tunnel name, and a
/// collision with an existing tunnel of that name fails.  On success the
/// returned name says which tunnel to create by a byte-exact copy.
pub open spec fn spec_import(path: Seq<char>, source_exists: bool, dest_exists: bool) -> Result<
    Seq<char>,
    ErrorV,
> {
    if !source_exists {
        Err(ErrorV::NotFound("Source file does not exist"@))
    } else {
        let fname = file_name_of(path);
        if !(ends_with(fname, ".conf"@) && fname.len() > ".conf"@.len()) {
            Err(ErrorV::Validation("File must have .conf extension"@))
        } else {
            let name = fname.subrange(0, fname.len() - ".conf"@.len());
            if dest_exists {
                Err(ErrorV::AlreadyExists(exists_error(name)))
            } else {
                Ok(name)
            }
        }
    }
}

/// The tunnel name a path would import as: its file stem, provided the
/// file name ends in `.conf` with a non-empty stem.
pub fn import_file_name(path: &str) -> (r: Option<String>)
    ensures
        ({
            let fname = file_name_of(path@);
            match r {
                Some(s) => ends_with(fname, ".conf"@) && fname.len() > ".conf"@.len() && s@
                    == fname.subrange(0, fname.len() - ".conf"@.len()),
                None => !(ends_with(fname, ".conf"@) && fname.len() > ".conf"@.len()),
            }
        }),
{
    let cs = to_chars(path);
    let n = cs.len();
    proof {
        assert(cs@.subrange(0, n as int) =~= path@);
        assert(cs@ == path@);
    }
    let start = match rfind_slash_exec(&cs) {
        Some(j) => j + 1,
        None => 0,
    };
    proof {
        assert(cs@.subrange(start as int, n as int) =~= file_name_of(path@));
    }
    let sfx = ".conf".unicode_len();
    if range_ends_with(&cs, start, n, ".conf") && n - start > sfx {
        proof {
            assert(cs@.subrange(start as int, (n - sfx) as int) =~= file_name_of(
                path@,
            ).subrange(0, file_name_of(path@).len() - ".conf"@.len()));
        }
        Some(extract(path, start, n - sfx))
    } else {
        None
    }
}

/// Decides an import: `source_exists` says whether the source path names
/// a file, `dest_exists` whether the configuration directory already
/// holds a file for the derived name.  Only an `Ok` result is followed
/// by the byte-exact copy.
pub fn import_tunnel(source_path: &str, source_exists: bool, dest_exists: bool) -> (r: Result<
    String,
    Error,
>)
    ensures
        res_view(r) == spec_import(source_path@, source_exists, dest_exists),
{
    if !source_exists {
        return Err(Error::NotFound(String::from_str("Source file does not exist")));
    }
    match import_file_name(source_path) {
        None => Err(Error::Validation(String::from_str("File must have .conf extension"))),
        Some(name) => {
            if dest_exists {
                Err(Error::AlreadyExists(exists_error_exec(name.as_str())))
            } else {
                Ok(name)
            }
        },
    }
}

/// A path with surrounding whitespace removed and a leading `~/`
/// replaced by the home directory, when one is known.
pub open spec fn expand_path_spec(p: Seq<char>, home: Option<Seq<char>>) -> Seq<char> {
    let t = trim_spec(p);
    if starts_with(t, "~/"@) && home is Some {
        home->0 + "/"@ + t.subrange("~/"@.len() as int, t.len() as int)
    } else {
        t
    }
}

/// Expands a user-entered path: trims it and resolves a leading `~/`
/// against the home directory, when one is known.
pub fn expand_path(path: &str, home: Option<&str>) -> (r: String)
    ensures
        r@ == expand_path_spec(
            path@,
            match home {
                Some(h) => Some(h@),
                None => None,
            },
        ),
{
    let cs = to_chars(path);
    let n = cs.len();
    proof {
        assert(cs@.subrange(0, n as int) =~= path@);
    }
    let (a, b) = crate::text::trimmed_range(&cs, 0, n);
    let pfx = "~/".unicode_len();
    if crate::text::range_starts_with(&cs, a, b, "~/") {
        if let Some(h) = home {
            let mut s = h.to_owned();
            s.append("/");
            let rest = extract(path, a + pfx, b);
            s.append(rest.as_str());
            proof {
                assert(cs@.subrange((a + pfx) as int, b as int) =~= trim_spec(path@).subrange(
                    "~/"@.len() as int,
                    trim_spec(path@).len() as int,
                ));
            }
            return s;
        }
    }
    extract(path, a, b)
}

/// The first entry of `items` that parses as an IPv4 host.
pub open spec fn first_host(items: Seq<Seq<char>>) -> Option<u32>
    decreases items.len(),
{
    if items.len() == 0 {
        None
    } else {
        match entry_host(items[0]) {
            Some(a) => Some(a),
            None => first_host(items.drop_first()),
        }
    }
}

/// The server's own IPv4 host address: the first IPv4 entry of its
/// Interface `Address` list.
pub open spec fn spec_server_host(c: Seq<char>) -> Option<u32> {
    match spec_read_value(c, "Interface"@, "Address"@) {
        None => None,
        Some(v) => first_host(split_list_spec(v)),
    }
}

/// The IPv4 hosts named by a sequence of `AllowedIPs` list values.
pub open spec fn hosts_of_lists(vals: Seq<Seq<char>>) -> Seq<u32>
    decreases vals.len(),
{
    if vals.len() == 0 {
        seq![]
    } else {
        crate::addr::host_seq(split_list_spec(vals[0])) + hosts_of_lists(vals.drop_first())
    }
}

/// The addresses a new peer must avoid: the server's own host plus every
/// host named by an existing Peer section's `AllowedIPs`.
pub open spec fn spec_peer_used(c: Seq<char>, base: u32) -> Seq<u32> {
    seq![base] + hosts_of_lists(spec_read_all_values(c, "Peer"@, "AllowedIPs"@))
}

/// Finds the first entry of `items` that parses as an IPv4 host.
fn first_host_exec(items: &Vec<String>) -> (r: Option<u32>)
    ensures
        r == first_host(items.deep_view()),
{
    proof {
        assert(items.deep_view().subrange(0, items@.len() as int) =~= items.deep_view());
    }
    let mut k: usize = 0;
    while k < items.len()
        invariant
            k <= items.len(),
            first_host(items.deep_view()) == first_host(
                items.deep_view().subrange(k as int, items@.len() as int),
            ),
        decreases items.len() - k,
    {
        let ghost suffix = items.deep_view().subrange(k as int, items@.len() as int);
        proof {
            assert(suffix[0] == items.deep_view()[k as int]);
            assert(suffix.drop_first() =~= items.deep_view().subrange(
                k + 1,
                items@.len() as int,
            ));
        }
        match parse_entry_host(items[k].as_str()) {
            Some(a) => {
                return Some(a);
            },
            None => {},
        }
        k = k + 1;
    }
    proof {
        assert(items.deep_view().subrange(
            items@.len() as int,
            items@.len() as int,
        ) =~= Seq::<Seq<char>>::empty());
    }
    None
}

/// Plans a new peer for a server tunnel: the configuration must classify
/// as a server and name an IPv4 interface address; the new address is the
/// first free host in the server's `/24`, counting the server itself and
/// every existing peer's hosts as taken.  Nothing is written: the caller
/// appends the block and persists or resyncs only after this succeeds.
pub fn add_server_peer_plan(content: &str) -> (r: Result<u32, Error>)
    ensures
        !spec_classify_server(content@) ==> (r matches Err(e) && e@ == ErrorV::Validation(
            "Not a server configuration"@,
        )),
        spec_classify_server(content@) ==> match spec_server_host(content@) {
            None => r matches Err(e) && e@ == ErrorV::Validation(
                "No IPv4 address on the Interface section"@,
            ),
            Some(base) => {
                let used = spec_peer_used(content@, base);
                match r {
                    Ok(a) => {
                        &&& crate::addr::spec_next_peer(base, used) == Some(a)
                        &&& !used.contains(a)
                        &&& net_of(a) == net_of(base)
                        &&& host_of(base) < host_of(a) <= 253
                        &&& 1 <= host_of(a)
                        &&& forall|o: int|
                            host_of(base) < o < host_of(a) ==> #[trigger] used.contains(
                                (net_of(base) + o) as u32,
                            )
                    },
                    Err(e) => {
                        &&& crate::addr::spec_next_peer(base, used) is None
                        &&& e@ is AllocationExhausted
                        &&& forall|o: int|
                            host_of(base) < o <= 253 ==> #[trigger] used.contains(
                                (net_of(base) + o) as u32,
                            )
                    },
                }
            },
        },
{
    if !classify_server(content) {
        return Err(Error::Validation(String::from_str("Not a server configuration")));
    }
    let base: u32;
    match read_value(content, "Interface", "Address") {
        None => {
            return Err(
                Error::Validation(String::from_str("No IPv4 address on the Interface section")),
            );
        },
        Some(v) => {
            let items = split_list(v.as_str());
            match first_host_exec(&items) {
                None => {
                    return Err(
                        Error::Validation(
                            String::from_str("No IPv4 address on the Interface section"),
                        ),
                    );
                },
                Some(b) => {
                    base = b;
                },
            }
        },
    }
    let ghost used_spec = spec_peer_used(content@, base);
    let mut used: Vec<u32> = Vec::new();
    used.push(base);
    let vals = read_all_values(content, "Peer", "AllowedIPs");
    let ghost vals_spec = spec_read_all_values(content@, "Peer"@, "AllowedIPs"@);
    proof {
        assert(vals_spec.subrange(0, vals_spec.len() as int) =~= vals_spec);
        assert(used@ =~= seq![base]);
        assert(used_spec =~= used@ + hosts_of_lists(vals_spec));
    }
    let mut k: usize = 0;
    while k < vals.len()
        invariant
            k <= vals.len(),
            vals.deep_view() == vals_spec,
            used_spec == spec_peer_used(content@, base),
            used_spec == used@ + hosts_of_lists(
                vals_spec.subrange(k as int, vals_spec.len() as int),
            ),
        decreases vals.len() - k,
    {
        let ghost suffix = vals_spec.subrange(k as int, vals_spec.len() as int);
        proof {
            assert(suffix[0] == vals_spec[k as int]);
            assert(suffix.drop_first() =~= vals_spec.subrange(k + 1, vals_spec.len() as int));
            assert(vals@[k as int]@ == vals_spec[k as int]);
        }
        let items = split_list(vals[k].as_str());
        let mut hosts = crate::addr::hosts_of_items(&items);
        let ghost before = used@;
        used.append(&mut hosts);
        proof {
            assert((before + crate::addr::host_seq(split_list_spec(suffix[0])))
                + hosts_of_lists(suffix.drop_first()) =~= before + (crate::addr::host_seq(
                split_list_spec(suffix[0]),
            ) + hosts_of_lists(suffix.drop_first())));
        }
        k = k + 1;
    }
    proof {
        assert(vals_spec.subrange(
            vals_spec.len() as int,
            vals_spec.len() as int,
        ) =~= Seq::<Seq<char>>::empty());
        assert(used@ + hosts_of_lists(Seq::<Seq<char>>::empty()) =~= used@);
        assert(used@ == used_spec);
    }
    next_peer_address(base, &used)
}

/// The `[Peer]` block appended to the server configuration for a new
/// peer.
pub open spec fn peer_block_spec(peer_public: Seq<char>, addr: int) -> Seq<char> {
    "[Peer]\nPublicKey = "@ + trim_spec(peer_public) + "\nAllowedIPs = "@ + ipv4_str(addr)
        + "/32\n"@
}

/// The client configuration template handed back for a new peer, with
/// the placeholder tokens `{{ENDPOINT}}` and `{{DNS}}` to be substituted
/// by the caller.
pub open spec fn client_template_spec(
    peer_private: Seq<char>,
    addr: int,
    server_public: Seq<char>,
) -> Seq<char> {
    "[Interface]\nPrivateKey = "@ + trim_spec(peer_private) + "\nAddress = "@ + ipv4_str(addr)
        + "/32\nDNS = {{DNS}}\n\n[Peer]\nPublicKey = "@ + trim_spec(server_public)
        + "\nAllowedIPs = 0.0.0.0/0\nEndpoint = {{ENDPOINT}}\n"@
}

/// The file name suggested for a new peer's configuration: it embeds the
/// allocated address and, when the server declares one, the listen port.
pub open spec fn peer_filename_spec(addr: int, port: Option<Seq<char>>) -> Seq<char> {
    "peer-"@ + ipv4_str(addr) + (match port {
        Some(p) => "-"@ + p,
        None => Seq::<char>::empty(),
    }) + ".conf"@
}

/// What `add_server_peer_finish` hands back for the caller to complete:
/// a client-config template with two unresolved placeholders, a suggested
/// output file name, and the server's listen port when it declares one.
#[derive(Debug, Clone)]
pub struct PeerConfig {
    pub content: String,
    pub suggested_filename: String,
    pub listen_port: Option<String>,
}

/// Builds the text changes for a planned peer: the server configuration
/// with the new `[Peer]` block appended, and the client-side
/// configuration template.  The caller persists the new text (through a
/// live resync when the interface is up) and completes the template.
pub fn add_server_peer_finish(
    content: &str,
    peer_public: &str,
    peer_private: &str,
    server_public: &str,
    addr: u32,
) -> (r: (String, PeerConfig))
    ensures
        r.0@ == append_block_spec(content@, peer_block_spec(peer_public@, addr as int)),
        r.1.content@ == client_template_spec(peer_private@, addr as int, server_public@),
        ({
            let port = spec_read_value(content@, "Interface"@, "ListenPort"@);
            &&& r.1.suggested_filename@ == peer_filename_spec(addr as int, port)
            &&& match (r.1.listen_port, port) {
                (Some(p), Some(v)) => p@ == v,
                (None, None) => true,
                _ => false,
            }
        }),
{
    let ip = crate::addr::format_ipv4(addr);
    let ppk = trim_str(peer_public);
    let mut block = String::from_str("[Peer]\nPublicKey = ");
    block.append(ppk.as_str());
    block.append("\nAllowedIPs = ");
    block.append(ip.as_str());
    block.append("/32\n");
    proof {
        assert(block@ =~= peer_block_spec(peer_public@, addr as int));
    }
    let new_content = append_peer_block(content, block.as_str());

    let pk = trim_str(peer_private);
    let spk = trim_str(server_public);
    let mut tpl = String::from_str("[Interface]\nPrivateKey = ");
    tpl.append(pk.as_str());
    tpl.append("\nAddress = ");
    tpl.append(ip.as_str());
    tpl.append("/32\nDNS = {{DNS}}\n\n[Peer]\nPublicKey = ");
    tpl.append(spk.as_str());
    tpl.append("\nAllowedIPs = 0.0.0.0/0\nEndpoint = {{ENDPOINT}}\n");
    proof {
        assert(tpl@ =~= client_template_spec(peer_private@, addr as int, server_public@));
    }

    let port = read_value(content, "Interface", "ListenPort");
    let mut fname = String::from_str("peer-");
    fname.append(ip.as_str());
    let port_kept: Option<String>;
    match port {
        Some(p) => {
            fname.append("-");
            fname.append(p.as_str());
            port_kept = Some(p);
        },
        None => {
            port_kept = None;
        },
    }
    fname.append(".conf");
    proof {
        assert(fname@ =~= peer_filename_spec(
            addr as int,
            spec_read_value(content@, "Interface"@, "ListenPort"@),
        ));
    }
    (new_content, PeerConfig { content: tpl, suggested_filename: fname, listen_port: port_kept })
}

} // verus!
