//! SSH session vocabulary (states, events, errors) and the decisions of a
//! session: connection pre-checks, host-key trust coordination between
//! concurrent connections, authentication verdicts, and the shell loop.

use vstd::prelude::*;

use crate::credentials::SecretString;
use crate::model::{validation_outcome, ConnectionProfile, Endpoint, TerminalSize};
use crate::storage::{KnownHostEntry, StorageError};

verus! {

/// Capacity of the queue of input bytes towards a session.
pub const INPUT_QUEUE_CAPACITY: usize = 128;

/// Capacity of the queue of events from a session.
pub const EVENT_QUEUE_CAPACITY: usize = 256;

/// Seconds to establish a connection.
pub const CONNECT_TIMEOUT_SECS: u64 = 15;

/// Seconds the user has to decide on an unknown host key.
pub const HOST_KEY_DECISION_TIMEOUT_SECS: u64 = 120;

/// Seconds a disconnecting session may take before it is aborted.
pub const DISCONNECT_GRACE_SECS: u64 = 2;

/// The user's answer to an unknown host key.
#[derive(Clone, Copy, Debug, PartialEq, Eq, Structural)]
pub enum HostKeyDecision {
    AcceptAndStore,
    Reject,
}

/// Progress of a session.
#[derive(Clone, Copy, Debug, PartialEq, Eq, Structural)]
pub enum SessionState {
    Connecting,
    VerifyingHostKey,
    Authenticating,
    OpeningShell,
    Connected,
    Disconnected,
}

/// Why input could not be queued.
#[derive(Clone, Copy, Debug, PartialEq, Eq, Structural)]
pub enum SendInputError {
    QueueFull,
    Closed,
}

/// Why a session failed.
#[derive(Clone, Copy, Debug, PartialEq, Eq, Structural)]
pub enum SessionError {
    InvalidProfile,
    ConnectTimeout,
    ConnectFailed,
    HostKeyRejected,
    HostKeyChanged,
    HostKeyStoreFailed,
    CredentialUnavailable,
    PrivateKeyUnreadable,
    PrivateKeyPassphraseRequired,
    PrivateKeyPassphraseRejected,
    AgentUnavailable,
    AgentEmpty,
    AuthenticationRejected,
    PtyRejected,
    ShellRejected,
    Disconnected,
}

/// Something a session reports.
#[derive(Debug, PartialEq, Eq)]
pub enum SessionEvent {
    StateChanged(SessionState),
    UnknownHostKey {
        prompt_id: u128,
        endpoint: Endpoint,
        algorithm: String,
        fingerprint_sha256: String,
    },
    ChangedHostKey { endpoint: Endpoint, expected_sha256: String, presented_sha256: String },
    Output(Vec<u8>),
    Bell,
    Exited { status: Option<u32> },
    Error(SessionError),
}

/// Checks made before any network activity: the profile must be valid and
/// the initial terminal size usable.
pub fn connect_precheck(profile: &ConnectionProfile, initial_size: TerminalSize) -> (r: Result<
    (),
    SessionError,
>)
    ensures
        r is Ok <==> (validation_outcome(*profile) is Ok && initial_size.columns > 0
            && initial_size.rows > 0),
        r is Err ==> r == Err::<(), SessionError>(SessionError::InvalidProfile),
{
    if profile.validate().is_err() {
        return Err(SessionError::InvalidProfile);
    }
    if !initial_size.is_valid() {
        return Err(SessionError::InvalidProfile);
    }
    Ok(())
}

/// The events that close a session task: the exit status or the error
/// (a plain disconnect reports none), then the final `Disconnected` state.
pub fn closing_events(result: Result<Option<u32>, SessionError>) -> (r: Vec<SessionEvent>)
    ensures
        match result {
            Ok(status) => r@ == seq![
                SessionEvent::Exited { status },
                SessionEvent::StateChanged(SessionState::Disconnected),
            ],
            Err(SessionError::Disconnected) => r@ == seq![
                SessionEvent::StateChanged(SessionState::Disconnected),
            ],
            Err(e) => r@ == seq![
                SessionEvent::Error(e),
                SessionEvent::StateChanged(SessionState::Disconnected),
            ],
        },
{
    let mut r: Vec<SessionEvent> = Vec::new();
    match result {
        Ok(status) => {
            r.push(SessionEvent::Exited { status });
        },
        Err(SessionError::Disconnected) => {},
        Err(error) => {
            r.push(SessionEvent::Error(error));
        },
    }
    r.push(SessionEvent::StateChanged(SessionState::Disconnected));
    assert(r@ =~= match result {
        Ok(status) => seq![
            SessionEvent::Exited { status },
            SessionEvent::StateChanged(SessionState::Disconnected),
        ],
        Err(SessionError::Disconnected) => seq![SessionEvent::StateChanged(SessionState::Disconnected)],
        Err(e) => seq![SessionEvent::Error(e), SessionEvent::StateChanged(SessionState::Disconnected)],
    });
    r
}

/// How long to wait for the connection: the host-key decision timeout
/// while a prompt for this endpoint is open, the connect timeout otherwise.
pub fn connect_deadline_secs(awaiting_host_key: bool) -> (r: u64)
    ensures
        r == (if awaiting_host_key { HOST_KEY_DECISION_TIMEOUT_SECS } else { CONNECT_TIMEOUT_SECS }),
{
    if awaiting_host_key {
        HOST_KEY_DECISION_TIMEOUT_SECS
    } else {
        CONNECT_TIMEOUT_SECS
    }
}

/// A message from the shell channel.
#[derive(Debug, PartialEq, Eq)]
pub enum ChannelMessage {
    Data(Vec<u8>),
    ExtendedData(Vec<u8>),
    ExitStatus(u32),
    Eof,
    Close,
    /// The channel ended without a message.
    Ended,
    /// Any other message.
    Other,
}

/// What the shell loop does with a channel message.
#[derive(Debug, PartialEq, Eq)]
pub enum ShellStep {
    /// Report the bytes as output.
    Forward(Vec<u8>),
    /// Keep waiting.
    Continue,
    /// The shell is over, with this exit status.
    Finish(Option<u32>),
}

/// Handles one channel message; `exit_status` remembers the last status
/// the server reported.
pub fn on_channel_message(exit_status: &mut Option<u32>, message: ChannelMessage) -> (r: ShellStep)
    ensures
        match message {
            ChannelMessage::Data(d) => r == ShellStep::Forward(d) && *final(exit_status) == *old(exit_status),
            ChannelMessage::ExtendedData(d) => r == ShellStep::Forward(d) && *final(exit_status) == *old(exit_status),
            ChannelMessage::ExitStatus(s) => r == ShellStep::Continue && *final(exit_status) == Some(s),
            ChannelMessage::Eof | ChannelMessage::Close | ChannelMessage::Ended => r == ShellStep::Finish(*old(exit_status))
                && *final(exit_status) == *old(exit_status),
            ChannelMessage::Other => r == ShellStep::Continue && *final(exit_status) == *old(exit_status),
        },
{
    match message {
        ChannelMessage::Data(data) => ShellStep::Forward(data),
        ChannelMessage::ExtendedData(data) => ShellStep::Forward(data),
        ChannelMessage::ExitStatus(status) => {
            *exit_status = Some(status);
            ShellStep::Continue
        },
        ChannelMessage::Eof | ChannelMessage::Close | ChannelMessage::Ended => ShellStep::Finish(*exit_status),
        ChannelMessage::Other => ShellStep::Continue,
    }
}

/// Why loading a private key failed.
#[derive(Clone, Copy, Debug, PartialEq, Eq, Structural)]
pub enum KeyLoadFailure {
    /// The key is encrypted and no passphrase was given.
    Encrypted,
    /// Any other failure.
    Other,
}

/// The session error for a private key that could not be loaded: a missing
/// passphrase, a rejected passphrase, or an unreadable key.
pub fn key_load_error(failure: KeyLoadFailure, passphrase_given: bool) -> (r: SessionError)
    ensures
        r == (if failure == KeyLoadFailure::Encrypted && !passphrase_given {
            SessionError::PrivateKeyPassphraseRequired
        } else if passphrase_given {
            SessionError::PrivateKeyPassphraseRejected
        } else {
            SessionError::PrivateKeyUnreadable
        }),
{
    if failure == KeyLoadFailure::Encrypted && !passphrase_given {
        SessionError::PrivateKeyPassphraseRequired
    } else if passphrase_given {
        SessionError::PrivateKeyPassphraseRejected
    } else {
        SessionError::PrivateKeyUnreadable
    }
}

/// Whether a key file needs a passphrase, from whether it could be opened
/// and how loading it without one went.
pub fn passphrase_probe(readable: bool, load: Result<(), KeyLoadFailure>) -> (r: Result<bool, SessionError>)
    ensures
        r == (if !readable {
            Err(SessionError::PrivateKeyUnreadable)
        } else {
            match load {
                Ok(()) => Ok(false),
                Err(KeyLoadFailure::Encrypted) => Ok(true),
                Err(KeyLoadFailure::Other) => Err(SessionError::PrivateKeyUnreadable),
            }
        }),
{
    if !readable {
        return Err(SessionError::PrivateKeyUnreadable);
    }
    match load {
        Ok(()) => Ok(false),
        Err(KeyLoadFailure::Encrypted) => Ok(true),
        Err(KeyLoadFailure::Other) => Err(SessionError::PrivateKeyUnreadable),
    }
}

/// The secret a password login uses: the one given; without one there is
/// no login, as the credential is unavailable.
pub fn password_secret(secret: Option<&SecretString>) -> (r: Result<&SecretString, SessionError>)
    ensures
        r == match secret {
            Some(s) => Ok::<&SecretString, SessionError>(s),
            None => Err(SessionError::CredentialUnavailable),
        },
{
    match secret {
        Some(s) => Ok(s),
        None => Err(SessionError::CredentialUnavailable),
    }
}

/// Where a login through the SSH agent stands: the agent identity to try
/// next, or the outcome.
#[derive(Debug, PartialEq, Eq)]
pub enum AgentStep {
    Try(usize),
    Finish(Result<(), SessionError>),
}

/// The first step of an agent login, once the agent listed its identities
/// (`None` when it could not): an unreachable agent or one without
/// identities ends the login, else the first identity is tried.
pub fn agent_first(identities: Option<usize>) -> (r: AgentStep)
    ensures
        r == match identities {
            None => AgentStep::Finish(Err(SessionError::AgentUnavailable)),
            Some(n) => if n == 0 {
                AgentStep::Finish(Err(SessionError::AgentEmpty))
            } else {
                AgentStep::Try(0)
            },
        },
{
    match identities {
        None => AgentStep::Finish(Err(SessionError::AgentUnavailable)),
        Some(n) => if n == 0 {
            AgentStep::Finish(Err(SessionError::AgentEmpty))
        } else {
            AgentStep::Try(0)
        },
    }
}

/// The step after identity `index` of `count` was tried: `attempt` is
/// whether the server accepted it, `None` when the agent failed to sign.
/// The first accepted identity ends the login; when none is, the login is
/// rejected; a signing failure makes the agent unavailable.
pub fn agent_next(index: usize, count: usize, attempt: Option<bool>) -> (r: AgentStep)
    requires
        index < count,
    ensures
        r == match attempt {
            None => AgentStep::Finish(Err(SessionError::AgentUnavailable)),
            Some(true) => AgentStep::Finish(Ok(())),
            Some(false) => if index + 1 < count {
                AgentStep::Try((index + 1) as usize)
            } else {
                AgentStep::Finish(Err(SessionError::AuthenticationRejected))
            },
        },
{
    match attempt {
        None => AgentStep::Finish(Err(SessionError::AgentUnavailable)),
        Some(true) => AgentStep::Finish(Ok(())),
        Some(false) => if index + 1 < count {
            AgentStep::Try(index + 1)
        } else {
            AgentStep::Finish(Err(SessionError::AuthenticationRejected))
        },
    }
}

/// The verdict of authentication.
pub fn authentication_verdict(accepted: bool) -> (r: Result<(), SessionError>)
    ensures
        r == (if accepted { Ok(()) } else { Err(SessionError::AuthenticationRejected) }),
{
    if accepted {
        Ok(())
    } else {
        Err(SessionError::AuthenticationRejected)
    }
}

/// A host key as the server presented it.
#[derive(Debug, PartialEq, Eq)]
pub struct PresentedHostKey {
    pub algorithm: String,
    pub public_key: String,
    pub fingerprint_sha256: String,
}

impl Clone for PresentedHostKey {
    fn clone(&self) -> (r: Self)
        ensures
            r == *self,
    {
        PresentedHostKey {
            algorithm: self.algorithm.clone(),
            public_key: self.public_key.clone(),
            fingerprint_sha256: self.fingerprint_sha256.clone(),
        }
    }
}

/// Two presented keys are the same key.
pub open spec fn same_presented(a: PresentedHostKey, b: PresentedHostKey) -> bool {
    a.algorithm@ == b.algorithm@ && a.public_key@ == b.public_key@ && a.fingerprint_sha256@
        == b.fingerprint_sha256@
}

/// Whether two presented keys are the same key.
pub fn same_presented_key(left: &PresentedHostKey, right: &PresentedHostKey) -> (b: bool)
    ensures
        b == same_presented(*left, *right),
{
    left.algorithm == right.algorithm && left.public_key == right.public_key
        && left.fingerprint_sha256 == right.fingerprint_sha256
}

/// How a known host relates to the presented key.
#[derive(Debug, PartialEq, Eq)]
pub enum KnownHostVerdict {
    /// The stored key is the presented one.
    Trusted,
    /// A different key is stored: the fingerprints to show.
    Changed { expected_sha256: String, presented_sha256: String },
}

/// Compares the stored key of a known host with the presented key.
pub fn known_host_verdict(known: &KnownHostEntry, presented: &PresentedHostKey) -> (r: KnownHostVerdict)
    ensures
        (known.algorithm@ == presented.algorithm@ && known.public_key@ == presented.public_key@
            && known.fingerprint_sha256@ == presented.fingerprint_sha256@) ==> r == KnownHostVerdict::Trusted,
        !(known.algorithm@ == presented.algorithm@ && known.public_key@ == presented.public_key@
            && known.fingerprint_sha256@ == presented.fingerprint_sha256@) ==> (r matches KnownHostVerdict::Changed {
            expected_sha256,
            presented_sha256,
        } && expected_sha256@ == known.fingerprint_sha256@ && presented_sha256@
            == presented.fingerprint_sha256@),
{
    if known.algorithm == presented.algorithm && known.public_key == presented.public_key
        && known.fingerprint_sha256 == presented.fingerprint_sha256 {
        KnownHostVerdict::Trusted
    } else {
        KnownHostVerdict::Changed {
            expected_sha256: known.fingerprint_sha256.clone(),
            presented_sha256: presented.fingerprint_sha256.clone(),
        }
    }
}

/// The published state of a pending host-key prompt.
#[derive(Clone, Copy, Debug, PartialEq, Eq, Structural)]
pub enum TrustOutcome {
    Waiting,
    Accepted,
    Rejected,
    Conflict,
}

/// What a connection waiting on a prompt returns once the prompt settles;
/// `None` while it is still open.
pub open spec fn settled_result_of(outcome: TrustOutcome) -> Option<Result<(), SessionError>> {
    match outcome {
        TrustOutcome::Waiting => None,
        TrustOutcome::Accepted => Some(Ok(())),
        TrustOutcome::Rejected => Some(Err(SessionError::HostKeyRejected)),
        TrustOutcome::Conflict => Some(Err(SessionError::HostKeyChanged)),
    }
}

/// What a connection waiting on a prompt returns once the prompt settles;
/// `None` while it is still open.
pub fn settled_result(outcome: TrustOutcome) -> (r: Option<Result<(), SessionError>>)
    ensures
        r == settled_result_of(outcome),
{
    match outcome {
        TrustOutcome::Waiting => None,
        TrustOutcome::Accepted => Some(Ok(())),
        TrustOutcome::Rejected => Some(Err(SessionError::HostKeyRejected)),
        TrustOutcome::Conflict => Some(Err(SessionError::HostKeyChanged)),
    }
}


/// A host-key prompt that is open for an endpoint: the connections waiting
/// on it are identified by their tokens, the first being the owner's.
#[derive(Debug)]
pub struct PendingTrust {
    pub endpoint: Endpoint,
    pub prompt_id: u128,
    pub presented: PresentedHostKey,
    pub waiters: Vec<u128>,
    pub deciding: bool,
}

/// The abstract content of a pending prompt.
pub struct PendingView {
    pub host: Seq<char>,
    pub port: u16,
    pub prompt_id: u128,
    pub presented: PresentedHostKey,
    pub waiters: Seq<u128>,
    pub deciding: bool,
}

impl View for PendingTrust {
    type V = PendingView;

    open spec fn view(&self) -> PendingView {
        PendingView {
            host: self.endpoint.host@,
            port: self.endpoint.port,
            prompt_id: self.prompt_id,
            presented: self.presented,
            waiters: self.waiters@,
            deciding: self.deciding,
        }
    }
}

/// The open host-key prompts, at most one per endpoint.
pub struct HostTrustTable {
    entries: Vec<PendingTrust>,
    /// Every token handed to `register`, prompt ids and waiter tokens alike.
    issued: Vec<u128>,
}

/// The prompt is for `host:port`.
pub open spec fn pending_at(p: PendingView, host: Seq<char>, port: u16) -> bool {
    p.host == host && p.port == port
}

/// No endpoint has two prompts.
pub open spec fn one_prompt_per_endpoint(s: Seq<PendingView>) -> bool {
    forall|i: int, j: int|
        0 <= i < j < s.len() ==> !pending_at(#[trigger] s[j], (#[trigger] s[i]).host, s[i].port)
}

/// Index of the prompt for `host:port` in a well-formed table, or -1.
pub open spec fn prompt_index(s: Seq<PendingView>, host: Seq<char>, port: u16) -> int {
    if exists|i: int| 0 <= i < s.len() && pending_at(#[trigger] s[i], host, port) {
        choose|i: int| 0 <= i < s.len() && pending_at(#[trigger] s[i], host, port)
    } else {
        -1
    }
}

/// `i` is the first prompt with this id.
pub open spec fn is_first_prompt(s: Seq<PendingView>, prompt_id: u128, i: int) -> bool {
    0 <= i < s.len() && s[i].prompt_id == prompt_id && forall|j: int|
        0 <= j < i ==> (#[trigger] s[j]).prompt_id != prompt_id
}

/// Index of the first prompt with this id, or -1.
pub open spec fn prompt_id_index(s: Seq<PendingView>, prompt_id: u128) -> int {
    if exists|i: int| is_first_prompt(s, prompt_id, i) {
        choose|i: int| is_first_prompt(s, prompt_id, i)
    } else {
        -1
    }
}

/// How a connection joined the prompting for a host key.
#[derive(Debug, PartialEq, Eq)]
pub enum Registration {
    /// A new prompt was opened; this connection asks the user.
    Owner { prompt_id: u128 },
    /// A prompt for the same key was already open; this connection waits
    /// on it under its own token.
    Joined { prompt_id: u128, waiter_token: u128 },
    /// A prompt for a different key was open: it is withdrawn, and its
    /// waiters and this connection learn of the changed key.
    Conflict { expected_sha256: String, waiters: Vec<u128> },
}

/// How `HostTrustTable::register` changes the table and what it returns.
pub open spec fn register_outcome(
    old: Seq<PendingView>,
    endpoint: Endpoint,
    presented: PresentedHostKey,
    fresh: u128,
    new: Seq<PendingView>,
    r: Registration,
) -> bool {
    let i = prompt_index(old, endpoint.host@, endpoint.port);
    if i < 0 {
        &&& r == Registration::Owner { prompt_id: fresh }
        &&& new == old.push(
            PendingView {
                host: endpoint.host@,
                port: endpoint.port,
                prompt_id: fresh,
                presented,
                waiters: seq![fresh],
                deciding: false,
            },
        )
    } else if same_presented(old[i].presented, presented) {
        &&& r == Registration::Joined { prompt_id: old[i].prompt_id, waiter_token: fresh }
        &&& new == old.update(i, PendingView { waiters: old[i].waiters.push(fresh), ..old[i] })
    } else {
        &&& r matches Registration::Conflict { expected_sha256, waiters }
        &&& r->expected_sha256@ == old[i].presented.fingerprint_sha256@
        &&& r->waiters@ == old[i].waiters
        &&& new == old.remove(i)
    }
}

/// How `HostTrustTable::begin_decision` changes the table and what it
/// returns: a prompt is decided at most once.
pub open spec fn begin_decision_outcome(
    old: Seq<PendingView>,
    prompt_id: u128,
    new: Seq<PendingView>,
    r: Option<(Endpoint, PresentedHostKey)>,
) -> bool {
    let i = prompt_id_index(old, prompt_id);
    if i < 0 || old[i].deciding {
        r is None && new == old
    } else {
        &&& r matches Some((e, p))
        &&& r->Some_0.0.host@ == old[i].host
        &&& r->Some_0.0.port == old[i].port
        &&& r->Some_0.1 == old[i].presented
        &&& new == old.update(i, PendingView { deciding: true, ..old[i] })
    }
}

/// The tokens other than `token`, in order.
pub open spec fn other_tokens(tokens: Seq<u128>, token: u128) -> Seq<u128> {
    tokens.filter(|t: u128| t != token)
}

/// How `HostTrustTable::release` changes the table: the owner's departure
/// withdraws the prompt, a waiter's departure removes its token only.
pub open spec fn release_outcome(
    old: Seq<PendingView>,
    endpoint: Endpoint,
    prompt_id: u128,
    owner: bool,
    waiter_token: u128,
    new: Seq<PendingView>,
    r: bool,
) -> bool {
    let i = prompt_index(old, endpoint.host@, endpoint.port);
    if i < 0 || old[i].prompt_id != prompt_id {
        !r && new == old
    } else if owner {
        r && new == old.remove(i)
    } else {
        &&& !r
        &&& new == old.update(
            i,
            PendingView { waiters: other_tokens(old[i].waiters, waiter_token), ..old[i] },
        )
    }
}

/// How `HostTrustTable::settle` changes the table.
pub open spec fn settle_outcome(old: Seq<PendingView>, endpoint: Endpoint, new: Seq<PendingView>, r: Option<Seq<u128>>) -> bool {
    let i = prompt_index(old, endpoint.host@, endpoint.port);
    if i < 0 {
        r is None && new == old
    } else {
        r == Some(old[i].waiters) && new == old.remove(i)
    }
}

/// Changing a prompt without changing its endpoint keeps one prompt per endpoint.
pub proof fn lemma_update_keeps_one_prompt(s: Seq<PendingView>, i: int, v: PendingView)
    requires
        one_prompt_per_endpoint(s),
        0 <= i < s.len(),
        v.host == s[i].host,
        v.port == s[i].port,
    ensures
        one_prompt_per_endpoint(s.update(i, v)),
{
    let t = s.update(i, v);
    assert forall|a: int, b: int| 0 <= a < b < t.len() implies !pending_at(
        #[trigger] t[b],
        (#[trigger] t[a]).host,
        t[a].port,
    ) by {
        assert(!pending_at(s[b], s[a].host, s[a].port));
    }
}

/// In a table with one prompt per endpoint, a prompt found at `i` is the
/// one `prompt_index` names.
pub proof fn lemma_prompt_index_is(s: Seq<PendingView>, host: Seq<char>, port: u16, i: int)
    requires
        one_prompt_per_endpoint(s),
        0 <= i < s.len(),
        pending_at(s[i], host, port),
    ensures
        prompt_index(s, host, port) == i,
{
    let c = choose|k: int| 0 <= k < s.len() && pending_at(#[trigger] s[k], host, port);
    if c < i {
        assert(pending_at(s[i], s[c].host, s[c].port));
    } else if c > i {
        assert(pending_at(s[c], s[i].host, s[i].port));
    }
}

/// The first prompt with this id is the one `prompt_id_index` names.
pub proof fn lemma_prompt_id_index_is(s: Seq<PendingView>, prompt_id: u128, i: int)
    requires
        0 <= i < s.len(),
        s[i].prompt_id == prompt_id,
        forall|j: int| 0 <= j < i ==> (#[trigger] s[j]).prompt_id != prompt_id,
    ensures
        prompt_id_index(s, prompt_id) == i,
{
    assert(is_first_prompt(s, prompt_id, i));
    let c = choose|k: int| is_first_prompt(s, prompt_id, k);
    if c < i {
    } else if c > i {
        assert(s[i].prompt_id != prompt_id);
    }
}

/// No two prompts share an id.
pub open spec fn distinct_prompt_ids(s: Seq<PendingView>) -> bool {
    forall|i: int, j: int| 0 <= i < j < s.len() ==> (#[trigger] s[i]).prompt_id != (#[trigger] s[j]).prompt_id
}

/// Every prompt id and waiter token of the table was issued.
pub open spec fn tokens_issued(s: Seq<PendingView>, issued: Seq<u128>) -> bool {
    forall|i: int| 0 <= i < s.len() ==> {
        &&& issued.contains((#[trigger] s[i]).prompt_id)
        &&& forall|k: int| 0 <= k < s[i].waiters.len() ==> issued.contains(#[trigger] s[i].waiters[k])
    }
}

/// A well-formed prompt table, given the tokens issued so far: one prompt
/// per endpoint, no two prompts with one id, and only issued tokens.
pub open spec fn trust_wf(s: Seq<PendingView>, issued: Seq<u128>) -> bool {
    &&& one_prompt_per_endpoint(s)
    &&& distinct_prompt_ids(s)
    &&& tokens_issued(s, issued)
}

/// Issuing one more token keeps a table well formed.
proof fn lemma_trust_wf_issue(s: Seq<PendingView>, issued: Seq<u128>, t: u128)
    requires
        trust_wf(s, issued),
    ensures
        trust_wf(s, issued.push(t)),
{
    let n = issued.push(t);
    assert forall|i: int| 0 <= i < s.len() implies {
        &&& n.contains((#[trigger] s[i]).prompt_id)
        &&& forall|k: int| 0 <= k < s[i].waiters.len() ==> n.contains(#[trigger] s[i].waiters[k])
    } by {
        let a = choose|m: int| 0 <= m < issued.len() && issued[m] == s[i].prompt_id;
        assert(n[a] == issued[a]);
        assert forall|k: int| 0 <= k < s[i].waiters.len() implies n.contains(#[trigger] s[i].waiters[k]) by {
            assert(issued.contains(s[i].waiters[k]));
            let b = choose|m: int| 0 <= m < issued.len() && issued[m] == s[i].waiters[k];
            assert(n[b] == issued[b]);
        }
    }
}

/// Removing a prompt keeps a table well formed.
proof fn lemma_trust_wf_remove(s: Seq<PendingView>, issued: Seq<u128>, i: int)
    requires
        trust_wf(s, issued),
        0 <= i < s.len(),
    ensures
        trust_wf(s.remove(i), issued),
{
    let t = s.remove(i);
    assert forall|a: int, b: int| 0 <= a < b < t.len() implies !pending_at(
        #[trigger] t[b],
        (#[trigger] t[a]).host,
        t[a].port,
    ) && t[a].prompt_id != t[b].prompt_id by {
        let a2 = if a < i { a } else { a + 1 };
        let b2 = if b < i { b } else { b + 1 };
        assert(t[a] == s[a2] && t[b] == s[b2]);
        assert(!pending_at(s[b2], s[a2].host, s[a2].port));
        assert(s[a2].prompt_id != s[b2].prompt_id);
    }
    assert forall|a: int| 0 <= a < t.len() implies {
        &&& issued.contains((#[trigger] t[a]).prompt_id)
        &&& forall|k: int| 0 <= k < t[a].waiters.len() ==> issued.contains(#[trigger] t[a].waiters[k])
    } by {
        let a2 = if a < i { a } else { a + 1 };
        assert(t[a] == s[a2]);
    }
}

/// Changing a prompt's waiters or progress, but not its endpoint or id,
/// keeps a table well formed when its waiters were issued.
proof fn lemma_trust_wf_update(s: Seq<PendingView>, issued: Seq<u128>, i: int, v: PendingView)
    requires
        trust_wf(s, issued),
        0 <= i < s.len(),
        v.host == s[i].host,
        v.port == s[i].port,
        v.prompt_id == s[i].prompt_id,
        forall|k: int| 0 <= k < v.waiters.len() ==> issued.contains(#[trigger] v.waiters[k]),
    ensures
        trust_wf(s.update(i, v), issued),
{
    lemma_update_keeps_one_prompt(s, i, v);
    let t = s.update(i, v);
    assert forall|a: int, b: int| 0 <= a < b < t.len() implies (#[trigger] t[a]).prompt_id
        != (#[trigger] t[b]).prompt_id by {
        assert(s[a].prompt_id != s[b].prompt_id);
    }
    assert forall|a: int| 0 <= a < t.len() implies {
        &&& issued.contains((#[trigger] t[a]).prompt_id)
        &&& forall|k: int| 0 <= k < t[a].waiters.len() ==> issued.contains(#[trigger] t[a].waiters[k])
    } by {
        if a != i {
            assert(t[a] == s[a]);
        }
    }
}

/// Opening a prompt under a token never issued, for an endpoint with no
/// prompt, keeps a table well formed once the token is issued.
proof fn lemma_trust_wf_open(s: Seq<PendingView>, issued: Seq<u128>, v: PendingView)
    requires
        trust_wf(s, issued),
        !issued.contains(v.prompt_id),
        forall|i: int| 0 <= i < s.len() ==> !pending_at(#[trigger] s[i], v.host, v.port),
        forall|k: int| 0 <= k < v.waiters.len() ==> #[trigger] v.waiters[k] == v.prompt_id,
    ensures
        trust_wf(s.push(v), issued.push(v.prompt_id)),
{
    let n = issued.push(v.prompt_id);
    lemma_trust_wf_issue(s, issued, v.prompt_id);
    let t = s.push(v);
    assert(n[issued.len() as int] == v.prompt_id);
    assert forall|a: int, b: int| 0 <= a < b < t.len() implies !pending_at(
        #[trigger] t[b],
        (#[trigger] t[a]).host,
        t[a].port,
    ) && t[a].prompt_id != t[b].prompt_id by {
        assert(t[a] == s[a]);
        if b < s.len() {
            assert(t[b] == s[b]);
            assert(!pending_at(s[b], s[a].host, s[a].port));
            assert(s[a].prompt_id != s[b].prompt_id);
        } else {
            assert(t[b] == v);
            assert(!pending_at(s[a], v.host, v.port));
            assert(issued.contains(s[a].prompt_id));
        }
    }
    assert forall|a: int| 0 <= a < t.len() implies {
        &&& n.contains((#[trigger] t[a]).prompt_id)
        &&& forall|k: int| 0 <= k < t[a].waiters.len() ==> n.contains(#[trigger] t[a].waiters[k])
    } by {
        if a < s.len() {
            assert(t[a] == s[a]);
        } else {
            assert(t[a] == v);
            assert forall|k: int| 0 <= k < t[a].waiters.len() implies n.contains(#[trigger] t[a].waiters[k]) by {
                assert(v.waiters[k] == v.prompt_id);
            }
        }
    }
}

/// In a well-formed table a prompt's id leads back to that prompt: an
/// answer to a pending prompt reaches the prompt it was asked for.
pub proof fn law_prompt_id_finds_its_prompt(s: Seq<PendingView>, issued: Seq<u128>, i: int)
    requires
        trust_wf(s, issued),
        0 <= i < s.len(),
    ensures
        prompt_id_index(s, s[i].prompt_id) == i,
{
    assert forall|j: int| 0 <= j < i implies (#[trigger] s[j]).prompt_id != s[i].prompt_id by {
        assert(s[j].prompt_id != s[i].prompt_id);
    }
    lemma_prompt_id_index_is(s, s[i].prompt_id, i);
}

/// An id the table never issued names no prompt: an answer to it finds
/// nothing to decide.
pub proof fn law_unissued_prompt_finds_nothing(s: Seq<PendingView>, issued: Seq<u128>, q: u128)
    requires
        trust_wf(s, issued),
        !issued.contains(q),
    ensures
        prompt_id_index(s, q) == -1,
{
    if exists|i: int| is_first_prompt(s, q, i) {
        let i = choose|i: int| is_first_prompt(s, q, i);
        assert(issued.contains(s[i].prompt_id));
    }
}

impl View for HostTrustTable {
    type V = Seq<PendingView>;

    closed spec fn view(&self) -> Seq<PendingView> {
        self.entries@.map_values(|p: PendingTrust| p@)
    }
}

impl HostTrustTable {
    /// The table is well formed: one prompt per endpoint, no two prompts
    /// with one id, and every prompt id and waiter token issued by it.
    pub open spec fn wf(&self) -> bool {
        trust_wf(self@, self.issued())
    }

    /// Every token handed to `register` so far, in order.
    pub closed spec fn issued(&self) -> Seq<u128> {
        self.issued@
    }

    /// Whether a token was never handed to `register`, so that a prompt id
    /// or waiter token drawn at random is new to the table.
    pub fn is_fresh(&self, token: u128) -> (b: bool)
        ensures
            b == !self.issued().contains(token),
    {
        let mut i: usize = 0;
        while i < self.issued.len()
            invariant
                i <= self.issued@.len(),
                forall|j: int| 0 <= j < i ==> self.issued@[j] != token,
            decreases self.issued.len() - i,
        {
            if self.issued[i] == token {
                assert(self.issued@[i as int] == token);
                return false;
            }
            i = i + 1;
        }
        true
    }

    /// An empty table.
    pub fn new() -> (r: Self)
        ensures
            r.wf(),
            r@ == Seq::<PendingView>::empty(),
            r.issued().len() == 0,
    {
        let r = HostTrustTable { entries: Vec::new(), issued: Vec::new() };
        assert(r@ =~= Seq::<PendingView>::empty());
        r
    }

    /// Index of the prompt for an endpoint.
    fn find_endpoint(&self, endpoint: &Endpoint) -> (r: Option<usize>)
        requires
            self.wf(),
        ensures
            match r {
                Some(i) => i < self@.len() && prompt_index(self@, endpoint.host@, endpoint.port) == i,
                None => prompt_index(self@, endpoint.host@, endpoint.port) == -1,
            },
    {
        let mut k: usize = 0;
        while k < self.entries.len()
            invariant
                k <= self.entries@.len(),
                self.wf(),
                forall|j: int| 0 <= j < k ==> !pending_at(#[trigger] self@[j], endpoint.host@, endpoint.port),
            decreases self.entries.len() - k,
        {
            let e = &self.entries[k];
            if e.endpoint.host == endpoint.host && e.endpoint.port == endpoint.port {
                proof {
                    assert(self@[k as int] == self.entries@[k as int]@);
                    lemma_prompt_index_is(self@, endpoint.host@, endpoint.port, k as int);
                }
                return Some(k);
            }
            assert(self@[k as int] == self.entries@[k as int]@);
            k = k + 1;
        }
        proof {
            if exists|i: int| 0 <= i < self@.len() && pending_at(#[trigger] self@[i], endpoint.host@, endpoint.port) {
                let i = choose|i: int| 0 <= i < self@.len() && pending_at(#[trigger] self@[i], endpoint.host@, endpoint.port);
                assert(!pending_at(self@[i], endpoint.host@, endpoint.port));
            }
        }
        None
    }

    /// Index of the first prompt with this id.
    fn find_prompt(&self, prompt_id: u128) -> (r: Option<usize>)
        ensures
            match r {
                Some(i) => i < self@.len() && prompt_id_index(self@, prompt_id) == i,
                None => prompt_id_index(self@, prompt_id) == -1,
            },
    {
        let mut k: usize = 0;
        while k < self.entries.len()
            invariant
                k <= self.entries@.len(),
                forall|j: int| 0 <= j < k ==> (#[trigger] self@[j]).prompt_id != prompt_id,
            decreases self.entries.len() - k,
        {
            assert(self@[k as int] == self.entries@[k as int]@);
            if self.entries[k].prompt_id == prompt_id {
                proof {
                    lemma_prompt_id_index_is(self@, prompt_id, k as int);
                }
                return Some(k);
            }
            k = k + 1;
        }
        proof {
            if exists|i: int| is_first_prompt(self@, prompt_id, i) {
                let i = choose|i: int| is_first_prompt(self@, prompt_id, i);
                assert(self@[i].prompt_id != prompt_id);
            }
        }
        None
    }

    /// Whether a prompt is open for the endpoint.
    pub fn is_pending(&self, endpoint: &Endpoint) -> (b: bool)
        requires
            self.wf(),
        ensures
            b == (prompt_index(self@, endpoint.host@, endpoint.port) >= 0),
    {
        self.find_endpoint(endpoint).is_some()
    }

    /// A connection met an unknown key for `endpoint` (canonical). It joins
    /// the open prompt for the same key, or opens one under `fresh` (then
    /// also its own token), or, when a different key is being prompted for,
    /// withdraws that prompt.
    pub fn register(&mut self, endpoint: Endpoint, presented: PresentedHostKey, fresh: u128) -> (r: Registration)
        requires
            old(self).wf(),
            !old(self).issued().contains(fresh),
        ensures
            final(self).wf(),
            register_outcome(old(self)@, endpoint, presented, fresh, final(self)@, r),
            final(self).issued() == old(self).issued().push(fresh),
    {
        let ghost old_issued = self.issued@;
        proof {
            lemma_trust_wf_issue(self@, old_issued, fresh);
            assert(!old_issued.contains(fresh));
        }
        self.issued.push(fresh);
        let ghost old_view = self@;
        assert(trust_wf(old_view, self.issued@));
        match self.find_endpoint(&endpoint) {
            None => {
                let mut waiters: Vec<u128> = Vec::new();
                waiters.push(fresh);
                let entry = PendingTrust {
                    endpoint,
                    prompt_id: fresh,
                    presented,
                    waiters,
                    deciding: false,
                };
                self.entries.push(entry);
                proof {
                    assert(waiters@ =~= seq![fresh]);
                    assert(self@ =~= old_view.push(self.entries@.last()@));
                    assert forall|i: int| 0 <= i < old_view.len() implies !pending_at(
                        #[trigger] old_view[i],
                        endpoint.host@,
                        endpoint.port,
                    ) by {
                        if pending_at(old_view[i], endpoint.host@, endpoint.port) {
                            lemma_prompt_index_is(old_view, endpoint.host@, endpoint.port, i);
                        }
                    }
                    lemma_trust_wf_open(old_view, old_issued, self.entries@.last()@);
                }
                Registration::Owner { prompt_id: fresh }
            },
            Some(i) => {
                if same_presented_key(&self.entries[i].presented, &presented) {
                    let prompt_id = self.entries[i].prompt_id;
                    let mut entry = self.entries.remove(i);
                    entry.waiters.push(fresh);
                    self.entries.insert(i, entry);
                    proof {
                        let v = PendingView { waiters: old_view[i as int].waiters.push(fresh), ..old_view[i as int] };
                        assert(self@ =~= old_view.update(i as int, v));
                        let n = self.issued@;
                        assert(n[old_issued.len() as int] == fresh);
                        assert forall|k: int| 0 <= k < v.waiters.len() implies n.contains(#[trigger] v.waiters[k]) by {
                            if k < old_view[i as int].waiters.len() {
                                assert(v.waiters[k] == old_view[i as int].waiters[k]);
                            }
                        }
                        lemma_trust_wf_update(old_view, n, i as int, v);
                    }
                    Registration::Joined { prompt_id, waiter_token: fresh }
                } else {
                    let entry = self.entries.remove(i);
                    proof {
                        assert(self@ =~= old_view.remove(i as int));
                        lemma_trust_wf_remove(old_view, self.issued@, i as int);
                    }
                    Registration::Conflict {
                        expected_sha256: entry.presented.fingerprint_sha256,
                        waiters: entry.waiters,
                    }
                }
            },
        }
    }

    /// The user answered prompt `prompt_id`. Returns the endpoint and key to
    /// store, or `None` when the prompt is unknown or already being decided.
    pub fn begin_decision(&mut self, prompt_id: u128) -> (r: Option<(Endpoint, PresentedHostKey)>)
        requires
            old(self).wf(),
        ensures
            final(self).wf(),
            begin_decision_outcome(old(self)@, prompt_id, final(self)@, r),
            final(self).issued() == old(self).issued(),
    {
        let ghost old_view = self@;
        match self.find_prompt(prompt_id) {
            None => None,
            Some(i) => {
                assert(old_view[i as int] == self.entries@[i as int]@);
                if self.entries[i].deciding {
                    return None;
                }
                let endpoint = self.entries[i].endpoint.clone();
                let presented = self.entries[i].presented.clone();
                let waiters = copy_tokens(&self.entries[i].waiters);
                let entry = PendingTrust {
                    endpoint: self.entries[i].endpoint.clone(),
                    prompt_id: self.entries[i].prompt_id,
                    presented: self.entries[i].presented.clone(),
                    waiters,
                    deciding: true,
                };
                self.entries.set(i, entry);
                proof {
                    let v = PendingView { deciding: true, ..old_view[i as int] };
                    assert(self@ =~= old_view.update(i as int, v));
                    lemma_trust_wf_update(old_view, self.issued@, i as int, v);
                }
                Some((endpoint, presented))
            },
        }
    }

    /// Closes the prompt for `endpoint` once it is decided, returning the
    /// tokens of the connections that waited on it.
    pub fn settle(&mut self, endpoint: &Endpoint) -> (r: Option<Vec<u128>>)
        requires
            old(self).wf(),
        ensures
            final(self).wf(),
            settle_outcome(old(self)@, *endpoint, final(self)@, match r {
                Some(v) => Some(v@),
                None => None,
            }),
            final(self).issued() == old(self).issued(),
    {
        let ghost old_view = self@;
        match self.find_endpoint(endpoint) {
            None => None,
            Some(i) => {
                let entry = self.entries.remove(i);
                proof {
                    assert(self@ =~= old_view.remove(i as int));
                    lemma_trust_wf_remove(old_view, self.issued@, i as int);
                }
                Some(entry.waiters)
            },
        }
    }

    /// A connection stops waiting on the prompt `prompt_id` for `endpoint`.
    /// Returns whether it was the owner and the prompt is withdrawn.
    pub fn release(&mut self, endpoint: &Endpoint, prompt_id: u128, owner: bool, waiter_token: u128) -> (r: bool)
        requires
            old(self).wf(),
        ensures
            final(self).wf(),
            release_outcome(old(self)@, *endpoint, prompt_id, owner, waiter_token, final(self)@, r),
            final(self).issued() == old(self).issued(),
    {
        let ghost old_view = self@;
        match self.find_endpoint(endpoint) {
            None => false,
            Some(i) => {
                assert(old_view[i as int] == self.entries@[i as int]@);
                if self.entries[i].prompt_id != prompt_id {
                    return false;
                }
                if owner {
                    self.entries.remove(i);
                    proof {
                        assert(self@ =~= old_view.remove(i as int));
                        lemma_trust_wf_remove(old_view, self.issued@, i as int);
                    }
                    true
                } else {
                    let mut entry = self.entries.remove(i);
                    entry.waiters = without_token(&entry.waiters, waiter_token);
                    self.entries.insert(i, entry);
                    proof {
                        let v = PendingView {
                            waiters: other_tokens(old_view[i as int].waiters, waiter_token),
                            ..old_view[i as int]
                        };
                        assert(self@ =~= old_view.update(i as int, v));
                        let w = old_view[i as int].waiters;
                        lemma_other_tokens_kept(w, waiter_token);
                        assert forall|k: int| 0 <= k < v.waiters.len() implies self.issued@.contains(
                            #[trigger] v.waiters[k],
                        ) by {
                            assert(w.contains(v.waiters[k]));
                            let m = choose|m: int| 0 <= m < w.len() && w[m] == v.waiters[k];
                        }
                        lemma_trust_wf_update(old_view, self.issued@, i as int, v);
                    }
                    false
                }
            },
        }
    }
}

/// The tokens other than `token` are among the tokens.
proof fn lemma_other_tokens_kept(tokens: Seq<u128>, token: u128)
    ensures
        forall|k: int|
            0 <= k < other_tokens(tokens, token).len() ==> tokens.contains(#[trigger] other_tokens(tokens, token)[k]),
    decreases tokens.len(),
{
    reveal_with_fuel(Seq::<_>::filter, 1);
    if tokens.len() > 0 {
        let rest = tokens.drop_last();
        lemma_other_tokens_kept(rest, token);
        let f = other_tokens(tokens, token);
        let g = other_tokens(rest, token);
        assert(f == (if tokens.last() != token { g.push(tokens.last()) } else { g }));
        assert forall|k: int| 0 <= k < f.len() implies tokens.contains(#[trigger] f[k]) by {
            if k < g.len() {
                assert(f[k] == g[k]);
                assert(rest.contains(g[k]));
                let m = choose|m: int| 0 <= m < rest.len() && rest[m] == g[k];
                assert(tokens[m] == rest[m]);
            } else {
                assert(f[k] == tokens.last());
                assert(tokens[tokens.len() - 1] == tokens.last());
            }
        }
    }
}

/// A copy of a list of tokens.
fn copy_tokens(tokens: &Vec<u128>) -> (r: Vec<u128>)
    ensures
        r@ == tokens@,
{
    let mut r: Vec<u128> = Vec::new();
    let mut i: usize = 0;
    while i < tokens.len()
        invariant
            i <= tokens@.len(),
            r@ == tokens@.take(i as int),
        decreases tokens.len() - i,
    {
        r.push(tokens[i]);
        i = i + 1;
        assert(r@ =~= tokens@.take(i as int));
    }
    assert(tokens@.take(tokens@.len() as int) =~= tokens@);
    r
}

/// The tokens other than `token`, in order.
fn without_token(tokens: &Vec<u128>, token: u128) -> (r: Vec<u128>)
    ensures
        r@ == other_tokens(tokens@, token),
{
    let mut r: Vec<u128> = Vec::new();
    let mut i: usize = 0;
    while i < tokens.len()
        invariant
            i <= tokens@.len(),
            r@ == other_tokens(tokens@.take(i as int), token),
        decreases tokens.len() - i,
    {
        proof {
            reveal_with_fuel(Seq::<_>::filter, 1);
            assert(tokens@.take(i + 1).drop_last() =~= tokens@.take(i as int));
        }
        if tokens[i] != token {
            r.push(tokens[i]);
        }
        i = i + 1;
    }
    assert(tokens@.take(tokens@.len() as int) =~= tokens@);
    r
}

/// The outcome published to the connections waiting on a prompt when the
/// user decides it and the key was (for an acceptance) stored with result
/// `stored`.
pub open spec fn published_outcome(decision: HostKeyDecision, stored: Result<(), StorageError>) -> TrustOutcome {
    match decision {
        HostKeyDecision::Reject => TrustOutcome::Rejected,
        HostKeyDecision::AcceptAndStore => match stored {
            Ok(()) => TrustOutcome::Accepted,
            Err(StorageError::HostKeyConflict) => TrustOutcome::Conflict,
            Err(_) => TrustOutcome::Rejected,
        },
    }
}

/// The result of a decision and the outcome published to the waiting
/// connections. A rejection always succeeds; an acceptance depends on
/// storing the key (`stored`): a conflicting stored key reports a changed
/// key, any other storage failure a store failure.
pub fn decision_outcome(decision: HostKeyDecision, stored: &Result<(), StorageError>) -> (r: (
    Result<(), SessionError>,
    TrustOutcome,
))
    ensures
        decision == HostKeyDecision::Reject ==> r == (Ok::<(), SessionError>(()), TrustOutcome::Rejected),
        decision == HostKeyDecision::AcceptAndStore ==> r == match stored {
            Ok(()) => (Ok::<(), SessionError>(()), TrustOutcome::Accepted),
            Err(StorageError::HostKeyConflict) => (Err(SessionError::HostKeyChanged), TrustOutcome::Conflict),
            Err(_) => (Err(SessionError::HostKeyStoreFailed), TrustOutcome::Rejected),
        },
        r.1 == published_outcome(decision, *stored),
{
    match decision {
        HostKeyDecision::Reject => (Ok(()), TrustOutcome::Rejected),
        HostKeyDecision::AcceptAndStore => match stored {
            Ok(()) => (Ok(()), TrustOutcome::Accepted),
            Err(StorageError::HostKeyConflict) => (Err(SessionError::HostKeyChanged), TrustOutcome::Conflict),
            Err(_) => (Err(SessionError::HostKeyStoreFailed), TrustOutcome::Rejected),
        },
    }
}


/// Concurrent connections to one endpoint that present the same key share
/// one prompt: the second joins the prompt the first opened or joined.
pub proof fn law_same_key_shares_one_prompt(
    old: Seq<PendingView>,
    endpoint: Endpoint,
    first_key: PresentedHostKey,
    first_fresh: u128,
    mid: Seq<PendingView>,
    first: Registration,
    second_key: PresentedHostKey,
    second_fresh: u128,
    new: Seq<PendingView>,
    second: Registration,
)
    requires
        one_prompt_per_endpoint(old),
        one_prompt_per_endpoint(mid),
        register_outcome(old, endpoint, first_key, first_fresh, mid, first),
        !(first is Conflict),
        register_outcome(mid, endpoint, second_key, second_fresh, new, second),
        same_presented(first_key, second_key),
    ensures
        (second == Registration::Joined {
            prompt_id: match first {
                Registration::Owner { prompt_id } => prompt_id,
                Registration::Joined { prompt_id, .. } => prompt_id,
                Registration::Conflict { .. } => 0,
            },
            waiter_token: second_fresh,
        }),
        new.len() == mid.len(),
{
    let h = endpoint.host@;
    let p = endpoint.port;
    let i = prompt_index(old, h, p);
    if i < 0 {
        let n = old.len() as int;
        assert(pending_at(mid[n], h, p));
        lemma_prompt_index_is(mid, h, p, n);
    } else {
        assert(pending_at(old[i], h, p)) by {
            let c = choose|k: int| 0 <= k < old.len() && pending_at(#[trigger] old[k], h, p);
        }
        assert(pending_at(mid[i], h, p));
        lemma_prompt_index_is(mid, h, p, i);
    }
}

/// A connection presenting a different key for an endpoint with an open
/// prompt withdraws that prompt: every waiter learns of the changed key
/// and no prompt stays open for the endpoint.
pub proof fn law_changed_key_withdraws_prompt(
    old: Seq<PendingView>,
    endpoint: Endpoint,
    presented: PresentedHostKey,
    fresh: u128,
    new: Seq<PendingView>,
    r: Registration,
    i: int,
)
    requires
        one_prompt_per_endpoint(old),
        0 <= i < old.len(),
        pending_at(old[i], endpoint.host@, endpoint.port),
        !same_presented(old[i].presented, presented),
        register_outcome(old, endpoint, presented, fresh, new, r),
    ensures
        (r is Conflict),
        r->waiters@ == old[i].waiters,
        prompt_index(new, endpoint.host@, endpoint.port) == -1,
{
    let h = endpoint.host@;
    let p = endpoint.port;
    lemma_prompt_index_is(old, h, p, i);
    assert forall|k: int| 0 <= k < new.len() implies !pending_at(#[trigger] new[k], h, p) by {
        if k < i {
            assert(new[k] == old[k]);
            assert(!pending_at(old[i], old[k].host, old[k].port));
        } else {
            assert(new[k] == old[k + 1]);
            assert(!pending_at(old[k + 1], old[i].host, old[i].port));
        }
    }
}

/// A prompt is decided at most once: a second answer finds nothing to do.
pub proof fn law_prompt_is_decided_once(
    old: Seq<PendingView>,
    prompt_id: u128,
    mid: Seq<PendingView>,
    first: Option<(Endpoint, PresentedHostKey)>,
    new: Seq<PendingView>,
    second: Option<(Endpoint, PresentedHostKey)>,
)
    requires
        begin_decision_outcome(old, prompt_id, mid, first),
        (first is Some),
        begin_decision_outcome(mid, prompt_id, new, second),
    ensures
        (second is None),
        new == mid,
{
    let i = prompt_id_index(old, prompt_id);
    assert(is_first_prompt(old, prompt_id, i));
    assert forall|j: int| 0 <= j < i implies (#[trigger] mid[j]).prompt_id != prompt_id by {
        assert(mid[j] == old[j]);
    }
    lemma_prompt_id_index_is(mid, prompt_id, i);
}

/// When the connection that owns a prompt goes away, the prompt is
/// withdrawn and the next connection to the endpoint opens a fresh one.
pub proof fn law_abandoned_prompt_allows_a_fresh_one(
    old: Seq<PendingView>,
    endpoint: Endpoint,
    prompt_id: u128,
    waiter_token: u128,
    mid: Seq<PendingView>,
    released: bool,
    presented: PresentedHostKey,
    fresh: u128,
    new: Seq<PendingView>,
    r: Registration,
)
    requires
        one_prompt_per_endpoint(old),
        release_outcome(old, endpoint, prompt_id, true, waiter_token, mid, released),
        released,
        register_outcome(mid, endpoint, presented, fresh, new, r),
    ensures
        (r == Registration::Owner { prompt_id: fresh }),
{
    let h = endpoint.host@;
    let p = endpoint.port;
    let i = prompt_index(old, h, p);
    assert(pending_at(old[i], h, p)) by {
        let c = choose|k: int| 0 <= k < old.len() && pending_at(#[trigger] old[k], h, p);
    }
    assert forall|k: int| 0 <= k < mid.len() implies !pending_at(#[trigger] mid[k], h, p) by {
        if k < i {
            assert(mid[k] == old[k]);
            assert(!pending_at(old[i], old[k].host, old[k].port));
        } else {
            assert(mid[k] == old[k + 1]);
            assert(!pending_at(old[k + 1], old[i].host, old[i].port));
        }
    }
}

/// A waiting connection that goes away leaves the prompt open for the
/// others, without its token.
pub proof fn law_abandoned_waiter_leaves_prompt_open(
    old: Seq<PendingView>,
    endpoint: Endpoint,
    prompt_id: u128,
    waiter_token: u128,
    new: Seq<PendingView>,
    r: bool,
)
    requires
        one_prompt_per_endpoint(old),
        release_outcome(old, endpoint, prompt_id, false, waiter_token, new, r),
    ensures
        !r,
        prompt_index(new, endpoint.host@, endpoint.port) == prompt_index(old, endpoint.host@, endpoint.port),
        prompt_index(old, endpoint.host@, endpoint.port) >= 0 ==> !new[prompt_index(
            new,
            endpoint.host@,
            endpoint.port,
        )].waiters.contains(waiter_token) || old[prompt_index(old, endpoint.host@, endpoint.port)].prompt_id != prompt_id,
{
    let h = endpoint.host@;
    let p = endpoint.port;
    let i = prompt_index(old, h, p);
    if i >= 0 {
        assert(pending_at(old[i], h, p)) by {
            let c = choose|k: int| 0 <= k < old.len() && pending_at(#[trigger] old[k], h, p);
        }
        if old[i].prompt_id == prompt_id {
            lemma_update_keeps_one_prompt(old, i, new[i]);
            lemma_prompt_index_is(new, h, p, i);
            let w = other_tokens(old[i].waiters, waiter_token);
            if w.contains(waiter_token) {
                let k = choose|k: int| 0 <= k < w.len() && w[k] == waiter_token;
                old[i].waiters.lemma_filter_pred(|t: u128| t != waiter_token, k);
            }
        }
    }
}

/// When some entry carries prompt id `p`, a first one does.
proof fn lemma_prompt_has_first(s: Seq<PendingView>, p: u128, i: int)
    requires
        0 <= i < s.len(),
        s[i].prompt_id == p,
    ensures
        prompt_id_index(s, p) >= 0,
    decreases i,
{
    if exists|j: int| 0 <= j < i && (#[trigger] s[j]).prompt_id == p {
        let j = choose|j: int| 0 <= j < i && (#[trigger] s[j]).prompt_id == p;
        lemma_prompt_has_first(s, p, j);
    } else {
        assert(is_first_prompt(s, p, i));
    }
}

/// A prompt that is no longer pending does not come back: registering a
/// token the table never issued cannot reopen a prompt id it issued before,
/// so a late answer to a settled or withdrawn prompt finds nothing to
/// decide.
pub proof fn law_withdrawn_prompt_stays_withdrawn(
    old: Seq<PendingView>,
    issued: Seq<u128>,
    endpoint: Endpoint,
    presented: PresentedHostKey,
    fresh: u128,
    new: Seq<PendingView>,
    r: Registration,
    p: u128,
)
    requires
        issued.contains(p),
        !issued.contains(fresh),
        prompt_id_index(old, p) == -1,
        register_outcome(old, endpoint, presented, fresh, new, r),
    ensures
        prompt_id_index(new, p) == -1,
        forall|newer: Seq<PendingView>, d: Option<(Endpoint, PresentedHostKey)>|
            #[trigger] begin_decision_outcome(new, p, newer, d) ==> d is None && newer == new,
{
    assert(fresh != p);
    assert forall|k: int| 0 <= k < old.len() implies (#[trigger] old[k]).prompt_id != p by {
        if old[k].prompt_id == p {
            lemma_prompt_has_first(old, p, k);
        }
    }
    if exists|k: int| 0 <= k < new.len() && (#[trigger] new[k]).prompt_id == p {
        let k = choose|k: int| 0 <= k < new.len() && (#[trigger] new[k]).prompt_id == p;
        let i = prompt_index(old, endpoint.host@, endpoint.port);
        if i < 0 {
            if k < old.len() {
                assert(new[k] == old[k]);
            }
        } else if same_presented(old[i].presented, presented) {
            assert(new[k].prompt_id == old[k].prompt_id);
        } else {
            if k < i {
                assert(new[k] == old[k]);
            } else {
                assert(new[k] == old[k + 1]);
            }
        }
        assert(false);
    }
    assert(!exists|k: int| is_first_prompt(new, p, k));
}

/// No prompt carries the id: `prompt_id_index` finds none.
proof fn lemma_absent_prompt_id(t: Seq<PendingView>, p: u128)
    requires
        forall|k: int| 0 <= k < t.len() ==> (#[trigger] t[k]).prompt_id != p,
    ensures
        prompt_id_index(t, p) == -1,
{
    if exists|k: int| is_first_prompt(t, p, k) {
        let k = choose|k: int| is_first_prompt(t, p, k);
        assert(t[k].prompt_id != p);
    }
}

/// A connection meeting an unknown key for an endpoint with no open prompt
/// opens one under its fresh id, and the user's answer to that id reaches
/// exactly this prompt: the endpoint and the key it presented.
pub proof fn law_unknown_host_prompt_is_answered(
    old: Seq<PendingView>,
    issued: Seq<u128>,
    endpoint: Endpoint,
    presented: PresentedHostKey,
    fresh: u128,
    mid: Seq<PendingView>,
    r: Registration,
    new: Seq<PendingView>,
    d: Option<(Endpoint, PresentedHostKey)>,
)
    requires
        trust_wf(old, issued),
        !issued.contains(fresh),
        prompt_index(old, endpoint.host@, endpoint.port) == -1,
        register_outcome(old, endpoint, presented, fresh, mid, r),
        begin_decision_outcome(mid, fresh, new, d),
    ensures
        (r == Registration::Owner { prompt_id: fresh }),
        d is Some,
        d->Some_0.0.host@ == endpoint.host@,
        d->Some_0.0.port == endpoint.port,
        d->Some_0.1 == presented,
{
    let n = old.len() as int;
    assert forall|j: int| 0 <= j < n implies (#[trigger] mid[j]).prompt_id != fresh by {
        assert(mid[j] == old[j]);
        assert(issued.contains(old[j].prompt_id));
    }
    lemma_prompt_id_index_is(mid, fresh, n);
}

/// Connections to one endpoint presenting the same key share one prompt:
/// the second joins the first's, one answer reaches it, and settling it
/// hands the outcome to both.
pub proof fn law_same_key_connections_share_one_answer(
    old: Seq<PendingView>,
    issued: Seq<u128>,
    endpoint: Endpoint,
    first_key: PresentedHostKey,
    first_fresh: u128,
    mid: Seq<PendingView>,
    first: Registration,
    second_key: PresentedHostKey,
    second_fresh: u128,
    new: Seq<PendingView>,
    second: Registration,
    decided: Seq<PendingView>,
    d: Option<(Endpoint, PresentedHostKey)>,
    settled: Seq<PendingView>,
    w: Option<Seq<u128>>,
)
    requires
        trust_wf(old, issued),
        !issued.contains(first_fresh),
        !issued.push(first_fresh).contains(second_fresh),
        prompt_index(old, endpoint.host@, endpoint.port) == -1,
        register_outcome(old, endpoint, first_key, first_fresh, mid, first),
        register_outcome(mid, endpoint, second_key, second_fresh, new, second),
        same_presented(first_key, second_key),
        begin_decision_outcome(new, first_fresh, decided, d),
        settle_outcome(decided, endpoint, settled, w),
    ensures
        (first == Registration::Owner { prompt_id: first_fresh }),
        (second == Registration::Joined { prompt_id: first_fresh, waiter_token: second_fresh }),
        d is Some,
        d->Some_0.0.host@ == endpoint.host@,
        d->Some_0.0.port == endpoint.port,
        d->Some_0.1 == first_key,
        w == Some(seq![first_fresh, second_fresh]),
        prompt_index(settled, endpoint.host@, endpoint.port) == -1,
{
    let h = endpoint.host@;
    let p = endpoint.port;
    let n = old.len() as int;
    let i1 = issued.push(first_fresh);
    let i2 = i1.push(second_fresh);
    let v = mid[n];
    assert forall|k: int| 0 <= k < old.len() implies !pending_at(#[trigger] old[k], v.host, v.port) by {
        if pending_at(old[k], h, p) {
            lemma_prompt_index_is(old, h, p, k);
        }
    }
    assert(v.waiters =~= seq![first_fresh]);
    assert(mid =~= old.push(v));
    lemma_trust_wf_open(old, issued, v);
    lemma_prompt_index_is(mid, h, p, n);
    let v2 = PendingView { waiters: v.waiters.push(second_fresh), ..v };
    assert(new == mid.update(n, v2));
    lemma_trust_wf_issue(mid, i1, second_fresh);
    assert(i2[i1.len() as int] == second_fresh);
    assert(i2[issued.len() as int] == first_fresh);
    assert forall|k: int| 0 <= k < v2.waiters.len() implies i2.contains(#[trigger] v2.waiters[k]) by {
        if k == 0 {
            assert(v2.waiters[k] == first_fresh);
        } else {
            assert(v2.waiters[k] == second_fresh);
        }
    }
    lemma_trust_wf_update(mid, i2, n, v2);
    law_prompt_id_finds_its_prompt(new, i2, n);
    let v3 = PendingView { deciding: true, ..v2 };
    assert(decided == new.update(n, v3));
    lemma_trust_wf_update(new, i2, n, v3);
    lemma_prompt_index_is(decided, h, p, n);
    assert(v2.waiters =~= seq![first_fresh, second_fresh]);
    assert(settled == decided.remove(n));
    assert(settled =~= old);
}

/// A connection presenting a different key withdraws the open prompt, and
/// a later answer to that prompt finds nothing to decide (so nothing is
/// stored).
pub proof fn law_changed_key_leaves_nothing_to_decide(
    old: Seq<PendingView>,
    issued: Seq<u128>,
    endpoint: Endpoint,
    presented: PresentedHostKey,
    fresh: u128,
    new: Seq<PendingView>,
    r: Registration,
    i: int,
    newer: Seq<PendingView>,
    d: Option<(Endpoint, PresentedHostKey)>,
)
    requires
        trust_wf(old, issued),
        0 <= i < old.len(),
        pending_at(old[i], endpoint.host@, endpoint.port),
        !same_presented(old[i].presented, presented),
        register_outcome(old, endpoint, presented, fresh, new, r),
        begin_decision_outcome(new, old[i].prompt_id, newer, d),
    ensures
        (r is Conflict),
        r->waiters@ == old[i].waiters,
        d is None,
        newer == new,
{
    lemma_prompt_index_is(old, endpoint.host@, endpoint.port, i);
    assert forall|k: int| 0 <= k < new.len() implies (#[trigger] new[k]).prompt_id != old[i].prompt_id by {
        if k < i {
            assert(new[k] == old[k]);
        } else {
            assert(new[k] == old[k + 1]);
        }
    }
    lemma_absent_prompt_id(new, old[i].prompt_id);
}

/// When the connection owning a prompt goes away, the next connection to
/// the endpoint opens a prompt under a different id, and the answer to the
/// new id reaches it.
pub proof fn law_abandoned_prompt_reopens_under_a_new_id(
    old: Seq<PendingView>,
    issued: Seq<u128>,
    endpoint: Endpoint,
    prompt_id: u128,
    waiter_token: u128,
    mid: Seq<PendingView>,
    released: bool,
    presented: PresentedHostKey,
    fresh: u128,
    new: Seq<PendingView>,
    r: Registration,
    newer: Seq<PendingView>,
    d: Option<(Endpoint, PresentedHostKey)>,
)
    requires
        trust_wf(old, issued),
        !issued.contains(fresh),
        release_outcome(old, endpoint, prompt_id, true, waiter_token, mid, released),
        released,
        register_outcome(mid, endpoint, presented, fresh, new, r),
        begin_decision_outcome(new, fresh, newer, d),
    ensures
        (r == Registration::Owner { prompt_id: fresh }),
        fresh != prompt_id,
        d is Some,
        d->Some_0.0.host@ == endpoint.host@,
        d->Some_0.0.port == endpoint.port,
        d->Some_0.1 == presented,
{
    let h = endpoint.host@;
    let p = endpoint.port;
    let i = prompt_index(old, h, p);
    assert(pending_at(old[i], h, p)) by {
        let c = choose|k: int| 0 <= k < old.len() && pending_at(#[trigger] old[k], h, p);
    }
    assert(issued.contains(old[i].prompt_id));
    lemma_trust_wf_remove(old, issued, i);
    assert(mid == old.remove(i));
    law_abandoned_prompt_allows_a_fresh_one(old, endpoint, prompt_id, waiter_token, mid, released, presented, fresh, new, r);
    assert forall|k: int| 0 <= k < mid.len() implies !pending_at(#[trigger] mid[k], h, p) by {
        if k < i {
            assert(mid[k] == old[k]);
            assert(!pending_at(old[i], old[k].host, old[k].port));
        } else {
            assert(mid[k] == old[k + 1]);
            assert(!pending_at(old[k + 1], old[i].host, old[i].port));
        }
    }
    assert(prompt_index(mid, h, p) == -1);
    law_unknown_host_prompt_is_answered(mid, issued, endpoint, presented, fresh, new, r, newer, d);
}

/// Once a prompt is settled, a later answer to it finds nothing to decide.
pub proof fn law_settled_prompt_finds_nothing(
    old: Seq<PendingView>,
    issued: Seq<u128>,
    endpoint: Endpoint,
    i: int,
    new: Seq<PendingView>,
    w: Option<Seq<u128>>,
)
    requires
        trust_wf(old, issued),
        0 <= i < old.len(),
        pending_at(old[i], endpoint.host@, endpoint.port),
        settle_outcome(old, endpoint, new, w),
    ensures
        prompt_id_index(new, old[i].prompt_id) == -1,
{
    lemma_prompt_index_is(old, endpoint.host@, endpoint.port, i);
    assert forall|k: int| 0 <= k < new.len() implies (#[trigger] new[k]).prompt_id != old[i].prompt_id by {
        if k < i {
            assert(new[k] == old[k]);
        } else {
            assert(new[k] == old[k + 1]);
        }
    }
    lemma_absent_prompt_id(new, old[i].prompt_id);
}

/// The event a connection reports once it has registered for a prompt:
/// the owner puts the unknown key to the user under the prompt's id; a
/// connection that joined reports nothing; a conflicting key is reported
/// as changed, with the fingerprint expected and the one presented.
pub fn registration_event(r: &Registration, endpoint: &Endpoint, presented: &PresentedHostKey) -> (e: Option<
    SessionEvent,
>)
    ensures
        e == match *r {
            Registration::Owner { prompt_id } => Some(
                SessionEvent::UnknownHostKey {
                    prompt_id,
                    endpoint: *endpoint,
                    algorithm: presented.algorithm,
                    fingerprint_sha256: presented.fingerprint_sha256,
                },
            ),
            Registration::Joined { .. } => None,
            Registration::Conflict { expected_sha256, .. } => Some(
                SessionEvent::ChangedHostKey {
                    endpoint: *endpoint,
                    expected_sha256,
                    presented_sha256: presented.fingerprint_sha256,
                },
            ),
        },
{
    match r {
        Registration::Owner { prompt_id } => Some(
            SessionEvent::UnknownHostKey {
                prompt_id: *prompt_id,
                endpoint: endpoint.clone(),
                algorithm: presented.algorithm.clone(),
                fingerprint_sha256: presented.fingerprint_sha256.clone(),
            },
        ),
        Registration::Joined { .. } => None,
        Registration::Conflict { expected_sha256, .. } => Some(
            SessionEvent::ChangedHostKey {
                endpoint: endpoint.clone(),
                expected_sha256: expected_sha256.clone(),
                presented_sha256: presented.fingerprint_sha256.clone(),
            },
        ),
    }
}

/// Every connection waiting on a prompt gets the user's answer: after an
/// acceptance whose key was stored, success; after a rejection, a rejected
/// key; when the store already held another key, a changed key; when
/// storing failed otherwise, a rejected key.
pub proof fn law_answer_reaches_every_waiter(decision: HostKeyDecision, stored: Result<(), StorageError>)
    ensures
        decision == HostKeyDecision::Reject ==> settled_result_of(published_outcome(decision, stored)) == Some(
            Err::<(), SessionError>(SessionError::HostKeyRejected),
        ),
        decision == HostKeyDecision::AcceptAndStore && stored is Ok ==> settled_result_of(
            published_outcome(decision, stored),
        ) == Some(Ok::<(), SessionError>(())),
        decision == HostKeyDecision::AcceptAndStore && stored == Err::<(), StorageError>(
            StorageError::HostKeyConflict,
        ) ==> settled_result_of(published_outcome(decision, stored)) == Some(
            Err::<(), SessionError>(SessionError::HostKeyChanged),
        ),
        decision == HostKeyDecision::AcceptAndStore && stored is Err && stored != Err::<(), StorageError>(
            StorageError::HostKeyConflict,
        ) ==> settled_result_of(published_outcome(decision, stored)) == Some(
            Err::<(), SessionError>(SessionError::HostKeyRejected),
        ),
        settled_result_of(published_outcome(decision, stored)) is Some,
{
}

} // verus!
