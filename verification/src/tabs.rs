//! Tabs: each runs one session in its own terminal. A tab follows its
//! session's events through explicit states; the collection keeps the
//! active tab and a first-in first-out queue of the modal requests
//! (host-key prompts, secret prompts, close confirmations) tabs raise.

use std::collections::VecDeque;

use vstd::prelude::*;

use crate::input::{InputEncoder, InputMode, KeyInput, PasteError};
use crate::model::{random_uuid, ConnectionProfile, Endpoint, ProfileId, SessionId};
use crate::session::{HostKeyDecision, SendInputError, SessionError, SessionEvent, SessionState};
use crate::terminal::{TerminalAction, TerminalColors, TerminalError, TerminalSize};

verus! {

/// Identifier of a tab.
#[derive(Clone, Copy, Debug, PartialEq, Eq, Hash, Structural)]
pub struct TabId(pub u128);

impl TabId {
    /// A fresh random identifier.
    pub fn new() -> (r: Self)
        ensures
            (r.0 >> 76u128) & 0xfu128 == 4,
            (r.0 >> 62u128) & 0x3u128 == 2,
    {
        TabId(random_uuid())
    }
}

/// Why a tab's session ended.
#[derive(Clone, Copy, Debug, PartialEq, Eq, Structural)]
pub enum DisconnectReason {
    Session(SessionError),
    Exit(Option<u32>),
    Closed,
}

/// Where a tab stands.
#[derive(Clone, Copy, Debug, PartialEq, Eq, Structural)]
pub enum TabState {
    Connecting,
    AwaitingHostKey,
    AwaitingSecret,
    Connected,
    Disconnected { reason: DisconnectReason },
}

/// A problem local to a tab (not a session failure).
#[derive(Clone, Copy, Debug, PartialEq, Eq, Structural)]
pub enum TabLocalError {
    InputQueueFull,
    InputClosed,
    PasteTooLarge,
    InvalidTerminalSize,
}

/// What the user interface should do after a tab changed.
#[derive(Clone, Copy, Debug, PartialEq, Eq, Structural)]
pub enum TabNotification {
    Repaint,
    Bell,
    LocalError(TabLocalError),
}

/// A request for the user's attention, raised by a tab.
#[derive(Debug, PartialEq, Eq)]
pub enum ModalRequest {
    HostKey {
        tab_id: TabId,
        prompt_id: u128,
        endpoint: Endpoint,
        algorithm: String,
        fingerprint_sha256: String,
    },
    ChangedHostKey {
        tab_id: TabId,
        endpoint: Endpoint,
        expected_sha256: String,
        presented_sha256: String,
    },
    Secret { tab_id: TabId },
    ConfirmClose { tab_id: TabId },
}

/// The tab a request belongs to.
pub open spec fn request_tab(r: ModalRequest) -> TabId {
    match r {
        ModalRequest::HostKey { tab_id, .. } => tab_id,
        ModalRequest::ChangedHostKey { tab_id, .. } => tab_id,
        ModalRequest::Secret { tab_id } => tab_id,
        ModalRequest::ConfirmClose { tab_id } => tab_id,
    }
}

/// Which kind of request it is.
pub open spec fn request_kind(r: ModalRequest) -> int {
    match r {
        ModalRequest::HostKey { .. } => 0,
        ModalRequest::ChangedHostKey { .. } => 1,
        ModalRequest::Secret { .. } => 2,
        ModalRequest::ConfirmClose { .. } => 3,
    }
}

impl ModalRequest {
    /// The tab the request belongs to.
    pub fn tab_id(&self) -> (r: TabId)
        ensures
            r == request_tab(*self),
    {
        match self {
            ModalRequest::HostKey { tab_id, .. } => *tab_id,
            ModalRequest::ChangedHostKey { tab_id, .. } => *tab_id,
            ModalRequest::Secret { tab_id } => *tab_id,
            ModalRequest::ConfirmClose { tab_id } => *tab_id,
        }
    }

    /// Which kind of request it is.
    fn kind(&self) -> (r: u8)
        ensures
            r == request_kind(*self),
    {
        match self {
            ModalRequest::HostKey { .. } => 0,
            ModalRequest::ChangedHostKey { .. } => 1,
            ModalRequest::Secret { .. } => 2,
            ModalRequest::ConfirmClose { .. } => 3,
        }
    }
}

/// The queue already holds a request of the same kind for the same tab.
pub open spec fn duplicate_request(q: Seq<ModalRequest>, r: ModalRequest) -> bool {
    exists|i: int|
        0 <= i < q.len() && request_tab(#[trigger] q[i]) == request_tab(r) && request_kind(q[i])
            == request_kind(r)
}

/// The queue already holds a host-key request for the same prompt.
pub open spec fn duplicate_prompt(q: Seq<ModalRequest>, r: ModalRequest) -> bool {
    r is HostKey && exists|i: int|
        0 <= i < q.len() && (#[trigger] q[i]) is HostKey && q[i]->HostKey_prompt_id
            == r->HostKey_prompt_id
}

/// The queue after `push(r)`: unchanged for a duplicate request or a prompt
/// already queued, `r` appended otherwise.
pub open spec fn pushed(q: Seq<ModalRequest>, r: ModalRequest) -> Seq<ModalRequest> {
    if duplicate_request(q, r) || duplicate_prompt(q, r) {
        q
    } else {
        q.push(r)
    }
}

/// The requests of a tab, in queue order.
pub open spec fn requests_of(q: Seq<ModalRequest>, tab: TabId) -> Seq<ModalRequest> {
    q.filter(|r: ModalRequest| request_tab(r) == tab)
}

/// The requests of the other tabs, in queue order.
pub open spec fn requests_not_of(q: Seq<ModalRequest>, tab: TabId) -> Seq<ModalRequest> {
    q.filter(|r: ModalRequest| request_tab(r) != tab)
}

/// No tab has two requests of one kind, and no prompt is queued twice.
pub open spec fn queue_is_canonical(q: Seq<ModalRequest>) -> bool {
    &&& forall|i: int, j: int|
        0 <= i < j < q.len() ==> !(request_tab(#[trigger] q[i]) == request_tab(#[trigger] q[j])
            && request_kind(q[i]) == request_kind(q[j]))
    &&& forall|i: int, j: int|
        0 <= i < j < q.len() && (#[trigger] q[i]) is HostKey && (#[trigger] q[j]) is HostKey
            ==> q[i]->HostKey_prompt_id != q[j]->HostKey_prompt_id
}

/// The requests waiting for the user, oldest first.
#[derive(Debug)]
pub struct ModalQueue {
    requests: VecDeque<ModalRequest>,
}

impl View for ModalQueue {
    type V = Seq<ModalRequest>;

    closed spec fn view(&self) -> Seq<ModalRequest> {
        self.requests@
    }
}

impl Default for ModalQueue {
    fn default() -> (r: Self)
        ensures
            r@ == Seq::<ModalRequest>::empty(),
    {
        ModalQueue { requests: VecDeque::new() }
    }
}

impl ModalQueue {
    /// An empty queue.
    pub fn new() -> (r: Self)
        ensures
            r@ == Seq::<ModalRequest>::empty(),
    {
        ModalQueue { requests: VecDeque::new() }
    }

    /// The oldest request.
    pub fn current(&self) -> (r: Option<&ModalRequest>)
        ensures
            self@.len() == 0 ==> r is None,
            self@.len() > 0 ==> r == Some(&self@[0]),
    {
        if self.requests.len() > 0 {
            Some(&self.requests[0])
        } else {
            None
        }
    }

    /// Queues a request, unless the same tab already has one of its kind
    /// or the same host-key prompt is already queued for another tab.
    pub fn push(&mut self, request: ModalRequest)
        ensures
            final(self)@ == pushed(old(self)@, request),
    {
        let kind = request.kind();
        let tab = request.tab_id();
        let n = self.requests.len();
        let mut i: usize = 0;
        while i < n
            invariant
                n == self.requests@.len(),
                i <= n,
                kind == request_kind(request),
                tab == request_tab(request),
                forall|j: int|
                    0 <= j < i ==> !(request_tab(#[trigger] self.requests@[j]) == tab && request_kind(
                        self.requests@[j],
                    ) == kind),
                forall|j: int|
                    0 <= j < i ==> !(request is HostKey && (#[trigger] self.requests@[j]) is HostKey
                        && self.requests@[j]->HostKey_prompt_id == request->HostKey_prompt_id),
            decreases n - i,
        {
            let existing = &self.requests[i];
            if existing.tab_id() == tab && existing.kind() == kind {
                return;
            }
            match (existing, &request) {
                (
                    ModalRequest::HostKey { prompt_id: queued, .. },
                    ModalRequest::HostKey { prompt_id: new_prompt, .. },
                ) => {
                    if *queued == *new_prompt {
                        return;
                    }
                },
                _ => {},
            }
            i = i + 1;
        }
        self.requests.push_back(request);
    }

    /// Takes the oldest request off the queue.
    pub fn complete_current(&mut self) -> (r: Option<ModalRequest>)
        ensures
            old(self)@.len() == 0 ==> r is None && final(self)@ == old(self)@,
            old(self)@.len() > 0 ==> r == Some(old(self)@[0]) && final(self)@ == old(self)@.drop_first(),
    {
        let r = self.requests.pop_front();
        proof {
            if old(self)@.len() > 0 {
                assert(self.requests@ =~= old(self)@.drop_first());
            }
        }
        r
    }

    /// Takes every request of a tab off the queue, returning them in order.
    pub fn remove_tab(&mut self, tab_id: TabId) -> (removed: Vec<ModalRequest>)
        ensures
            removed@ == requests_of(old(self)@, tab_id),
            final(self)@ == requests_not_of(old(self)@, tab_id),
    {
        let ghost queued = self.requests@;
        let mut removed: Vec<ModalRequest> = Vec::new();
        let mut kept: VecDeque<ModalRequest> = VecDeque::new();
        let n = self.requests.len();
        let mut i: usize = 0;
        while i < n
            invariant
                n == queued.len(),
                i <= n,
                self.requests@ == queued.subrange(i as int, n as int),
                removed@ == requests_of(queued.take(i as int), tab_id),
                kept@ == requests_not_of(queued.take(i as int), tab_id),
            decreases n - i,
        {
            let request = match self.requests.pop_front() {
                Some(request) => request,
                None => {
                    return removed;
                },
            };
            proof {
                reveal_with_fuel(Seq::<_>::filter, 1);
                assert(queued.take(i + 1).drop_last() =~= queued.take(i as int));
                assert(queued.take(i + 1).last() == request);
                assert(self.requests@ =~= queued.subrange(i + 1, n as int));
            }
            if request.tab_id() == tab_id {
                removed.push(request);
            } else {
                kept.push_back(request);
            }
            i = i + 1;
        }
        proof {
            assert(queued.take(n as int) =~= queued);
        }
        self.requests = kept;
        removed
    }

    /// Whether nothing is queued.
    pub fn is_empty(&self) -> (b: bool)
        ensures
            b == (self@.len() == 0),
    {
        self.requests.len() == 0
    }
}


/// Queuing keeps the queue canonical.
pub proof fn law_push_keeps_queue_canonical(q: Seq<ModalRequest>, r: ModalRequest)
    requires
        queue_is_canonical(q),
    ensures
        queue_is_canonical(pushed(q, r)),
{
    if !(duplicate_request(q, r) || duplicate_prompt(q, r)) {
        let p = q.push(r);
        assert forall|i: int, j: int| 0 <= i < j < p.len() implies !(request_tab(#[trigger] p[i])
            == request_tab(#[trigger] p[j]) && request_kind(p[i]) == request_kind(p[j])) by {
            if j == q.len() {
                assert(p[i] == q[i]);
            }
        }
        assert forall|i: int, j: int|
            0 <= i < j < p.len() && (#[trigger] p[i]) is HostKey && (#[trigger] p[j]) is HostKey
                implies p[i]->HostKey_prompt_id != p[j]->HostKey_prompt_id by {
            if j == q.len() {
                assert(p[i] == q[i]);
            }
        }
    }
}

/// Taking the request the user answered keeps the queue canonical.
pub proof fn law_complete_keeps_queue_canonical(q: Seq<ModalRequest>)
    requires
        queue_is_canonical(q),
        q.len() > 0,
    ensures
        queue_is_canonical(q.drop_first()),
{
    let d = q.drop_first();
    assert forall|i: int, j: int| 0 <= i < j < d.len() implies !(request_tab(#[trigger] d[i])
        == request_tab(#[trigger] d[j]) && request_kind(d[i]) == request_kind(d[j])) by {
        assert(d[i] == q[i + 1] && d[j] == q[j + 1]);
    }
    assert forall|i: int, j: int|
        0 <= i < j < d.len() && (#[trigger] d[i]) is HostKey && (#[trigger] d[j]) is HostKey
            implies d[i]->HostKey_prompt_id != d[j]->HostKey_prompt_id by {
        assert(d[i] == q[i + 1] && d[j] == q[j + 1]);
    }
}

/// The requests other tabs keep come from the queue, in its order, and
/// stay canonical.
proof fn lemma_kept_requests(q: Seq<ModalRequest>, tab: TabId)
    requires
        queue_is_canonical(q),
    ensures
        queue_is_canonical(requests_not_of(q, tab)),
        forall|k: int| 0 <= k < requests_not_of(q, tab).len() ==> exists|m: int|
            0 <= m < q.len() && q[m] == #[trigger] requests_not_of(q, tab)[k],
    decreases q.len(),
{
    if q.len() > 0 {
        let rest = q.drop_last();
        assert forall|i: int, j: int| 0 <= i < j < rest.len() implies !(request_tab(#[trigger] rest[i])
            == request_tab(#[trigger] rest[j]) && request_kind(rest[i]) == request_kind(rest[j])) by {
            assert(rest[i] == q[i] && rest[j] == q[j]);
        }
        assert forall|i: int, j: int|
            0 <= i < j < rest.len() && (#[trigger] rest[i]) is HostKey && (#[trigger] rest[j]) is HostKey
                implies rest[i]->HostKey_prompt_id != rest[j]->HostKey_prompt_id by {
            assert(rest[i] == q[i] && rest[j] == q[j]);
        }
        lemma_kept_requests(rest, tab);
        let f = requests_not_of(rest, tab);
        let last = q.last();
        reveal_with_fuel(Seq::<_>::filter, 1);
        assert(requests_not_of(q, tab) == (if request_tab(last) != tab {
            f.push(last)
        } else {
            f
        }));
        if request_tab(last) != tab {
            let g = f.push(last);
            assert forall|k: int| 0 <= k < g.len() implies exists|m: int|
                0 <= m < q.len() && q[m] == #[trigger] g[k] by {
                if k < f.len() {
                    let m = choose|m: int| 0 <= m < rest.len() && rest[m] == f[k];
                    assert(q[m] == g[k]);
                } else {
                    assert(q[q.len() - 1] == g[k]);
                }
            }
            assert forall|i: int, j: int| 0 <= i < j < g.len() implies !(request_tab(#[trigger] g[i])
                == request_tab(#[trigger] g[j]) && request_kind(g[i]) == request_kind(g[j])) by {
                if j < f.len() {
                    assert(g[i] == f[i] && g[j] == f[j]);
                } else {
                    let m = choose|m: int| 0 <= m < rest.len() && rest[m] == f[i];
                    assert(q[m] == g[i]);
                    assert(q[q.len() - 1] == g[j]);
                }
            }
            assert forall|i: int, j: int|
                0 <= i < j < g.len() && (#[trigger] g[i]) is HostKey && (#[trigger] g[j]) is HostKey
                    implies g[i]->HostKey_prompt_id != g[j]->HostKey_prompt_id by {
                if j < f.len() {
                    assert(g[i] == f[i] && g[j] == f[j]);
                } else {
                    let m = choose|m: int| 0 <= m < rest.len() && rest[m] == f[i];
                    assert(q[m] == g[i]);
                    assert(q[q.len() - 1] == g[j]);
                }
            }
        } else {
            assert forall|k: int| 0 <= k < f.len() implies exists|m: int|
                0 <= m < q.len() && q[m] == #[trigger] f[k] by {
                let m = choose|m: int| 0 <= m < rest.len() && rest[m] == f[k];
                assert(q[m] == f[k]);
            }
        }
    }
}

/// Removing a tab's requests keeps the queue canonical. With queuing and
/// answering, every change the queue sees keeps it free of duplicates.
pub proof fn law_remove_tab_keeps_queue_canonical(q: Seq<ModalRequest>, tab: TabId)
    requires
        queue_is_canonical(q),
    ensures
        queue_is_canonical(requests_not_of(q, tab)),
{
    lemma_kept_requests(q, tab);
}

/// First in, first out: queuing never changes the request the user is
/// looking at, and a request queued on an empty queue is shown at once.
pub proof fn law_push_keeps_current(q: Seq<ModalRequest>, r: ModalRequest)
    ensures
        q.len() > 0 ==> pushed(q, r)[0] == q[0],
        q.len() == 0 ==> pushed(q, r) == seq![r],
{
    if q.len() == 0 {
        assert(!duplicate_request(q, r));
        assert(!duplicate_prompt(q, r));
        assert(q.push(r) =~= seq![r]);
    }
}

/// Removing a tab's requests leaves none of them behind.
pub proof fn law_removed_tab_has_no_requests(q: Seq<ModalRequest>, tab: TabId)
    ensures
        forall|i: int|
            0 <= i < requests_not_of(q, tab).len() ==> request_tab(#[trigger] requests_not_of(q, tab)[i]) != tab,
        forall|i: int|
            0 <= i < requests_of(q, tab).len() ==> request_tab(#[trigger] requests_of(q, tab)[i]) == tab,
{
    assert forall|i: int| 0 <= i < requests_not_of(q, tab).len() implies request_tab(
        #[trigger] requests_not_of(q, tab)[i],
    ) != tab by {
        q.lemma_filter_pred(|r: ModalRequest| request_tab(r) != tab, i);
    }
    assert forall|i: int| 0 <= i < requests_of(q, tab).len() implies request_tab(
        #[trigger] requests_of(q, tab)[i],
    ) == tab by {
        q.lemma_filter_pred(|r: ModalRequest| request_tab(r) == tab, i);
    }
}


/// A live SSH session, as a tab drives it. Implemented over the network
/// session by the application.
pub trait SessionControl {
    /// The session's identifier.
    fn id(&self) -> SessionId;

    /// Queues bytes for the remote side without waiting.
    fn try_send_input(&self, bytes: Vec<u8>) -> Result<(), SendInputError>;

    /// Announces a new terminal size to the remote side.
    fn resize(&self, size: crate::model::TerminalSize);

    /// Answers a host-key prompt.
    fn decide_host_key(&self, prompt_id: u128, decision: HostKeyDecision) -> Result<(), SessionError>;

    /// Starts closing the session.
    fn disconnect(&self);
}

/// A terminal emulator, as a tab drives it. Implemented over the emulator
/// by the application.
pub trait TerminalEmulator {
    /// The modes that decide how input is encoded.
    fn mode(&self) -> InputMode;

    /// Consumes output from the remote side.
    fn process_output(&mut self, bytes: &[u8]) -> Vec<TerminalAction>;

    /// Changes the grid size to a size the grid accepts.
    fn resize(&mut self, size: TerminalSize)
        requires
            size.columns >= crate::terminal::MIN_COLUMNS,
            size.rows >= crate::terminal::MIN_SCREEN_LINES,
    ;

    /// Changes the default colors, keeping the content.
    fn set_default_colors(&mut self, colors: TerminalColors);
}

/// The abstract content of a tab.
pub struct TabView {
    pub id: TabId,
    pub profile: ConnectionProfile,
    pub state: TabState,
    pub session_id: Option<SessionId>,
    pub has_session: bool,
    pub closing: bool,
    pub local_error: Option<TabLocalError>,
}

/// A session and its terminal.
pub struct Tab<S, T> {
    id: TabId,
    profile: ConnectionProfile,
    state: TabState,
    terminal: T,
    session: Option<S>,
    session_id: Option<SessionId>,
    closing: bool,
    local_error: Option<TabLocalError>,
    /// The input handed to the tab's sessions, in order.
    input_handed: Ghost<Seq<Seq<u8>>>,
    /// The grid sizes handed to the tab's sessions, in order.
    sizes_handed: Ghost<Seq<crate::model::TerminalSize>>,
    /// The host-key answers handed to the tab's sessions, in order.
    answers_handed: Ghost<Seq<(u128, HostKeyDecision)>>,
    /// The grid sizes handed to the current terminal, in order.
    grid_sizes_set: Ghost<Seq<TerminalSize>>,
    /// The default colors handed to the current terminal, in order.
    colors_set: Ghost<Seq<TerminalColors>>,
}

impl<S, T> View for Tab<S, T> {
    type V = TabView;

    closed spec fn view(&self) -> TabView {
        TabView {
            id: self.id,
            profile: self.profile,
            state: self.state,
            session_id: self.session_id,
            has_session: self.session is Some,
            closing: self.closing,
            local_error: self.local_error,
        }
    }
}

/// A tab knows its session's id exactly while it holds the session.
pub open spec fn tab_wf(v: TabView) -> bool {
    v.has_session == (v.session_id is Some)
}

/// The state a tab moves to on a session event.
pub open spec fn next_tab_state(state: TabState, event: SessionEvent) -> TabState {
    match event {
        SessionEvent::StateChanged(s) => match s {
            SessionState::Connected => TabState::Connected,
            SessionState::Disconnected => if state is Disconnected || state is AwaitingSecret {
                state
            } else {
                TabState::Disconnected { reason: DisconnectReason::Session(SessionError::Disconnected) }
            },
            SessionState::VerifyingHostKey => if state is AwaitingHostKey {
                state
            } else {
                TabState::Connecting
            },
            _ => TabState::Connecting,
        },
        SessionEvent::UnknownHostKey { .. } => TabState::AwaitingHostKey,
        SessionEvent::ChangedHostKey { .. } => TabState::Disconnected {
            reason: DisconnectReason::Session(SessionError::HostKeyChanged),
        },
        SessionEvent::Exited { status } => TabState::Disconnected { reason: DisconnectReason::Exit(status) },
        SessionEvent::Error(e) => TabState::Disconnected { reason: DisconnectReason::Session(e) },
        _ => state,
    }
}

/// The event ends the tab's hold on its session.
pub open spec fn event_drops_session(state: TabState, event: SessionEvent) -> bool {
    match event {
        SessionEvent::StateChanged(SessionState::Disconnected) => !(state is Disconnected
            || state is AwaitingSecret),
        SessionEvent::ChangedHostKey { .. } => true,
        SessionEvent::Exited { .. } => true,
        SessionEvent::Error(_) => true,
        _ => false,
    }
}

/// How a tab changes on a session event, and what it notifies.
pub open spec fn tab_event_outcome(
    old: TabView,
    event: SessionEvent,
    new: TabView,
    notes: Seq<TabNotification>,
) -> bool {
    &&& new.id == old.id
    &&& new.profile == old.profile
    &&& new.closing == old.closing
    &&& new.state == next_tab_state(old.state, event)
    &&& if event_drops_session(old.state, event) {
        new.session_id is None && !new.has_session
    } else {
        new.session_id == old.session_id && new.has_session == old.has_session
    }
    &&& if event is Output {
        &&& output_local_error(old.local_error, new.local_error)
        &&& forall|i: int| 0 <= i < notes.len() ==> output_note(#[trigger] notes[i])
    } else {
        &&& new.local_error == (if event == SessionEvent::StateChanged(SessionState::Connected) {
            None
        } else {
            old.local_error
        })
        &&& notes == (if event is Bell {
            seq![TabNotification::Bell]
        } else {
            seq![TabNotification::Repaint]
        })
    }
}

/// A notification that consuming output can raise: a repaint, a bell, or
/// a failure to send a reply.
pub open spec fn output_note(n: TabNotification) -> bool {
    match n {
        TabNotification::LocalError(e) => e == TabLocalError::InputQueueFull || e == TabLocalError::InputClosed,
        _ => true,
    }
}

/// The local error after consuming output: unchanged, cleared, or the
/// failure to send a reply.
pub open spec fn output_local_error(old: Option<TabLocalError>, new: Option<TabLocalError>) -> bool {
    new == old || new is None || new == Some(TabLocalError::InputQueueFull) || new == Some(
        TabLocalError::InputClosed,
    )
}

/// How `send_bytes` records the outcome of queuing input: no session is a
/// closed input (nothing recorded); a failure is recorded as the tab's local
/// error; a success clears a recorded full queue.
pub open spec fn send_outcome(old: TabView, new: TabView, r: Result<(), TabLocalError>) -> bool {
    &&& new.id == old.id && new.profile == old.profile && new.state == old.state
    &&& new.session_id == old.session_id && new.has_session == old.has_session && new.closing == old.closing
    &&& if !old.has_session {
        r == Err::<(), TabLocalError>(TabLocalError::InputClosed) && new.local_error == old.local_error
    } else {
        match r {
            Ok(()) => new.local_error == (if old.local_error == Some(TabLocalError::InputQueueFull) {
                None
            } else {
                old.local_error
            }),
            Err(e) => (e == TabLocalError::InputQueueFull || e == TabLocalError::InputClosed)
                && new.local_error == Some(e),
        }
    }
}

/// What queuing a terminal reply can come to: with a session, success, a
/// full queue or a closed input; without one, a closed input.
pub open spec fn reply_outcome_possible(has_session: bool, o: Result<(), TabLocalError>) -> bool {
    if has_session {
        o is Ok || o == Err::<(), TabLocalError>(TabLocalError::InputQueueFull) || o == Err::<
            (),
            TabLocalError,
        >(TabLocalError::InputClosed)
    } else {
        o == Err::<(), TabLocalError>(TabLocalError::InputClosed)
    }
}

/// The notes one terminal action gives, given how queuing its reply went
/// (used for replies only): a failed reply is reported, a bell rings, a
/// wake-up repaints.
pub open spec fn action_note(a: TerminalAction, o: Result<(), TabLocalError>) -> Seq<TabNotification> {
    match a {
        TerminalAction::WriteBack(_) => match o {
            Ok(()) => Seq::empty(),
            Err(e) => seq![TabNotification::LocalError(e)],
        },
        TerminalAction::Bell => seq![TabNotification::Bell],
        TerminalAction::Wakeup => seq![TabNotification::Repaint],
    }
}

/// The notes of the first `n` actions, in order.
pub open spec fn action_notes(actions: Seq<TerminalAction>, outcomes: Seq<Result<(), TabLocalError>>, n: nat) -> Seq<
    TabNotification,
>
    decreases n,
{
    if n == 0 {
        Seq::empty()
    } else {
        action_notes(actions, outcomes, (n - 1) as nat) + action_note(actions[n - 1], outcomes[n - 1])
    }
}

/// The replies among the first `n` actions, in order.
pub open spec fn action_replies(actions: Seq<TerminalAction>, n: nat) -> Seq<Seq<u8>>
    decreases n,
{
    if n == 0 {
        Seq::empty()
    } else {
        action_replies(actions, (n - 1) as nat) + match actions[n - 1] {
            TerminalAction::WriteBack(bytes) => seq![bytes@],
            _ => Seq::empty(),
        }
    }
}

/// The local error after the first `n` actions: each reply queued with a
/// session records its outcome as `send_bytes` does.
pub open spec fn error_after_actions(
    error: Option<TabLocalError>,
    has_session: bool,
    actions: Seq<TerminalAction>,
    outcomes: Seq<Result<(), TabLocalError>>,
    n: nat,
) -> Option<TabLocalError>
    decreases n,
{
    if n == 0 {
        error
    } else {
        let before = error_after_actions(error, has_session, actions, outcomes, (n - 1) as nat);
        if has_session && actions[n - 1] is WriteBack {
            match outcomes[n - 1] {
                Ok(()) => if before == Some(TabLocalError::InputQueueFull) {
                    None
                } else {
                    before
                },
                Err(e) => Some(e),
            }
        } else {
            before
        }
    }
}

/// A tab acted on the terminal's `actions`: its replies were handed to the
/// session in order (when there is one), and for some possible outcome of
/// each reply, the notes and the local error are what those outcomes give.
/// Nothing else of the tab changed.
pub open spec fn acted_on(
    old: TabView,
    old_input: Seq<Seq<u8>>,
    new: TabView,
    new_input: Seq<Seq<u8>>,
    actions: Seq<TerminalAction>,
    notes: Seq<TabNotification>,
) -> bool {
    &&& new_input == (if old.has_session {
        old_input + action_replies(actions, actions.len())
    } else {
        old_input
    })
    &&& exists|outcomes: Seq<Result<(), TabLocalError>>|
        {
            &&& outcomes.len() == actions.len()
            &&& forall|k: int| 0 <= k < outcomes.len() ==> reply_outcome_possible(old.has_session, #[trigger] outcomes[k])
            &&& notes == #[trigger] action_notes(actions, outcomes, actions.len())
            &&& new == TabView {
                local_error: error_after_actions(old.local_error, old.has_session, actions, outcomes, actions.len()),
                ..old
            }
        }
}

/// A key press sends nothing, whatever the terminal modes.
pub open spec fn sends_nothing(input: KeyInput) -> bool {
    crate::input::encoded_input(input, InputMode { app_cursor: false, bracketed_paste: false }).len() == 0
}

/// Typed text with no modifier.
pub open spec fn typed(text: &str) -> KeyInput {
    KeyInput { key: crate::input::Key::Text(text), modifiers: crate::input::Modifiers { control: false, alt: false, shift: false } }
}

/// Whether a key press sends anything does not depend on the modes.
pub proof fn lemma_sends_nothing_any_mode(input: KeyInput, mode: InputMode)
    ensures
        (crate::input::encoded_input(input, mode).len() == 0) == sends_nothing(input),
{
}

/// `n` as `u32`, saturated.
fn to_u32_saturating(n: usize) -> (r: u32)
    ensures
        r == (if n > u32::MAX { u32::MAX } else { n as u32 }),
{
    if n > 4294967295 {
        4294967295
    } else {
        n as u32
    }
}

/// The size a session is told for a grid: its cells saturated to `u32`,
/// its pixels as they are.
pub open spec fn session_size_of(size: TerminalSize) -> crate::model::TerminalSize {
    crate::model::TerminalSize {
        columns: if size.columns > u32::MAX { u32::MAX } else { size.columns as u32 },
        rows: if size.rows > u32::MAX { u32::MAX } else { size.rows as u32 },
        pixel_width: size.pixel_width,
        pixel_height: size.pixel_height,
    }
}

/// The size a session is told for a grid.
pub fn session_size(size: TerminalSize) -> (r: crate::model::TerminalSize)
    ensures
        r == session_size_of(size),
{
    crate::model::TerminalSize {
        columns: to_u32_saturating(size.columns),
        rows: to_u32_saturating(size.rows),
        pixel_width: size.pixel_width,
        pixel_height: size.pixel_height,
    }
}

impl<S: SessionControl, T: TerminalEmulator> Tab<S, T> {
    /// A tab for `profile` over `terminal`, waiting for its session (or for
    /// a secret first).
    pub fn new(profile: ConnectionProfile, terminal: T, awaiting_secret: bool) -> (r: Self)
        ensures
            r@.profile == profile,
            r@.state == (if awaiting_secret { TabState::AwaitingSecret } else { TabState::Connecting }),
            r@.session_id is None,
            !r@.has_session,
            !r@.closing,
            r@.local_error is None,
            tab_wf(r@),
            r.input_handed().len() == 0,
            r.sizes_handed().len() == 0,
            r.answers_handed().len() == 0,
            r.grid_sizes_set().len() == 0,
            r.colors_set().len() == 0,
            r.terminal_state() == terminal,
    {
        Tab {
            id: TabId::new(),
            profile,
            state: if awaiting_secret {
                TabState::AwaitingSecret
            } else {
                TabState::Connecting
            },
            terminal,
            session: None,
            session_id: None,
            closing: false,
            local_error: None,
            input_handed: Ghost(Seq::empty()),
            sizes_handed: Ghost(Seq::empty()),
            answers_handed: Ghost(Seq::empty()),
            grid_sizes_set: Ghost(Seq::empty()),
            colors_set: Ghost(Seq::empty()),
        }
    }

    pub fn id(&self) -> (r: TabId)
        ensures
            r == self@.id,
    {
        self.id
    }

    pub fn profile(&self) -> (r: &ConnectionProfile)
        ensures
            *r == self@.profile,
    {
        &self.profile
    }

    pub fn state(&self) -> (r: &TabState)
        ensures
            *r == self@.state,
    {
        &self.state
    }

    pub fn session_id(&self) -> (r: Option<SessionId>)
        ensures
            r == self@.session_id,
    {
        self.session_id
    }

    pub fn closing(&self) -> (r: bool)
        ensures
            r == self@.closing,
    {
        self.closing
    }

    pub fn is_disconnected(&self) -> (r: bool)
        ensures
            r == (self@.state is Disconnected),
    {
        match self.state {
            TabState::Disconnected { .. } => true,
            _ => false,
        }
    }

    pub fn has_session(&self) -> (r: bool)
        ensures
            r == self@.has_session,
    {
        self.session.is_some()
    }

    /// The terminal the tab draws.
    pub closed spec fn terminal_state(&self) -> T {
        self.terminal
    }

    /// The input handed to the tab's sessions so far, in order.
    pub closed spec fn input_handed(&self) -> Seq<Seq<u8>> {
        self.input_handed@
    }

    /// The grid sizes handed to the tab's sessions so far, in order.
    pub closed spec fn sizes_handed(&self) -> Seq<crate::model::TerminalSize> {
        self.sizes_handed@
    }

    /// The host-key answers (prompt and decision) handed to the tab's
    /// sessions so far, in order.
    pub closed spec fn answers_handed(&self) -> Seq<(u128, HostKeyDecision)> {
        self.answers_handed@
    }

    /// The grid sizes handed to the current terminal so far, in order.
    pub closed spec fn grid_sizes_set(&self) -> Seq<TerminalSize> {
        self.grid_sizes_set@
    }

    /// The default colors handed to the current terminal so far, in order.
    pub closed spec fn colors_set(&self) -> Seq<TerminalColors> {
        self.colors_set@
    }

    /// What was handed to the terminal is as it was.
    pub open spec fn terminal_calls_kept(&self, other: &Self) -> bool {
        &&& self.grid_sizes_set() == other.grid_sizes_set()
        &&& self.colors_set() == other.colors_set()
    }

    pub fn terminal(&self) -> (r: &T)
        ensures
            *r == self.terminal_state(),
    {
        &self.terminal
    }

    /// The tab's terminal, to change: the tab keeps whatever the caller
    /// leaves in it, and nothing else of the tab changes.
    pub fn terminal_mut(&mut self) -> (r: &mut T)
        ensures
            *r == old(self).terminal_state(),
            final(self).terminal_state() == *final(r),
            final(self)@ == old(self)@,
            final(self).input_handed() == old(self).input_handed(),
            final(self).sizes_handed() == old(self).sizes_handed(),
            final(self).answers_handed() == old(self).answers_handed(),
            final(self).terminal_calls_kept(&*old(self)),
    {
        &mut self.terminal
    }

    pub fn local_error(&self) -> (r: Option<TabLocalError>)
        ensures
            r == self@.local_error,
    {
        self.local_error
    }

    pub fn clear_local_error(&mut self)
        ensures
            final(self)@ == (TabView { local_error: None, ..old(self)@ }),
    {
        self.local_error = None;
    }

    /// Runs `session` in this tab; the tab is connecting again.
    pub fn attach_session(&mut self, session: S)
        ensures
            final(self)@.id == old(self)@.id,
            final(self)@.profile == old(self)@.profile,
            final(self)@.closing == old(self)@.closing,
            final(self)@.state == TabState::Connecting,
            final(self)@.session_id is Some,
            final(self)@.has_session,
            final(self)@.local_error is None,
    {
        self.session_id = Some(session.id());
        self.session = Some(session);
        self.state = TabState::Connecting;
        self.local_error = None;
    }

    /// Gives up the session (disconnecting it) to wait for a secret.
    pub fn await_secret(&mut self)
        requires
            tab_wf(old(self)@),
        ensures
            final(self)@ == (TabView {
                state: TabState::AwaitingSecret,
                session_id: None,
                has_session: false,
                local_error: None,
                ..old(self)@
            }),
    {
        if let Some(session) = self.session.take() {
            session.disconnect();
            self.session_id = None;
        }
        self.state = TabState::AwaitingSecret;
        self.local_error = None;
    }

    /// Follows a session event.
    pub fn apply_event(&mut self, event: SessionEvent) -> (notes: Vec<TabNotification>)
        ensures
            tab_event_outcome(old(self)@, event, final(self)@, notes@),
            event is Output ==> exists|actions: Seq<TerminalAction>|
                #[trigger] acted_on(old(self)@, old(self).input_handed(), final(self)@, final(self).input_handed(), actions, notes@),
            !(event is Output) ==> final(self).input_handed() == old(self).input_handed(),
            final(self).sizes_handed() == old(self).sizes_handed(),
            final(self).answers_handed() == old(self).answers_handed(),
            final(self).terminal_calls_kept(&*old(self)),
    {
        let ghost old_state = self.state;
        match event {
            SessionEvent::StateChanged(state) => {
                match state {
                    SessionState::Connected => {
                        self.state = TabState::Connected;
                        self.local_error = None;
                    },
                    SessionState::Disconnected => {
                        let keep = match self.state {
                            TabState::Disconnected { .. } => true,
                            TabState::AwaitingSecret => true,
                            _ => false,
                        };
                        if !keep {
                            self.state = TabState::Disconnected {
                                reason: DisconnectReason::Session(SessionError::Disconnected),
                            };
                            self.session = None;
                            self.session_id = None;
                        }
                    },
                    SessionState::VerifyingHostKey => {
                        match self.state {
                            TabState::AwaitingHostKey => {},
                            _ => {
                                self.state = TabState::Connecting;
                            },
                        }
                    },
                    _ => {
                        self.state = TabState::Connecting;
                    },
                }
                let mut notes = Vec::new();
                notes.push(TabNotification::Repaint);
                assert(notes@ =~= seq![TabNotification::Repaint]);
                notes
            },
            SessionEvent::UnknownHostKey { .. } => {
                self.state = TabState::AwaitingHostKey;
                let mut notes = Vec::new();
                notes.push(TabNotification::Repaint);
                assert(notes@ =~= seq![TabNotification::Repaint]);
                notes
            },
            SessionEvent::ChangedHostKey { .. } => {
                self.state = TabState::Disconnected {
                    reason: DisconnectReason::Session(SessionError::HostKeyChanged),
                };
                self.session = None;
                self.session_id = None;
                let mut notes = Vec::new();
                notes.push(TabNotification::Repaint);
                assert(notes@ =~= seq![TabNotification::Repaint]);
                notes
            },
            SessionEvent::Output(bytes) => self.process_output(&bytes),
            SessionEvent::Bell => {
                let mut notes = Vec::new();
                notes.push(TabNotification::Bell);
                assert(notes@ =~= seq![TabNotification::Bell]);
                notes
            },
            SessionEvent::Exited { status } => {
                self.state = TabState::Disconnected { reason: DisconnectReason::Exit(status) };
                self.session = None;
                self.session_id = None;
                let mut notes = Vec::new();
                notes.push(TabNotification::Repaint);
                assert(notes@ =~= seq![TabNotification::Repaint]);
                notes
            },
            SessionEvent::Error(error) => {
                self.state = TabState::Disconnected { reason: DisconnectReason::Session(error) };
                self.session = None;
                self.session_id = None;
                let mut notes = Vec::new();
                notes.push(TabNotification::Repaint);
                assert(notes@ =~= seq![TabNotification::Repaint]);
                notes
            },
        }
    }

    /// Sends a key press to the session.
    pub fn send_key(&mut self, input: KeyInput) -> (r: Result<(), TabLocalError>)
        ensures
            sends_nothing(input) ==> r is Ok && final(self)@ == old(self)@,
            !sends_nothing(input) ==> send_outcome(old(self)@, final(self)@, r),
            sends_nothing(input) || !old(self)@.has_session ==> final(self).input_handed() == old(self).input_handed(),
            !sends_nothing(input) && old(self)@.has_session ==> exists|mode: InputMode|
                final(self).input_handed() == old(self).input_handed().push(
                    #[trigger] crate::input::encoded_input(input, mode),
                ),
            final(self).sizes_handed() == old(self).sizes_handed(),
            final(self).terminal_calls_kept(&*old(self)),
    {
        let mode = self.terminal.mode();
        let bytes = InputEncoder::encode(input, mode);
        proof {
            lemma_sends_nothing_any_mode(input, mode);
        }
        if bytes.len() == 0 {
            return Ok(());
        }
        let ghost handed = bytes@;
        let r = self.send_bytes(bytes);
        proof {
            assert(handed == crate::input::encoded_input(input, mode));
        }
        r
    }

    /// Sends typed text to the session.
    pub fn send_text(&mut self, text: &str) -> (r: Result<(), TabLocalError>)
        ensures
            sends_nothing(typed(text)) ==> r is Ok && final(self)@ == old(self)@,
            !sends_nothing(typed(text)) ==> send_outcome(old(self)@, final(self)@, r),
            sends_nothing(typed(text)) || !old(self)@.has_session ==> final(self).input_handed() == old(self).input_handed(),
            !sends_nothing(typed(text)) && old(self)@.has_session ==> exists|mode: InputMode|
                final(self).input_handed() == old(self).input_handed().push(
                    #[trigger] crate::input::encoded_input(typed(text), mode),
                ),
            final(self).sizes_handed() == old(self).sizes_handed(),
            final(self).terminal_calls_kept(&*old(self)),
    {
        self.send_key(KeyInput::text(text))
    }

    /// Pastes text into the session; a paste over the size limit is refused
    /// and changes nothing.
    pub fn paste(&mut self, text: &str) -> (r: Result<(), TabLocalError>)
        ensures
            vstd::utf8::encode_utf8(text@).len() > crate::input::MAX_PASTE_BYTES ==> r == Err::<(), TabLocalError>(TabLocalError::PasteTooLarge)
                && final(self)@ == old(self)@,
            vstd::utf8::encode_utf8(text@).len() <= crate::input::MAX_PASTE_BYTES ==> send_outcome(old(self)@, final(self)@, r),
            vstd::utf8::encode_utf8(text@).len() > crate::input::MAX_PASTE_BYTES || !old(self)@.has_session
                ==> final(self).input_handed() == old(self).input_handed(),
            vstd::utf8::encode_utf8(text@).len() <= crate::input::MAX_PASTE_BYTES && old(self)@.has_session
                ==> exists|bracketed: bool|
                final(self).input_handed() == old(self).input_handed().push(
                    #[trigger] crate::input::pasted_bytes(text@, bracketed),
                ),
            final(self).sizes_handed() == old(self).sizes_handed(),
            final(self).terminal_calls_kept(&*old(self)),
    {
        let mode = self.terminal.mode();
        let bytes = match InputEncoder::paste(text, mode) {
            Ok(bytes) => bytes,
            Err(PasteError::TooLarge) => {
                return Err(TabLocalError::PasteTooLarge);
            },
        };
        let ghost handed = bytes@;
        let r = self.send_bytes(bytes);
        proof {
            assert(handed == crate::input::pasted_bytes(text@, mode.bracketed_paste));
        }
        r
    }

    /// Resizes the terminal, then tells the session the size (saturated to
    /// `u32` cells); a grid too small is refused and changes nothing.
    pub fn resize(&mut self, size: TerminalSize) -> (r: Result<(), TabLocalError>)
        ensures
            final(self)@ == old(self)@,
            final(self).input_handed() == old(self).input_handed(),
            r is Ok <==> (size.columns >= crate::terminal::MIN_COLUMNS && size.rows >= crate::terminal::MIN_SCREEN_LINES),
            r is Err ==> r == Err::<(), TabLocalError>(TabLocalError::InvalidTerminalSize)
                && final(self).terminal_state() == old(self).terminal_state()
                && final(self).sizes_handed() == old(self).sizes_handed()
                && final(self).grid_sizes_set() == old(self).grid_sizes_set(),
            r is Ok ==> final(self).grid_sizes_set() == old(self).grid_sizes_set().push(size),
            final(self).colors_set() == old(self).colors_set(),
            r is Ok ==> final(self).sizes_handed() == (if old(self)@.has_session {
                old(self).sizes_handed().push(session_size_of(size))
            } else {
                old(self).sizes_handed()
            }),
    {
        if !size.is_valid() {
            return Err(TabLocalError::InvalidTerminalSize);
        }
        self.terminal.resize(size);
        self.grid_sizes_set = Ghost(self.grid_sizes_set@.push(size));
        if let Some(session) = &self.session {
            let told = session_size(size);
            session.resize(told);
            self.sizes_handed = Ghost(self.sizes_handed@.push(told));
        }
        Ok(())
    }

    /// Answers a host-key prompt through the session: with no session the
    /// answer is refused as disconnected; otherwise the prompt and decision
    /// go to the session unchanged and its reply is returned. Which reply
    /// the session gives is its own affair.
    pub fn decide_host_key(&mut self, prompt_id: u128, decision: HostKeyDecision) -> (r: Result<
        (),
        SessionError,
    >)
        ensures
            final(self)@ == old(self)@,
            final(self).terminal_state() == old(self).terminal_state(),
            final(self).input_handed() == old(self).input_handed(),
            final(self).sizes_handed() == old(self).sizes_handed(),
            final(self).terminal_calls_kept(&*old(self)),
            !old(self)@.has_session ==> r == Err::<(), SessionError>(SessionError::Disconnected)
                && final(self).answers_handed() == old(self).answers_handed(),
            old(self)@.has_session ==> final(self).answers_handed() == old(self).answers_handed().push(
                (prompt_id, decision),
            ),
    {
        match &self.session {
            None => Err(SessionError::Disconnected),
            Some(session) => {
                let r = session.decide_host_key(prompt_id, decision);
                self.answers_handed = Ghost(self.answers_handed@.push((prompt_id, decision)));
                r
            },
        }
    }

    /// Changes the terminal's default colors, keeping its content.
    pub fn set_terminal_colors(&mut self, colors: TerminalColors)
        ensures
            final(self)@ == old(self)@,
            final(self).input_handed() == old(self).input_handed(),
            final(self).sizes_handed() == old(self).sizes_handed(),
            final(self).answers_handed() == old(self).answers_handed(),
            final(self).grid_sizes_set() == old(self).grid_sizes_set(),
            final(self).colors_set() == old(self).colors_set().push(colors),
    {
        self.terminal.set_default_colors(colors);
        self.colors_set = Ghost(self.colors_set@.push(colors));
    }

    /// Starts closing the session, if any.
    pub fn disconnect(&self) {
        if let Some(session) = &self.session {
            session.disconnect();
        }
    }

    /// Acts on what the terminal asks for: each reply goes to the session
    /// (a failure is reported as a note), a bell rings, a wake-up repaints.
    pub fn act_on(&mut self, actions: &Vec<TerminalAction>) -> (notes: Vec<TabNotification>)
        ensures
            acted_on(old(self)@, old(self).input_handed(), final(self)@, final(self).input_handed(), actions@, notes@),
            output_local_error(old(self)@.local_error, final(self)@.local_error),
            forall|i: int| 0 <= i < notes@.len() ==> output_note(#[trigger] notes@[i]),
            final(self).terminal_state() == old(self).terminal_state(),
            final(self).sizes_handed() == old(self).sizes_handed(),
            final(self).answers_handed() == old(self).answers_handed(),
            final(self).terminal_calls_kept(&*old(self)),
    {
        let mut notes: Vec<TabNotification> = Vec::new();
        let ghost start = self@;
        let ghost start_input = self.input_handed@;
        let ghost mut outcomes: Seq<Result<(), TabLocalError>> = Seq::empty();
        let mut i: usize = 0;
        while i < actions.len()
            invariant
                i <= actions@.len(),
                outcomes.len() == i,
                forall|k: int| 0 <= k < outcomes.len() ==> reply_outcome_possible(start.has_session, #[trigger] outcomes[k]),
                notes@ == action_notes(actions@, outcomes, i as nat),
                self@ == (TabView {
                    local_error: error_after_actions(start.local_error, start.has_session, actions@, outcomes, i as nat),
                    ..start
                }),
                self.input_handed@ == (if start.has_session {
                    start_input + action_replies(actions@, i as nat)
                } else {
                    start_input
                }),
                output_local_error(start.local_error, self@.local_error),
                forall|k: int| 0 <= k < notes@.len() ==> output_note(#[trigger] notes@[k]),
                self.terminal_state() == old(self).terminal_state(),
                self.sizes_handed() == old(self).sizes_handed(),
                self.answers_handed() == old(self).answers_handed(),
                self.terminal_calls_kept(&*old(self)),
            decreases actions.len() - i,
        {
            let ghost notes_before = notes@;
            let ghost input_before = self.input_handed@;
            let ghost outcome: Result<(), TabLocalError> = if start.has_session {
                Ok(())
            } else {
                Err(TabLocalError::InputClosed)
            };
            match &actions[i] {
                TerminalAction::WriteBack(reply) => {
                    let copy = copy_bytes(reply);
                    let sent = self.send_bytes(copy);
                    proof {
                        outcome = sent;
                    }
                    match sent {
                        Ok(()) => {},
                        Err(error) => {
                            notes.push(TabNotification::LocalError(error));
                        },
                    }
                },
                TerminalAction::Bell => {
                    notes.push(TabNotification::Bell);
                },
                TerminalAction::Wakeup => {
                    notes.push(TabNotification::Repaint);
                },
            }
            proof {
                let old_outcomes = outcomes;
                outcomes = outcomes.push(outcome);
                assert(outcomes.drop_last() =~= old_outcomes);
                assert forall|k: int| 0 <= k < i implies #[trigger] outcomes[k] == old_outcomes[k] by {}
                lemma_action_notes_prefix(actions@, old_outcomes, outcomes, i as nat);
                lemma_error_after_prefix(start.local_error, start.has_session, actions@, old_outcomes, outcomes, i as nat);
                assert(notes@ =~= notes_before + action_note(actions@[i as int], outcome));
                if start.has_session {
                    assert(self.input_handed@ =~= start_input + action_replies(actions@, (i + 1) as nat));
                }
            }
            i = i + 1;
        }
        proof {
            assert(acted_on(start, start_input, self@, self.input_handed@, actions@, notes@));
        }
        notes
    }

    /// Feeds output to the terminal and acts on what it asks for.
    fn process_output(&mut self, bytes: &Vec<u8>) -> (notes: Vec<TabNotification>)
        ensures
            exists|actions: Seq<TerminalAction>|
                #[trigger] acted_on(old(self)@, old(self).input_handed(), final(self)@, final(self).input_handed(), actions, notes@),
            output_local_error(old(self)@.local_error, final(self)@.local_error),
            forall|i: int| 0 <= i < notes@.len() ==> output_note(#[trigger] notes@[i]),
            final(self).sizes_handed() == old(self).sizes_handed(),
            final(self).answers_handed() == old(self).answers_handed(),
            final(self).terminal_calls_kept(&*old(self)),
    {
        let actions = self.terminal.process_output(bytes.as_slice());
        let notes = self.act_on(&actions);
        assert(acted_on(old(self)@, old(self).input_handed(), self@, self.input_handed(), actions@, notes@));
        notes
    }

    /// Queues bytes for the session and records the outcome.
    fn send_bytes(&mut self, bytes: Vec<u8>) -> (r: Result<(), TabLocalError>)
        ensures
            send_outcome(old(self)@, final(self)@, r),
            final(self).input_handed() == (if old(self)@.has_session {
                old(self).input_handed().push(bytes@)
            } else {
                old(self).input_handed()
            }),
            final(self).terminal_state() == old(self).terminal_state(),
            final(self).answers_handed() == old(self).answers_handed(),
            final(self).sizes_handed() == old(self).sizes_handed(),
            final(self).terminal_calls_kept(&*old(self)),
    {
        let ghost handed = bytes@;
        let sent = match &self.session {
            None => {
                return Err(TabLocalError::InputClosed);
            },
            Some(session) => session.try_send_input(bytes),
        };
        self.input_handed = Ghost(self.input_handed@.push(handed));
        match sent {
            Err(SendInputError::QueueFull) => {
                self.local_error = Some(TabLocalError::InputQueueFull);
                Err(TabLocalError::InputQueueFull)
            },
            Err(SendInputError::Closed) => {
                self.local_error = Some(TabLocalError::InputClosed);
                Err(TabLocalError::InputClosed)
            },
            Ok(()) => {
                if self.local_error == Some(TabLocalError::InputQueueFull) {
                    self.local_error = None;
                }
                Ok(())
            },
        }
    }

    /// Gets ready to connect again: the old session is disconnected and
    /// dropped, and the terminal replaced, unless it could not be made.
    pub fn prepare_reconnect(&mut self, terminal: Result<T, TerminalError>) -> (r: Result<(), TerminalError>)
        ensures
            final(self)@.id == old(self)@.id,
            final(self)@.profile == old(self)@.profile,
            final(self)@.session_id is None,
            !final(self)@.has_session,
            !final(self)@.closing,
            r is Ok <==> terminal is Ok,
            r is Ok ==> final(self)@.state == TabState::Connecting && final(self)@.local_error is None,
            r is Err ==> r->Err_0 == terminal->Err_0 && final(self)@.state == old(self)@.state
                && final(self)@.local_error == old(self)@.local_error
                && final(self).terminal_state() == old(self).terminal_state()
                && final(self).terminal_calls_kept(&*old(self)),
            r is Ok ==> final(self).terminal_state() == terminal->Ok_0
                && final(self).grid_sizes_set().len() == 0
                && final(self).colors_set().len() == 0,
    {
        if let Some(session) = self.session.take() {
            session.disconnect();
        }
        self.session_id = None;
        self.closing = false;
        match terminal {
            Ok(terminal) => {
                self.terminal = terminal;
                self.grid_sizes_set = Ghost(Seq::empty());
                self.colors_set = Ghost(Seq::empty());
            },
            Err(error) => {
                return Err(error);
            },
        }
        self.state = TabState::Connecting;
        self.local_error = None;
        Ok(())
    }
}

/// A copy of some bytes.
fn copy_bytes(bytes: &Vec<u8>) -> (r: Vec<u8>)
    ensures
        r@ == bytes@,
{
    let mut r: Vec<u8> = Vec::new();
    let mut i: usize = 0;
    while i < bytes.len()
        invariant
            i <= bytes@.len(),
            r@ == bytes@.take(i as int),
        decreases bytes.len() - i,
    {
        r.push(bytes[i]);
        i = i + 1;
        assert(r@ =~= bytes@.take(i as int));
    }
    assert(bytes@.take(bytes@.len() as int) =~= bytes@);
    r
}


/// `i` is the first tab with this id.
pub open spec fn is_first_tab(tabs: Seq<TabView>, id: TabId, i: int) -> bool {
    0 <= i < tabs.len() && tabs[i].id == id && forall|j: int| 0 <= j < i ==> (#[trigger] tabs[j]).id != id
}

/// Index of the first tab with this id, or -1.
pub open spec fn tab_index(tabs: Seq<TabView>, id: TabId) -> int {
    if exists|i: int| is_first_tab(tabs, id, i) {
        choose|i: int| is_first_tab(tabs, id, i)
    } else {
        -1
    }
}

/// Some tab has this id.
pub open spec fn has_tab(tabs: Seq<TabView>, id: TabId) -> bool {
    exists|i: int| 0 <= i < tabs.len() && (#[trigger] tabs[i]).id == id
}

/// The abstract content of a tab collection.
pub struct CollectionView {
    pub tabs: Seq<TabView>,
    pub active: Option<TabId>,
    pub modals: Seq<ModalRequest>,
}

/// The collection is well formed: every tab is, and the active tab is one
/// of the tabs.
pub open spec fn collection_wf(c: CollectionView) -> bool {
    &&& forall|i: int| 0 <= i < c.tabs.len() ==> tab_wf(#[trigger] c.tabs[i])
    &&& c.active matches Some(id) ==> has_tab(c.tabs, id)
}

/// The active tab after the tab at `index` left `remaining`: the tab that
/// took its place, or else the last one.
pub open spec fn next_active(remaining: Seq<TabView>, index: int) -> Option<TabId> {
    if index < remaining.len() {
        Some(remaining[index].id)
    } else if remaining.len() > 0 {
        Some(remaining.last().id)
    } else {
        None
    }
}

/// How `TabCollection::remove` changes the collection.
pub open spec fn remove_outcome(old: CollectionView, id: TabId, new: CollectionView, removed: Option<TabView>) -> bool {
    let i = tab_index(old.tabs, id);
    if i < 0 {
        removed is None && new == old
    } else {
        &&& removed == Some(old.tabs[i])
        &&& new.tabs == old.tabs.remove(i)
        &&& new.modals == requests_not_of(old.modals, id)
        &&& new.active == (if old.active == Some(id) {
            next_active(old.tabs.remove(i), i)
        } else {
            old.active
        })
    }
}

/// The modal queue after a session event for tab `id`: host-key prompts
/// are queued; an error other than a changed key, or an exit, withdraws
/// the tab's requests.
pub open spec fn modals_after_event(q: Seq<ModalRequest>, id: TabId, event: SessionEvent) -> Seq<ModalRequest> {
    match event {
        SessionEvent::UnknownHostKey { prompt_id, endpoint, algorithm, fingerprint_sha256 } => pushed(
            q,
            ModalRequest::HostKey { tab_id: id, prompt_id, endpoint, algorithm, fingerprint_sha256 },
        ),
        SessionEvent::ChangedHostKey { endpoint, expected_sha256, presented_sha256 } => pushed(
            q,
            ModalRequest::ChangedHostKey { tab_id: id, endpoint, expected_sha256, presented_sha256 },
        ),
        SessionEvent::Error(e) => if e != SessionError::HostKeyChanged {
            requests_not_of(q, id)
        } else {
            q
        },
        SessionEvent::Exited { .. } => requests_not_of(q, id),
        _ => q,
    }
}

/// The state of the most recently opened tab of a profile, if one is open.
pub open spec fn latest_state_of(tabs: Seq<TabView>, profile_id: ProfileId) -> Option<TabState>
    decreases tabs.len(),
{
    if tabs.len() == 0 {
        None
    } else if tabs.last().profile.id == profile_id {
        Some(tabs.last().state)
    } else {
        latest_state_of(tabs.drop_last(), profile_id)
    }
}

/// The tab next to the active one (the first, when none is active), going
/// forwards or backwards round the tabs.
pub open spec fn cycled_index(tabs: Seq<TabView>, active: Option<TabId>, backwards: bool) -> int {
    let current = match active {
        Some(id) => if tab_index(tabs, id) >= 0 {
            tab_index(tabs, id)
        } else {
            0
        },
        None => 0,
    };
    if backwards {
        if current == 0 {
            tabs.len() - 1
        } else {
            current - 1
        }
    } else {
        (current + 1) % (tabs.len() as int)
    }
}

/// Some tab is not disconnected.
pub open spec fn any_live(tabs: Seq<TabView>) -> bool {
    exists|i: int| 0 <= i < tabs.len() && !(tabs[i].state is Disconnected)
}

/// All tabs, the active one, and the modal requests.
pub struct TabCollection<S, T> {
    tabs: Vec<Tab<S, T>>,
    active: Option<TabId>,
    modals: ModalQueue,
}

impl<S, T> View for TabCollection<S, T> {
    type V = CollectionView;

    closed spec fn view(&self) -> CollectionView {
        CollectionView {
            tabs: self.tabs@.map_values(|t: Tab<S, T>| t@),
            active: self.active,
            modals: self.modals@,
        }
    }
}

impl<S, T> TabCollection<S, T> {
    /// The tabs themselves, with what each handed to its session and
    /// terminal.
    pub closed spec fn tab_states(&self) -> Seq<Tab<S, T>> {
        self.tabs@
    }

    /// The tabs' views are the collection's view of its tabs.
    pub proof fn lemma_tab_states_view(&self)
        ensures
            self.tab_states().len() == self@.tabs.len(),
            forall|i: int| 0 <= i < self@.tabs.len() ==> (#[trigger] self.tab_states()[i])@ == self@.tabs[i],
    {
    }
}

impl<S: SessionControl, T: TerminalEmulator> TabCollection<S, T> {
    /// No tabs.
    pub fn new() -> (r: Self)
        ensures
            r@.tabs.len() == 0,
            r@.active is None,
            r@.modals.len() == 0,
            collection_wf(r@),
    {
        let r = TabCollection { tabs: Vec::new(), active: None, modals: ModalQueue::new() };
        assert(r@.tabs =~= Seq::<TabView>::empty());
        r
    }

    /// Index of the first tab with this id.
    fn position(&self, id: TabId) -> (r: Option<usize>)
        ensures
            match r {
                Some(i) => i < self@.tabs.len() && is_first_tab(self@.tabs, id, i as int) && tab_index(self@.tabs, id) == i,
                None => tab_index(self@.tabs, id) == -1 && !has_tab(self@.tabs, id),
            },
    {
        let mut k: usize = 0;
        while k < self.tabs.len()
            invariant
                k <= self.tabs@.len(),
                forall|j: int| 0 <= j < k ==> (#[trigger] self@.tabs[j]).id != id,
            decreases self.tabs.len() - k,
        {
            assert(self@.tabs[k as int] == self.tabs@[k as int]@);
            if self.tabs[k].id() == id {
                proof {
                    assert(is_first_tab(self@.tabs, id, k as int));
                    let c = choose|c: int| is_first_tab(self@.tabs, id, c);
                    if c < k {
                    } else if c > k {
                        assert(self@.tabs[k as int].id != id);
                    }
                }
                return Some(k);
            }
            k = k + 1;
        }
        proof {
            if exists|i: int| is_first_tab(self@.tabs, id, i) {
                let i = choose|i: int| is_first_tab(self@.tabs, id, i);
                assert(self@.tabs[i].id != id);
            }
            if has_tab(self@.tabs, id) {
                let i = choose|i: int| 0 <= i < self@.tabs.len() && (#[trigger] self@.tabs[i]).id == id;
                assert(self@.tabs[i].id != id);
            }
        }
        None
    }

    /// Opens a tab for `profile` over `terminal` and makes it active; a tab
    /// that must first get a secret queues a secret request.
    pub fn open(&mut self, profile: ConnectionProfile, terminal: T, awaiting_secret: bool) -> (id: TabId)
        requires
            collection_wf(old(self)@),
        ensures
            collection_wf(final(self)@),
            final(self)@.tabs.len() == old(self)@.tabs.len() + 1,
            final(self)@.tabs.take(old(self)@.tabs.len() as int) == old(self)@.tabs,
            final(self)@.tabs.last().id == id,
            final(self)@.tabs.last().profile == profile,
            final(self)@.tabs.last().state == (if awaiting_secret { TabState::AwaitingSecret } else { TabState::Connecting }),
            !final(self)@.tabs.last().has_session,
            !final(self)@.tabs.last().closing,
            final(self)@.tabs.last().local_error is None,
            final(self)@.active == Some(id),
            final(self)@.modals == (if awaiting_secret {
                pushed(old(self)@.modals, ModalRequest::Secret { tab_id: id })
            } else {
                old(self)@.modals
            }),
    {
        let tab = Tab::new(profile, terminal, awaiting_secret);
        let id = tab.id();
        let ghost before = self@.tabs;
        self.tabs.push(tab);
        self.active = Some(id);
        if awaiting_secret {
            self.modals.push(ModalRequest::Secret { tab_id: id });
        }
        proof {
            assert(self@.tabs =~= before.push(self.tabs@.last()@));
            assert(self@.tabs.take(before.len() as int) =~= before);
            assert(self@.tabs[before.len() as int].id == id);
        }
        id
    }

    /// The tabs, in opening order.
    pub fn tabs(&self) -> (r: &[Tab<S, T>])
        ensures
            r@.map_values(|t: Tab<S, T>| t@) == self@.tabs,
    {
        self.tabs.as_slice()
    }

    /// The tab with this id.
    pub fn tab(&self, id: TabId) -> (r: Option<&Tab<S, T>>)
        ensures
            tab_index(self@.tabs, id) < 0 ==> r is None,
            tab_index(self@.tabs, id) >= 0 ==> (r matches Some(t) && t@ == self@.tabs[tab_index(self@.tabs, id)]),
    {
        match self.position(id) {
            Some(i) => Some(&self.tabs[i]),
            None => None,
        }
    }

    /// The state of the most recently opened tab of a profile, shown on its
    /// host card.
    pub fn profile_state(&self, profile_id: ProfileId) -> (r: Option<TabState>)
        ensures
            r == latest_state_of(self@.tabs, profile_id),
    {
        let mut i: usize = self.tabs.len();
        proof {
            assert(self@.tabs.take(i as int) =~= self@.tabs);
        }
        while i > 0
            invariant
                i <= self.tabs@.len(),
                self@.tabs.len() == self.tabs@.len(),
                latest_state_of(self@.tabs, profile_id) == latest_state_of(self@.tabs.take(i as int), profile_id),
            decreases i,
        {
            let tab = &self.tabs[i - 1];
            proof {
                let t = self@.tabs.take(i as int);
                assert(t.last() == self@.tabs[i - 1]);
                assert(self@.tabs[i - 1] == self.tabs@[i - 1]@);
                assert(t.drop_last() =~= self@.tabs.take(i - 1));
            }
            if tab.profile.id.0 == profile_id.0 {
                return Some(tab.state);
            }
            i = i - 1;
        }
        None
    }

    /// The active tab's id.
    pub fn active(&self) -> (r: Option<TabId>)
        ensures
            r == self@.active,
    {
        self.active
    }

    /// Makes a tab active; an unknown id changes nothing.
    pub fn set_active(&mut self, id: TabId) -> (r: bool)
        requires
            collection_wf(old(self)@),
        ensures
            collection_wf(final(self)@),
            r == has_tab(old(self)@.tabs, id),
            final(self)@ == (if r { CollectionView { active: Some(id), ..old(self)@ } } else { old(self)@ }),
    {
        if self.position(id).is_none() {
            return false;
        }
        self.active = Some(id);
        true
    }

    /// Activates the next (or previous) tab round the tabs; with fewer than
    /// two tabs nothing changes.
    pub fn cycle_active(&mut self, backwards: bool)
        requires
            collection_wf(old(self)@),
        ensures
            collection_wf(final(self)@),
            old(self)@.tabs.len() < 2 ==> final(self)@ == old(self)@,
            old(self)@.tabs.len() >= 2 ==> final(self)@ == (CollectionView {
                active: Some(old(self)@.tabs[cycled_index(old(self)@.tabs, old(self)@.active, backwards)].id),
                ..old(self)@
            }),
    {
        let n = self.tabs.len();
        if n < 2 {
            return;
        }
        let current = match self.active {
            Some(id) => match self.position(id) {
                Some(i) => i,
                None => 0,
            },
            None => 0,
        };
        let next = if backwards {
            if current == 0 {
                n - 1
            } else {
                current - 1
            }
        } else {
            (current + 1) % n
        };
        let id = self.tabs[next].id();
        proof {
            assert(self@.tabs[next as int] == self.tabs@[next as int]@);
            assert(has_tab(self@.tabs, id));
        }
        self.set_active(id);
    }

    /// Whether some tab is not disconnected, so that quitting asks first.
    pub fn has_live_tabs(&self) -> (r: bool)
        ensures
            r == any_live(self@.tabs),
    {
        let mut i: usize = 0;
        while i < self.tabs.len()
            invariant
                i <= self.tabs@.len(),
                self@.tabs.len() == self.tabs@.len(),
                forall|j: int| 0 <= j < i ==> self@.tabs[j].state is Disconnected,
            decreases self.tabs.len() - i,
        {
            assert(self@.tabs[i as int] == self.tabs@[i as int]@);
            if !self.tabs[i].is_disconnected() {
                return true;
            }
            i = i + 1;
        }
        false
    }

    /// The modal queue.
    pub fn modals(&self) -> (r: &ModalQueue)
        ensures
            r@ == self@.modals,
    {
        &self.modals
    }

    /// Whether nothing needs restoring after a restart: tabs never persist.
    pub fn persisted_state(&self) -> (r: Option<()>)
        ensures
            r is None,
    {
        None
    }


    /// The modal queue, for the user interface to complete requests.
    pub fn modals_mut(&mut self) -> (r: &mut ModalQueue)
        ensures
            r@ == old(self)@.modals,
            final(self)@ == (CollectionView { modals: final(r)@, ..old(self)@ }),
    {
        &mut self.modals
    }

    /// The tab with this id, to change.
    pub fn tab_mut(&mut self, id: TabId) -> (r: Option<&mut Tab<S, T>>)
        ensures
            tab_index(old(self)@.tabs, id) < 0 ==> r is None && final(self)@ == old(self)@,
            tab_index(old(self)@.tabs, id) >= 0 ==> (r matches Some(t) && t@ == old(self)@.tabs[tab_index(old(self)@.tabs, id)]),
            tab_index(old(self)@.tabs, id) >= 0 ==> r is Some && *r->Some_0 == old(self).tab_states()[tab_index(
                old(self)@.tabs,
                id,
            )] && final(self).tab_states() == old(self).tab_states().update(
                tab_index(old(self)@.tabs, id),
                *final(r->Some_0),
            ),
            final(self)@.active == old(self)@.active,
            final(self)@.modals == old(self)@.modals,
    {
        match self.position(id) {
            Some(i) => Some(&mut self.tabs[i]),
            None => None,
        }
    }

    /// Follows a session event of tab `id`: host-key prompts are queued, an
    /// error (other than a changed key) or an exit withdraws the tab's
    /// requests, and the tab follows the event. An unknown tab changes only
    /// the queue and notifies nothing.
    pub fn apply_event(&mut self, id: TabId, event: SessionEvent) -> (notes: Vec<TabNotification>)
        requires
            collection_wf(old(self)@),
        ensures
            collection_wf(final(self)@),
            final(self)@.active == old(self)@.active,
            final(self)@.modals == modals_after_event(old(self)@.modals, id, event),
            tab_index(old(self)@.tabs, id) < 0 ==> final(self)@.tabs == old(self)@.tabs && notes@.len() == 0,
            tab_index(old(self)@.tabs, id) >= 0 ==> {
                let i = tab_index(old(self)@.tabs, id);
                &&& final(self)@.tabs.len() == old(self)@.tabs.len()
                &&& forall|j: int| 0 <= j < old(self)@.tabs.len() && j != i ==> #[trigger] final(self)@.tabs[j] == old(self)@.tabs[j]
                &&& tab_event_outcome(old(self)@.tabs[i], event, final(self)@.tabs[i], notes@)
                &&& event is Output ==> exists|actions: Seq<TerminalAction>|
                    #[trigger] acted_on(
                        old(self).tab_states()[i]@,
                        old(self).tab_states()[i].input_handed(),
                        final(self).tab_states()[i]@,
                        final(self).tab_states()[i].input_handed(),
                        actions,
                        notes@,
                    )
                &&& final(self).tab_states()[i].terminal_calls_kept(&old(self).tab_states()[i])
            },
    {
        let ghost old_view = self@;
        match &event {
            SessionEvent::UnknownHostKey { prompt_id, endpoint, algorithm, fingerprint_sha256 } => {
                self.modals.push(
                    ModalRequest::HostKey {
                        tab_id: id,
                        prompt_id: *prompt_id,
                        endpoint: endpoint.clone(),
                        algorithm: algorithm.clone(),
                        fingerprint_sha256: fingerprint_sha256.clone(),
                    },
                );
            },
            SessionEvent::ChangedHostKey { endpoint, expected_sha256, presented_sha256 } => {
                self.modals.push(
                    ModalRequest::ChangedHostKey {
                        tab_id: id,
                        endpoint: endpoint.clone(),
                        expected_sha256: expected_sha256.clone(),
                        presented_sha256: presented_sha256.clone(),
                    },
                );
            },
            SessionEvent::Error(error) => {
                if *error != SessionError::HostKeyChanged {
                    self.modals.remove_tab(id);
                }
            },
            SessionEvent::Exited { .. } => {
                self.modals.remove_tab(id);
            },
            _ => {},
        }
        assert(self@.tabs == old_view.tabs);
        assert(self.tabs@ == old(self).tabs@);
        match self.position(id) {
            Some(i) => {
                let ghost before = self@;
                let ghost tab_before = self.tabs@[i as int];
                let ghost is_output = event is Output;
                let notes = self.tabs[i].apply_event(event);
                proof {
                    let tab_after = self.tabs@[i as int];
                    assert(old(self).tab_states()[i as int] == tab_before);
                    assert(self.tab_states()[i as int] == tab_after);
                    if is_output {
                        let actions = choose|actions: Seq<TerminalAction>|
                            #[trigger] acted_on(tab_before@, tab_before.input_handed(), tab_after@, tab_after.input_handed(), actions, notes@);
                        assert(acted_on(tab_before@, tab_before.input_handed(), tab_after@, tab_after.input_handed(), actions, notes@));
                    }
                    assert(self@.tabs =~= before.tabs.update(i as int, self.tabs@[i as int]@));
                    assert forall|j: int| 0 <= j < self@.tabs.len() implies tab_wf(#[trigger] self@.tabs[j]) by {
                        if j != i {
                            assert(self@.tabs[j] == before.tabs[j]);
                        }
                    }
                    if let Some(a) = self.active {
                        let k = choose|k: int| 0 <= k < before.tabs.len() && (#[trigger] before.tabs[k]).id == a;
                        assert(self@.tabs[k].id == a);
                    }
                }
                notes
            },
            None => Vec::new(),
        }
    }


    /// Closes tab `id`: its requests are withdrawn, its session is
    /// disconnected, and if it was active the tab that takes its place (or
    /// else the last tab) becomes active.
    pub fn remove(&mut self, id: TabId) -> (r: Option<Tab<S, T>>)
        requires
            collection_wf(old(self)@),
        ensures
            collection_wf(final(self)@),
            remove_outcome(old(self)@, id, final(self)@, match r {
                Some(t) => Some(t@),
                None => None,
            }),
    {
        let ghost old_view = self@;
        let index = match self.position(id) {
            Some(index) => index,
            None => {
                return None;
            },
        };
        self.modals.remove_tab(id);
        let tab = self.tabs.remove(index);
        tab.disconnect();
        let ghost rest = old_view.tabs.remove(index as int);
        assert(self@.tabs =~= rest);
        if self.active == Some(id) {
            self.active = if index < self.tabs.len() {
                Some(self.tabs[index].id())
            } else if self.tabs.len() > 0 {
                Some(self.tabs[self.tabs.len() - 1].id())
            } else {
                None
            };
            proof {
                if index < rest.len() {
                    assert(rest[index as int] == self.tabs@[index as int]@);
                } else if rest.len() > 0 {
                    assert(rest.last() == self.tabs@[rest.len() - 1]@);
                }
            }
        }
        proof {
            assert forall|j: int| 0 <= j < rest.len() implies tab_wf(#[trigger] rest[j]) by {
                if j < index {
                    assert(rest[j] == old_view.tabs[j]);
                } else {
                    assert(rest[j] == old_view.tabs[j + 1]);
                }
            }
            if let Some(a) = self.active {
                if a != id {
                    let k = choose|k: int| 0 <= k < old_view.tabs.len() && (#[trigger] old_view.tabs[k]).id == a;
                    if k < index {
                        assert(rest[k] == old_view.tabs[k]);
                    } else {
                        assert(k != index);
                        assert(rest[k - 1] == old_view.tabs[k]);
                    }
                } else {
                    if index < rest.len() {
                        assert(rest[index as int].id == a);
                    } else {
                        assert(rest[rest.len() - 1].id == a);
                    }
                }
            }
        }
        Some(tab)
    }

    /// Starts closing tab `id`. A tab without a live session is removed at
    /// once (returns `false`); otherwise it is marked closing and its
    /// session disconnected, to be removed when the session ends.
    pub fn begin_close(&mut self, id: TabId) -> (r: bool)
        requires
            collection_wf(old(self)@),
        ensures
            collection_wf(final(self)@),
            r == (tab_index(old(self)@.tabs, id) >= 0 && old(self)@.tabs[tab_index(old(self)@.tabs, id)].has_session),
            !r ==> remove_outcome(old(self)@, id, final(self)@, if tab_index(old(self)@.tabs, id) >= 0 {
                Some(old(self)@.tabs[tab_index(old(self)@.tabs, id)])
            } else {
                None
            }),
            r ==> final(self)@ == (CollectionView {
                tabs: old(self)@.tabs.update(
                    tab_index(old(self)@.tabs, id),
                    TabView { closing: true, ..old(self)@.tabs[tab_index(old(self)@.tabs, id)] },
                ),
                ..old(self)@
            }),
    {
        let ghost old_view = self@;
        let index = match self.position(id) {
            Some(index) => index,
            None => {
                return false;
            },
        };
        assert(old_view.tabs[index as int] == self.tabs@[index as int]@);
        if !self.tabs[index].has_session() {
            self.remove(id);
            return false;
        }
        let mut tab = self.tabs.remove(index);
        tab.closing = true;
        tab.disconnect();
        self.tabs.insert(index, tab);
        proof {
            let v = TabView { closing: true, ..old_view.tabs[index as int] };
            assert(self@.tabs =~= old_view.tabs.update(index as int, v));
            assert forall|j: int| 0 <= j < self@.tabs.len() implies tab_wf(#[trigger] self@.tabs[j]) by {
                if j != index {
                    assert(self@.tabs[j] == old_view.tabs[j]);
                }
            }
            if let Some(a) = self.active {
                let k = choose|k: int| 0 <= k < old_view.tabs.len() && (#[trigger] old_view.tabs[k]).id == a;
                assert(self@.tabs[k].id == a);
            }
        }
        true
    }

    /// Gets tab `id` ready to connect again with a new terminal: its
    /// requests are withdrawn first; an unknown tab is an error.
    pub fn prepare_reconnect(&mut self, id: TabId, terminal: Result<T, TerminalError>) -> (r: Result<(), TerminalError>)
        requires
            collection_wf(old(self)@),
        ensures
            collection_wf(final(self)@),
            final(self)@.modals == requests_not_of(old(self)@.modals, id),
            final(self)@.active == old(self)@.active,
            tab_index(old(self)@.tabs, id) < 0 ==> r == Err::<(), TerminalError>(TerminalError::InvalidSize)
                && final(self)@.tabs == old(self)@.tabs,
            tab_index(old(self)@.tabs, id) >= 0 ==> {
                let i = tab_index(old(self)@.tabs, id);
                let t = final(self)@.tabs[i];
                &&& final(self)@.tabs.len() == old(self)@.tabs.len()
                &&& forall|j: int| 0 <= j < old(self)@.tabs.len() && j != i ==> #[trigger] final(self)@.tabs[j] == old(self)@.tabs[j]
                &&& t.id == id && t.profile == old(self)@.tabs[i].profile
                &&& t.session_id is None && !t.has_session && !t.closing
                &&& (r is Ok <==> terminal is Ok)
                &&& r is Ok ==> t.state == TabState::Connecting && t.local_error is None
                &&& r is Err ==> r->Err_0 == terminal->Err_0 && t.state == old(self)@.tabs[i].state
                    && t.local_error == old(self)@.tabs[i].local_error
                    && final(self).tab_states()[i].terminal_state() == old(self).tab_states()[i].terminal_state()
                    && final(self).tab_states()[i].terminal_calls_kept(&old(self).tab_states()[i])
                &&& r is Ok ==> final(self).tab_states()[i].terminal_state() == terminal->Ok_0
                    && final(self).tab_states()[i].grid_sizes_set().len() == 0
                    && final(self).tab_states()[i].colors_set().len() == 0
            },
    {
        self.modals.remove_tab(id);
        let ghost before = self@;
        match self.position(id) {
            None => Err(TerminalError::InvalidSize),
            Some(i) => {
                let r = self.tabs[i].prepare_reconnect(terminal);
                proof {
                    assert(self@.tabs =~= before.tabs.update(i as int, self.tabs@[i as int]@));
                    assert forall|j: int| 0 <= j < self@.tabs.len() implies tab_wf(#[trigger] self@.tabs[j]) by {
                        if j != i {
                            assert(self@.tabs[j] == before.tabs[j]);
                        }
                    }
                    if let Some(a) = self.active {
                        let k = choose|k: int| 0 <= k < before.tabs.len() && (#[trigger] before.tabs[k]).id == a;
                        assert(self@.tabs[k].id == a);
                    }
                }
                r
            },
        }
    }

    /// Tab `id` must get a secret before connecting: its requests are
    /// withdrawn, it gives up its session, and a secret request is queued.
    pub fn request_secret(&mut self, id: TabId) -> (r: Result<(), TerminalError>)
        requires
            collection_wf(old(self)@),
        ensures
            collection_wf(final(self)@),
            final(self)@.active == old(self)@.active,
            tab_index(old(self)@.tabs, id) < 0 ==> r == Err::<(), TerminalError>(TerminalError::InvalidSize)
                && final(self)@.tabs == old(self)@.tabs
                && final(self)@.modals == requests_not_of(old(self)@.modals, id),
            tab_index(old(self)@.tabs, id) >= 0 ==> {
                let i = tab_index(old(self)@.tabs, id);
                &&& r is Ok
                &&& final(self)@.tabs == old(self)@.tabs.update(i, TabView {
                    state: TabState::AwaitingSecret,
                    session_id: None,
                    has_session: false,
                    local_error: None,
                    ..old(self)@.tabs[i]
                })
                &&& final(self)@.modals == pushed(requests_not_of(old(self)@.modals, id), ModalRequest::Secret { tab_id: id })
            },
    {
        self.modals.remove_tab(id);
        let ghost before = self@;
        match self.position(id) {
            None => Err(TerminalError::InvalidSize),
            Some(i) => {
                assert(before.tabs[i as int] == self.tabs@[i as int]@);
                self.tabs[i].await_secret();
                proof {
                    assert(self@.tabs =~= before.tabs.update(i as int, self.tabs@[i as int]@));
                    assert forall|j: int| 0 <= j < self@.tabs.len() implies tab_wf(#[trigger] self@.tabs[j]) by {
                        if j != i {
                            assert(self@.tabs[j] == before.tabs[j]);
                        }
                    }
                    if let Some(a) = self.active {
                        let k = choose|k: int| 0 <= k < before.tabs.len() && (#[trigger] before.tabs[k]).id == a;
                        assert(self@.tabs[k].id == a);
                    }
                }
                self.modals.push(ModalRequest::Secret { tab_id: id });
                Ok(())
            },
        }
    }

    /// The user asked to close tab `id`: a disconnected or closing tab is
    /// removed at once; a live one asks for confirmation first. Returns
    /// whether the tab exists.
    pub fn request_close(&mut self, id: TabId) -> (r: bool)
        requires
            collection_wf(old(self)@),
        ensures
            collection_wf(final(self)@),
            r == (tab_index(old(self)@.tabs, id) >= 0),
            !r ==> final(self)@ == old(self)@,
            r ==> {
                let t = old(self)@.tabs[tab_index(old(self)@.tabs, id)];
                if t.state is Disconnected || t.closing {
                    remove_outcome(old(self)@, id, final(self)@, Some(t))
                } else {
                    final(self)@ == (CollectionView {
                        modals: pushed(old(self)@.modals, ModalRequest::ConfirmClose { tab_id: id }),
                        ..old(self)@
                    })
                }
            },
    {
        let index = match self.position(id) {
            Some(index) => index,
            None => {
                return false;
            },
        };
        assert(self@.tabs[index as int] == self.tabs@[index as int]@);
        if self.tabs[index].is_disconnected() || self.tabs[index].closing() {
            self.remove(id);
            return true;
        }
        self.modals.push(ModalRequest::ConfirmClose { tab_id: id });
        true
    }

    /// Changes the default colors of every terminal, keeping their content.
    pub fn set_terminal_colors(&mut self, colors: TerminalColors)
        ensures
            final(self)@ == old(self)@,
            final(self).tab_states().len() == old(self).tab_states().len(),
            forall|i: int|
                0 <= i < old(self).tab_states().len() ==> {
                    let was = old(self).tab_states()[i];
                    let now = #[trigger] final(self).tab_states()[i];
                    &&& now@ == was@
                    &&& now.colors_set() == was.colors_set().push(colors)
                    &&& now.grid_sizes_set() == was.grid_sizes_set()
                    &&& now.input_handed() == was.input_handed()
                    &&& now.sizes_handed() == was.sizes_handed()
                    &&& now.answers_handed() == was.answers_handed()
                },
    {
        let ghost before = self@;
        let ghost tabs_before = self.tabs@;
        let n = self.tabs.len();
        let mut i: usize = 0;
        while i < n
            invariant
                n == self.tabs@.len(),
                n == tabs_before.len(),
                i <= n,
                self@ == before,
                forall|k: int|
                    0 <= k < n ==> {
                        let was = tabs_before[k];
                        let now = #[trigger] self.tabs@[k];
                        &&& now@ == was@
                        &&& now.colors_set() == (if k < i { was.colors_set().push(colors) } else { was.colors_set() })
                        &&& now.grid_sizes_set() == was.grid_sizes_set()
                        &&& now.input_handed() == was.input_handed()
                        &&& now.sizes_handed() == was.sizes_handed()
                        &&& now.answers_handed() == was.answers_handed()
                    },
            decreases n - i,
        {
            let ghost mid = self@;
            let ghost tabs_mid = self.tabs@;
            self.tabs[i].set_terminal_colors(colors);
            proof {
                assert forall|k: int| 0 <= k < n && k != i implies self.tabs@[k] == tabs_mid[k] by {}
                assert(self@.tabs =~= mid.tabs);
            }
            i = i + 1;
        }
    }

    /// Starts closing every session.
    pub fn disconnect_all(&self) {
        let mut i: usize = 0;
        while i < self.tabs.len()
            invariant
                i <= self.tabs@.len(),
            decreases self.tabs.len() - i,
        {
            self.tabs[i].disconnect();
            i = i + 1;
        }
    }
}

/// The notes of the first `n` actions depend on the first `n` outcomes only.
proof fn lemma_action_notes_prefix(
    actions: Seq<TerminalAction>,
    a: Seq<Result<(), TabLocalError>>,
    b: Seq<Result<(), TabLocalError>>,
    n: nat,
)
    requires
        n <= a.len(),
        n <= b.len(),
        forall|k: int| 0 <= k < n ==> #[trigger] b[k] == a[k],
    ensures
        action_notes(actions, a, n) == action_notes(actions, b, n),
    decreases n,
{
    if n > 0 {
        lemma_action_notes_prefix(actions, a, b, (n - 1) as nat);
    }
}

/// The local error after the first `n` actions depends on the first `n`
/// outcomes only.
proof fn lemma_error_after_prefix(
    error: Option<TabLocalError>,
    has_session: bool,
    actions: Seq<TerminalAction>,
    a: Seq<Result<(), TabLocalError>>,
    b: Seq<Result<(), TabLocalError>>,
    n: nat,
)
    requires
        n <= a.len(),
        n <= b.len(),
        forall|k: int| 0 <= k < n ==> #[trigger] b[k] == a[k],
    ensures
        error_after_actions(error, has_session, actions, a, n) == error_after_actions(error, has_session, actions, b, n),
    decreases n,
{
    if n > 0 {
        lemma_error_after_prefix(error, has_session, actions, a, b, (n - 1) as nat);
    }
}

/// Closing the active tab activates the tab right after it, or, when it
/// was the last, the one right before it; closing the only tab leaves none
/// active.
pub proof fn law_closing_active_tab_activates_its_neighbour(
    old: CollectionView,
    id: TabId,
    new: CollectionView,
    removed: Option<TabView>,
)
    requires
        remove_outcome(old, id, new, removed),
        tab_index(old.tabs, id) >= 0,
        old.active == Some(id),
    ensures
        ({
            let i = tab_index(old.tabs, id);
            &&& i + 1 < old.tabs.len() ==> new.active == Some(old.tabs[i + 1].id)
            &&& i + 1 == old.tabs.len() && i > 0 ==> new.active == Some(old.tabs[i - 1].id)
            &&& old.tabs.len() == 1 ==> new.active is None
        }),
{
    let i = tab_index(old.tabs, id);
    let rest = old.tabs.remove(i);
    if i + 1 < old.tabs.len() {
        assert(rest[i] == old.tabs[i + 1]);
    } else if i > 0 {
        assert(rest.last() == old.tabs[i - 1]);
    }
}

} // verus!
