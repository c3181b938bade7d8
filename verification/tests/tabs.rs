use std::cell::RefCell;
use std::rc::Rc;

use oxide_ssh::input::InputMode;
use oxide_ssh::model::{AuthConfig, ConnectionProfile, Endpoint, ProfileId, SessionId};
use oxide_ssh::session::{HostKeyDecision, SendInputError, SessionError, SessionEvent, SessionState};
use oxide_ssh::tabs::{
    DisconnectReason, ModalQueue, ModalRequest, SessionControl, TabCollection, TabId,
    TabLocalError, TabNotification, TabState, TerminalEmulator,
};
use oxide_ssh::terminal::{RgbColor, TerminalAction, TerminalColors, TerminalError, TerminalSize};

/// A terminal that keeps the text it was sent and its colors.
struct FakeTerminal {
    text: String,
    size: Option<TerminalSize>,
    colors: TerminalColors,
    mode: InputMode,
}

impl FakeTerminal {
    fn new() -> Self {
        FakeTerminal { text: String::new(), size: None, colors: TerminalColors::default(), mode: InputMode::default() }
    }
}

impl TerminalEmulator for FakeTerminal {
    fn mode(&self) -> InputMode {
        self.mode
    }

    fn process_output(&mut self, bytes: &[u8]) -> Vec<TerminalAction> {
        self.text.push_str(&String::from_utf8_lossy(bytes));
        Vec::new()
    }

    fn resize(&mut self, size: TerminalSize) {
        assert!(size.is_valid(), "a tab hands the terminal only sizes it accepts");
        self.size = Some(size);
    }

    fn set_default_colors(&mut self, colors: TerminalColors) {
        self.colors = colors;
    }
}

/// A session that records what it was asked.
struct FakeSession {
    id: SessionId,
    sent: Rc<RefCell<Vec<Vec<u8>>>>,
    sizes: Rc<RefCell<Vec<oxide_ssh::model::TerminalSize>>>,
    answers: Rc<RefCell<Vec<(u128, HostKeyDecision)>>>,
    full: bool,
}

impl SessionControl for FakeSession {
    fn id(&self) -> SessionId {
        self.id
    }

    fn try_send_input(&self, bytes: Vec<u8>) -> Result<(), SendInputError> {
        if self.full {
            return Err(SendInputError::QueueFull);
        }
        self.sent.borrow_mut().push(bytes);
        Ok(())
    }

    fn resize(&self, size: oxide_ssh::model::TerminalSize) {
        self.sizes.borrow_mut().push(size);
    }

    fn decide_host_key(&self, prompt_id: u128, decision: HostKeyDecision) -> Result<(), SessionError> {
        self.answers.borrow_mut().push((prompt_id, decision));
        if prompt_id == 0 {
            return Err(SessionError::HostKeyRejected);
        }
        Ok(())
    }

    fn disconnect(&self) {}
}

type Tabs = TabCollection<FakeSession, FakeTerminal>;

fn profile() -> ConnectionProfile {
    ConnectionProfile {
        id: ProfileId::new(),
        name: "Fixture".into(),
        endpoint: Endpoint {
            host: "127.0.0.1".into(),
            port: 22,
        },
        username: "oxide".into(),
        auth: AuthConfig::Agent,
    }
}

fn endpoint() -> Endpoint {
    Endpoint { host: "127.0.0.1".into(), port: 22 }
}

fn visible_text(tabs: &Tabs, id: TabId) -> String {
    tabs.tab(id).unwrap().terminal().text.clone()
}

#[test]
fn same_profile_tabs_keep_output_and_state_isolated() {
    let profile = profile();
    let mut tabs = Tabs::new();
    let first = tabs.open(profile.clone(), FakeTerminal::new(), false);
    let second = tabs.open(profile, FakeTerminal::new(), false);

    tabs.apply_event(first, SessionEvent::StateChanged(SessionState::Connected));
    tabs.apply_event(first, SessionEvent::Output(b"first".to_vec()));
    tabs.apply_event(second, SessionEvent::Output(b"second".to_vec()));

    assert_eq!(tabs.tab(first).unwrap().state(), &TabState::Connected);
    assert_eq!(tabs.tab(second).unwrap().state(), &TabState::Connecting);
    assert!(visible_text(&tabs, first).contains("first"));
    assert!(!visible_text(&tabs, first).contains("second"));
    assert!(visible_text(&tabs, second).contains("second"));
}

#[test]
fn host_key_and_disconnect_events_have_explicit_states() {
    let mut tabs = Tabs::new();
    let tab_id = tabs.open(profile(), FakeTerminal::new(), false);
    let prompt_id = uuid::Uuid::new_v4().as_u128();
    tabs.apply_event(
        tab_id,
        SessionEvent::UnknownHostKey {
            prompt_id,
            endpoint: endpoint(),
            algorithm: "ssh-ed25519".into(),
            fingerprint_sha256: "SHA256:test".into(),
        },
    );
    assert!(matches!(tabs.tab(tab_id).unwrap().state(), TabState::AwaitingHostKey));
    assert_eq!(tabs.modals().current().unwrap().tab_id(), tab_id);

    tabs.apply_event(tab_id, SessionEvent::Error(SessionError::AuthenticationRejected));
    assert_eq!(
        tabs.tab(tab_id).unwrap().state(),
        &TabState::Disconnected {
            reason: DisconnectReason::Session(SessionError::AuthenticationRejected)
        }
    );
}

#[test]
fn changed_host_key_modal_survives_the_matching_session_error() {
    let mut tabs = Tabs::new();
    let tab_id = tabs.open(profile(), FakeTerminal::new(), false);
    tabs.apply_event(
        tab_id,
        SessionEvent::ChangedHostKey {
            endpoint: endpoint(),
            expected_sha256: "SHA256:old".into(),
            presented_sha256: "SHA256:new".into(),
        },
    );
    tabs.apply_event(tab_id, SessionEvent::Error(SessionError::HostKeyChanged));

    assert!(matches!(
        tabs.modals().current(),
        Some(ModalRequest::ChangedHostKey { tab_id: modal_tab, .. }) if *modal_tab == tab_id
    ));
}

#[test]
fn modal_queue_is_fifo_and_closing_tab_removes_its_requests() {
    let mut queue = ModalQueue::new();
    let first = TabId::new();
    let second = TabId::new();
    queue.push(ModalRequest::Secret { tab_id: first });
    queue.push(ModalRequest::Secret { tab_id: second });
    queue.push(ModalRequest::ConfirmClose { tab_id: first });

    assert_eq!(queue.current().unwrap().tab_id(), first);
    let removed = queue.remove_tab(first);
    assert_eq!(removed.len(), 2);
    assert_eq!(queue.current().unwrap().tab_id(), second);
    assert!(queue.complete_current().is_some());
    assert!(queue.is_empty());
}

#[test]
fn shared_host_key_prompt_is_queued_once_per_decision() {
    let mut queue = ModalQueue::new();
    let first = TabId::new();
    let second = TabId::new();
    let prompt_id = uuid::Uuid::new_v4().as_u128();
    queue.push(ModalRequest::HostKey {
        tab_id: first,
        prompt_id,
        endpoint: endpoint(),
        algorithm: "ssh-ed25519".into(),
        fingerprint_sha256: "SHA256:one".into(),
    });
    queue.push(ModalRequest::HostKey {
        tab_id: second,
        prompt_id,
        endpoint: endpoint(),
        algorithm: "ssh-ed25519".into(),
        fingerprint_sha256: "SHA256:one".into(),
    });

    assert_eq!(queue.current().unwrap().tab_id(), first);
    assert!(queue.complete_current().is_some());
    assert!(queue.is_empty());
}

#[test]
fn reconnect_replaces_terminal_and_preserves_tab_identity() {
    let mut tabs = Tabs::new();
    let tab_id = tabs.open(profile(), FakeTerminal::new(), false);
    tabs.apply_event(tab_id, SessionEvent::Output(b"old output".to_vec()));
    tabs.apply_event(tab_id, SessionEvent::Error(SessionError::Disconnected));

    tabs.prepare_reconnect(tab_id, Ok(FakeTerminal::new())).unwrap();
    let tab = tabs.tab(tab_id).unwrap();
    assert_eq!(tab.id(), tab_id);
    assert_eq!(tab.state(), &TabState::Connecting);
    assert!(!visible_text(&tabs, tab_id).contains("old output"));
}

#[test]
fn awaiting_secret_is_explicit_and_tabs_are_not_restorable() {
    let mut tabs = Tabs::new();
    let tab_id = tabs.open(profile(), FakeTerminal::new(), true);
    assert_eq!(tabs.tab(tab_id).unwrap().state(), &TabState::AwaitingSecret);
    assert!(tabs.persisted_state().is_none());
}

#[test]
fn closing_live_tab_requires_confirmation() {
    let mut tabs = Tabs::new();
    let tab_id = tabs.open(profile(), FakeTerminal::new(), false);

    assert!(tabs.request_close(tab_id));

    assert!(tabs.tab(tab_id).is_some());
    assert!(matches!(
        tabs.modals().current(),
        Some(ModalRequest::ConfirmClose { tab_id: queued }) if *queued == tab_id
    ));
}

#[test]
fn disconnected_tabs_close_without_confirmation() {
    let mut tabs = Tabs::new();
    let tab_id = tabs.open(profile(), FakeTerminal::new(), false);
    tabs.apply_event(tab_id, SessionEvent::StateChanged(SessionState::Connected));
    tabs.apply_event(tab_id, SessionEvent::Error(SessionError::Disconnected));
    assert!(tabs.tab(tab_id).is_some_and(|tab| tab.is_disconnected()));

    assert!(tabs.request_close(tab_id));

    assert!(tabs.tab(tab_id).is_none());
    assert!(tabs.modals().current().is_none());
}

#[test]
fn host_key_decision_progresses_past_awaiting_state() {
    let mut tabs = Tabs::new();
    let tab_id = tabs.open(profile(), FakeTerminal::new(), false);
    tabs.apply_event(
        tab_id,
        SessionEvent::UnknownHostKey {
            prompt_id: uuid::Uuid::new_v4().as_u128(),
            endpoint: endpoint(),
            algorithm: "ssh-ed25519".into(),
            fingerprint_sha256: "SHA256:test".into(),
        },
    );
    assert_eq!(tabs.tab(tab_id).unwrap().state(), &TabState::AwaitingHostKey);

    tabs.apply_event(tab_id, SessionEvent::StateChanged(SessionState::Authenticating));
    assert_eq!(tabs.tab(tab_id).unwrap().state(), &TabState::Connecting);

    tabs.apply_event(tab_id, SessionEvent::StateChanged(SessionState::Connected));
    assert_eq!(tabs.tab(tab_id).unwrap().state(), &TabState::Connected);
}

#[test]
fn theme_and_locale_switch_without_session_restart() {
    let mut tabs = Tabs::new();
    let tab_id = tabs.open(profile(), FakeTerminal::new(), false);
    tabs.apply_event(tab_id, SessionEvent::StateChanged(SessionState::Connected));
    tabs.apply_event(tab_id, SessionEvent::Output(b"content".to_vec()));
    let light = TerminalColors {
        foreground: RgbColor::new(0x11, 0x22, 0x33),
        background: RgbColor::new(0xee, 0xee, 0xee),
        cursor: RgbColor::new(0x11, 0x22, 0x33),
        ..TerminalColors::default()
    };

    tabs.set_terminal_colors(light);
    let locale = oxide_ssh::i18n::ResolvedLocale::ZhCn;

    let tab = tabs.tab(tab_id).unwrap();
    assert_eq!(locale, oxide_ssh::i18n::ResolvedLocale::ZhCn);
    assert_eq!(tab.state(), &TabState::Connected);
    assert!(visible_text(&tabs, tab_id).contains("content"));
    assert_eq!(tab.terminal().colors.foreground, light.foreground);
}

#[test]
fn encrypted_key_can_request_a_secret_after_connect_starts() {
    let mut tabs = Tabs::new();
    let tab_id = tabs.open(profile(), FakeTerminal::new(), false);

    tabs.request_secret(tab_id).unwrap();
    assert_eq!(tabs.tab(tab_id).unwrap().state(), &TabState::AwaitingSecret);
    assert!(matches!(
        tabs.modals().current(),
        Some(ModalRequest::Secret { tab_id: queued }) if *queued == tab_id
    ));

    tabs.apply_event(tab_id, SessionEvent::StateChanged(SessionState::Disconnected));
    assert_eq!(tabs.tab(tab_id).unwrap().state(), &TabState::AwaitingSecret);
}

#[test]
fn typed_keys_reach_the_session_and_a_full_queue_is_reported() {
    let mut tabs = Tabs::new();
    let tab_id = tabs.open(profile(), FakeTerminal::new(), false);
    let tab = tabs.tab_mut(tab_id).unwrap();
    tab.attach_session(FakeSession { id: SessionId::new(), sent: Rc::new(RefCell::new(Vec::new())), sizes: Rc::new(RefCell::new(Vec::new())), answers: Rc::new(RefCell::new(Vec::new())), full: false });
    tab.send_text("ls\r").unwrap();
    assert!(tab.has_session());

    let mut tabs = Tabs::new();
    let tab_id = tabs.open(profile(), FakeTerminal::new(), false);
    let tab = tabs.tab_mut(tab_id).unwrap();
    tab.attach_session(FakeSession { id: SessionId::new(), sent: Rc::new(RefCell::new(Vec::new())), sizes: Rc::new(RefCell::new(Vec::new())), answers: Rc::new(RefCell::new(Vec::new())), full: true });
    assert_eq!(tab.send_text("x"), Err(TabLocalError::InputQueueFull));
    assert_eq!(tab.local_error(), Some(TabLocalError::InputQueueFull));
    tab.clear_local_error();
    assert_eq!(tab.local_error(), None);
}

#[test]
fn input_without_a_session_is_closed() {
    let mut tabs = Tabs::new();
    let tab_id = tabs.open(profile(), FakeTerminal::new(), false);
    let tab = tabs.tab_mut(tab_id).unwrap();
    assert_eq!(tab.send_text("x"), Err(TabLocalError::InputClosed));
}

#[test]
fn bell_output_is_reported() {
    let mut tabs = Tabs::new();
    let tab_id = tabs.open(profile(), FakeTerminal::new(), false);
    let notes = tabs.apply_event(tab_id, SessionEvent::Bell);
    assert!(notes.contains(&TabNotification::Bell));
}

#[test]
fn removing_a_tab_withdraws_its_requests_and_moves_the_active_tab() {
    let mut tabs = Tabs::new();
    let first = tabs.open(profile(), FakeTerminal::new(), false);
    let second = tabs.open(profile(), FakeTerminal::new(), true);
    assert_eq!(tabs.active(), Some(second));
    assert!(tabs.remove(second).is_some());
    assert!(tabs.modals().is_empty());
    assert_eq!(tabs.active(), Some(first));
    assert!(tabs.remove(second).is_none());
}

#[test]
fn host_card_shows_the_latest_tab_of_its_profile() {
    let shown = profile();
    let other = profile();
    let mut tabs = Tabs::new();
    assert_eq!(tabs.profile_state(shown.id), None);

    let first = tabs.open(shown.clone(), FakeTerminal::new(), false);
    tabs.open(other.clone(), FakeTerminal::new(), true);
    tabs.apply_event(first, SessionEvent::StateChanged(SessionState::Connected));
    assert_eq!(tabs.profile_state(shown.id), Some(TabState::Connected));
    assert_eq!(tabs.profile_state(other.id), Some(TabState::AwaitingSecret));

    let second = tabs.open(shown.clone(), FakeTerminal::new(), false);
    assert_eq!(tabs.profile_state(shown.id), Some(TabState::Connecting));
    tabs.remove(second);
    assert_eq!(tabs.profile_state(shown.id), Some(TabState::Connected));
    assert_eq!(tabs.profile_state(ProfileId::new()), None);
}

#[test]
fn tabs_cycle_round_in_both_directions() {
    let mut tabs = Tabs::new();
    let only = tabs.open(profile(), FakeTerminal::new(), false);
    tabs.cycle_active(false);
    assert_eq!(tabs.active(), Some(only));

    let second = tabs.open(profile(), FakeTerminal::new(), false);
    let third = tabs.open(profile(), FakeTerminal::new(), false);
    tabs.set_active(third);
    tabs.cycle_active(false);
    assert_eq!(tabs.active(), Some(only));
    tabs.cycle_active(true);
    assert_eq!(tabs.active(), Some(third));
    tabs.cycle_active(true);
    assert_eq!(tabs.active(), Some(second));
    tabs.cycle_active(false);
    assert_eq!(tabs.active(), Some(third));
}

#[test]
fn only_connected_or_connecting_tabs_are_live() {
    let mut tabs = Tabs::new();
    assert!(!tabs.has_live_tabs());
    let first = tabs.open(profile(), FakeTerminal::new(), false);
    assert!(tabs.has_live_tabs());
    tabs.apply_event(first, SessionEvent::StateChanged(SessionState::Disconnected));
    assert!(tabs.tab(first).unwrap().is_disconnected());
    assert!(!tabs.has_live_tabs());
    tabs.open(profile(), FakeTerminal::new(), true);
    assert!(tabs.has_live_tabs());
}

#[test]
fn a_grid_too_small_is_refused_before_the_terminal_sees_it() {
    let mut tabs = Tabs::new();
    let id = tabs.open(profile(), FakeTerminal::new(), false);
    let tab = tabs.tab_mut(id).unwrap();
    let small = TerminalSize { columns: 1, rows: 24, pixel_width: 0, pixel_height: 0 };
    assert_eq!(tab.resize(small), Err(TabLocalError::InvalidTerminalSize));
    assert_eq!(tab.terminal().size, None);
    let fine = TerminalSize { columns: 80, rows: 24, pixel_width: 640, pixel_height: 480 };
    assert_eq!(tab.resize(fine), Ok(()));
    assert_eq!(tab.terminal().size, Some(fine));
}

#[test]
fn the_session_is_told_the_new_size_and_the_input() {
    let sent = Rc::new(RefCell::new(Vec::new()));
    let sizes = Rc::new(RefCell::new(Vec::new()));
    let mut tabs = Tabs::new();
    let id = tabs.open(profile(), FakeTerminal::new(), false);
    let tab = tabs.tab_mut(id).unwrap();
    tab.attach_session(FakeSession { id: SessionId::new(), sent: sent.clone(), sizes: sizes.clone(), answers: Rc::new(RefCell::new(Vec::new())), full: false });
    let size = TerminalSize { columns: 120, rows: 40, pixel_width: 960, pixel_height: 800 };
    assert_eq!(tab.resize(size), Ok(()));
    let huge = TerminalSize { columns: usize::MAX, rows: 3, pixel_width: 1, pixel_height: 2 };
    assert_eq!(tab.resize(huge), Ok(()));
    assert_eq!(
        tab.resize(TerminalSize { columns: 1, rows: 3, pixel_width: 0, pixel_height: 0 }),
        Err(TabLocalError::InvalidTerminalSize)
    );
    assert!(tab.send_text("ls").is_ok());
    assert!(tab.paste("a\nb").is_ok());
    assert_eq!(
        *sizes.borrow(),
        vec![
            oxide_ssh::model::TerminalSize { columns: 120, rows: 40, pixel_width: 960, pixel_height: 800 },
            oxide_ssh::model::TerminalSize { columns: u32::MAX, rows: 3, pixel_width: 1, pixel_height: 2 },
        ]
    );
    assert_eq!(*sent.borrow(), vec![b"ls".to_vec(), b"a\rb".to_vec()]);
}

#[test]
fn a_host_key_answer_goes_to_the_session_unchanged() {
    let answers = Rc::new(RefCell::new(Vec::new()));
    let mut tabs = Tabs::new();
    let id = tabs.open(profile(), FakeTerminal::new(), false);
    let tab = tabs.tab_mut(id).unwrap();
    assert_eq!(
        tab.decide_host_key(7, HostKeyDecision::AcceptAndStore),
        Err(SessionError::Disconnected)
    );
    tab.attach_session(FakeSession {
        id: SessionId::new(),
        sent: Rc::new(RefCell::new(Vec::new())),
        sizes: Rc::new(RefCell::new(Vec::new())),
        answers: answers.clone(),
        full: false,
    });
    assert_eq!(tab.decide_host_key(7, HostKeyDecision::AcceptAndStore), Ok(()));
    assert_eq!(
        tab.decide_host_key(0, HostKeyDecision::Reject),
        Err(SessionError::HostKeyRejected)
    );
    assert_eq!(
        *answers.borrow(),
        vec![(7, HostKeyDecision::AcceptAndStore), (0, HostKeyDecision::Reject)]
    );
}

#[test]
fn terminal_replies_go_to_the_session_and_bells_and_wakeups_are_noted() {
    let sent = Rc::new(RefCell::new(Vec::new()));
    let mut tabs = Tabs::new();
    let id = tabs.open(profile(), FakeTerminal::new(), false);
    let tab = tabs.tab_mut(id).unwrap();
    let actions = vec![
        TerminalAction::WriteBack(b"\x1b[0n".to_vec()),
        TerminalAction::Bell,
        TerminalAction::Wakeup,
        TerminalAction::WriteBack(b"\x1b[1;1R".to_vec()),
    ];
    assert_eq!(
        tab.act_on(&actions),
        vec![
            TabNotification::LocalError(TabLocalError::InputClosed),
            TabNotification::Bell,
            TabNotification::Repaint,
            TabNotification::LocalError(TabLocalError::InputClosed),
        ]
    );
    tab.attach_session(FakeSession {
        id: SessionId::new(),
        sent: sent.clone(),
        sizes: Rc::new(RefCell::new(Vec::new())),
        answers: Rc::new(RefCell::new(Vec::new())),
        full: false,
    });
    assert_eq!(tab.act_on(&actions), vec![TabNotification::Bell, TabNotification::Repaint]);
    assert_eq!(*sent.borrow(), vec![b"\x1b[0n".to_vec(), b"\x1b[1;1R".to_vec()]);
}

#[test]
fn a_full_queue_is_reported_once_per_lost_reply() {
    let mut tabs = Tabs::new();
    let id = tabs.open(profile(), FakeTerminal::new(), false);
    let tab = tabs.tab_mut(id).unwrap();
    tab.attach_session(FakeSession {
        id: SessionId::new(),
        sent: Rc::new(RefCell::new(Vec::new())),
        sizes: Rc::new(RefCell::new(Vec::new())),
        answers: Rc::new(RefCell::new(Vec::new())),
        full: true,
    });
    let actions = vec![TerminalAction::WriteBack(b"a".to_vec()), TerminalAction::WriteBack(b"b".to_vec())];
    assert_eq!(
        tab.act_on(&actions),
        vec![
            TabNotification::LocalError(TabLocalError::InputQueueFull),
            TabNotification::LocalError(TabLocalError::InputQueueFull),
        ]
    );
    assert_eq!(tab.local_error(), Some(TabLocalError::InputQueueFull));
}

#[test]
fn new_colors_reach_every_terminal() {
    let mut tabs = Tabs::new();
    let first = tabs.open(profile(), FakeTerminal::new(), false);
    let second = tabs.open(profile(), FakeTerminal::new(), true);
    let mut colors = TerminalColors::default();
    colors.foreground = RgbColor::new(1, 2, 3);
    colors.background = RgbColor::new(4, 5, 6);
    tabs.set_terminal_colors(colors);
    for id in [first, second] {
        assert_eq!(tabs.tab(id).unwrap().terminal().colors, colors);
    }
}
