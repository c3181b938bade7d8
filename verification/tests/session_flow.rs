use oxide_ssh::credentials::{CredentialError, SecretString};
use oxide_ssh::i18n::MessageId;
use oxide_ssh::model::{AuthConfig, ConnectionProfile, CredentialRef, Endpoint, ProfileId, SessionId};
use oxide_ssh::session::{SessionError, SessionEvent, SessionState};
use oxide_ssh::session_flow::{
    after_notifications, after_probe, connect_start, key_to_probe, route_event, ConnectStart,
    EventRoute, ProbeStep,
};
use oxide_ssh::tabs::{TabLocalError, TabNotification};

fn profile(auth: AuthConfig) -> ConnectionProfile {
    ConnectionProfile {
        id: ProfileId::new(),
        name: "fixture".into(),
        endpoint: Endpoint { host: "example.com".into(), port: 22 },
        username: "oxide".into(),
        auth,
    }
}

fn password() -> ConnectionProfile {
    profile(AuthConfig::Password { credential_ref: None })
}

fn started_with(start: ConnectStart) -> Option<Option<String>> {
    match start {
        ConnectStart::Start(secret) => Some(secret.map(|s| s.expose_secret().to_owned())),
        _ => None,
    }
}

#[test]
fn a_one_time_secret_wins_over_the_saved_one() {
    let start = connect_start(
        &password(),
        Some(SecretString::new("typed".into())),
        Ok(Some(SecretString::new("saved".into()))),
    );
    assert_eq!(started_with(start), Some(Some("typed".into())));
    let start = connect_start(&password(), Some(SecretString::new("typed".into())), Err(CredentialError::AccessDenied));
    assert_eq!(started_with(start), Some(Some("typed".into())));
}

#[test]
fn a_password_profile_without_a_secret_asks_for_one() {
    let start = connect_start(&password(), None, Ok(Some(SecretString::new("saved".into()))));
    assert_eq!(started_with(start), Some(Some("saved".into())));
    assert!(matches!(connect_start(&password(), None, Ok(None)), ConnectStart::AwaitSecret));
    let agent = profile(AuthConfig::Agent);
    assert_eq!(started_with(connect_start(&agent, None, Ok(None))), Some(None));
}

#[test]
fn an_unreadable_credential_store_does_not_block_the_tab() {
    assert!(matches!(
        connect_start(&password(), None, Err(CredentialError::Unavailable)),
        ConnectStart::AwaitSecret
    ));
    let agent = profile(AuthConfig::Agent);
    assert!(matches!(
        connect_start(&agent, None, Err(CredentialError::Unavailable)),
        ConnectStart::Idle
    ));
}

#[test]
fn only_an_unsaved_key_passphrase_is_probed() {
    let id = ProfileId::new();
    let unsaved = profile(AuthConfig::PrivateKey { path: "/keys/id_ed25519".into(), passphrase_ref: None });
    assert_eq!(key_to_probe(&unsaved, false).map(String::as_str), Some("/keys/id_ed25519"));
    assert_eq!(key_to_probe(&unsaved, true), None);
    let saved = profile(AuthConfig::PrivateKey {
        path: "/keys/id_ed25519".into(),
        passphrase_ref: Some(CredentialRef::private_key_passphrase(id)),
    });
    assert_eq!(key_to_probe(&saved, false), None);
    assert_eq!(key_to_probe(&password(), false), None);

    assert_eq!(after_probe(Ok(true)), ProbeStep::AskPassphrase);
    assert_eq!(after_probe(Ok(false)), ProbeStep::Connect);
    assert_eq!(
        after_probe(Err(SessionError::PrivateKeyUnreadable)),
        ProbeStep::Fail(SessionError::PrivateKeyUnreadable)
    );
}

#[test]
fn events_of_a_replaced_session_are_dropped() {
    let current = SessionId::new();
    let old = SessionId::new();
    let connected = SessionEvent::StateChanged(SessionState::Connected);
    assert_eq!(route_event(Some(current), old, &connected), EventRoute::Stale);
    assert_eq!(route_event(None, old, &connected), EventRoute::Stale);
    assert_eq!(route_event(Some(current), current, &connected), EventRoute::Apply);
    assert_eq!(
        route_event(
            Some(current),
            current,
            &SessionEvent::Error(SessionError::PrivateKeyPassphraseRequired)
        ),
        EventRoute::AskPassphrase
    );
    assert_eq!(
        route_event(Some(current), current, &SessionEvent::Error(SessionError::AuthenticationRejected)),
        EventRoute::Apply
    );
}

#[test]
fn notifications_drive_the_bell_and_the_status_line() {
    let notes = vec![TabNotification::Bell];
    assert_eq!(after_notifications(false, None, &notes), (true, None));
    let notes = vec![TabNotification::Bell, TabNotification::Repaint];
    assert_eq!(after_notifications(true, None, &notes), (false, None));
    let notes = vec![
        TabNotification::LocalError(TabLocalError::InputQueueFull),
        TabNotification::LocalError(TabLocalError::PasteTooLarge),
    ];
    assert_eq!(
        after_notifications(true, Some(MessageId::StorageCorrupt), &notes),
        (true, Some(MessageId::PasteTooLarge))
    );
    assert_eq!(
        after_notifications(false, Some(MessageId::StorageCorrupt), &Vec::new()),
        (false, Some(MessageId::StorageCorrupt))
    );
}
