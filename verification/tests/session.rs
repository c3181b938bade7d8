use oxide_ssh::model::{AuthConfig, ConnectionProfile, Endpoint, ProfileId, TerminalSize};
use oxide_ssh::session::{
    agent_first, agent_next, authentication_verdict, closing_events, password_secret, AgentStep, connect_deadline_secs, connect_precheck,
    decision_outcome, key_load_error, registration_event, known_host_verdict, on_channel_message, passphrase_probe,
    same_presented_key, settled_result, ChannelMessage, HostKeyDecision, HostTrustTable,
    KeyLoadFailure, KnownHostVerdict, PresentedHostKey, Registration, SessionError, SessionEvent,
    ShellStep, TrustOutcome,
};
use oxide_ssh::storage::{canonicalize_endpoint, KnownHostEntry, KnownHosts, StorageError};

fn endpoint() -> Endpoint {
    canonicalize_endpoint(&Endpoint { host: "EXAMPLE.COM".into(), port: 22 }).unwrap()
}

fn presented(name: &str) -> PresentedHostKey {
    PresentedHostKey {
        algorithm: "ssh-ed25519".into(),
        public_key: format!("ssh-ed25519 {name}"),
        fingerprint_sha256: format!("SHA256:{name}"),
    }
}

fn known(name: &str) -> KnownHostEntry {
    KnownHostEntry {
        host: endpoint().host,
        port: 22,
        algorithm: "ssh-ed25519".into(),
        public_key: format!("ssh-ed25519 {name}"),
        fingerprint_sha256: format!("SHA256:{name}"),
        accepted_at_unix: 1,
    }
}

#[test]
fn unknown_host_requires_acceptance() {
    let hosts = KnownHosts::default();
    assert_eq!(hosts.lookup(&endpoint()), Ok(None));
    let mut table = HostTrustTable::new();
    assert_eq!(table.register(endpoint(), presented("one"), 1), Registration::Owner { prompt_id: 1 });
    assert!(table.is_pending(&endpoint()));

    let (decided_endpoint, key) = table.begin_decision(1).unwrap();
    assert_eq!(decided_endpoint, endpoint());
    assert_eq!(key, presented("one"));
    let (result, outcome) = decision_outcome(HostKeyDecision::AcceptAndStore, &Ok(()));
    assert_eq!(result, Ok(()));
    assert_eq!(table.settle(&endpoint()), Some(vec![1]));
    assert_eq!(settled_result(outcome), Some(Ok(())));
    assert!(!table.is_pending(&endpoint()));
}

#[test]
fn accepted_host_is_reused() {
    let mut hosts = KnownHosts::default();
    hosts.accept(known("one")).unwrap();
    let entry = hosts.lookup(&endpoint()).unwrap().unwrap();
    assert_eq!(known_host_verdict(&entry, &presented("one")), KnownHostVerdict::Trusted);
}

#[test]
fn changed_host_is_hard_rejected() {
    let mut hosts = KnownHosts::default();
    hosts.accept(known("one")).unwrap();
    let entry = hosts.lookup(&endpoint()).unwrap().unwrap();
    assert_eq!(
        known_host_verdict(&entry, &presented("two")),
        KnownHostVerdict::Changed {
            expected_sha256: "SHA256:one".into(),
            presented_sha256: "SHA256:two".into(),
        }
    );
}

#[test]
fn deleting_trust_allows_a_new_prompt() {
    let mut hosts = KnownHosts::default();
    hosts.accept(known("one")).unwrap();
    hosts.delete(&endpoint()).unwrap();
    assert_eq!(hosts.lookup(&endpoint()), Ok(None));

    let mut table = HostTrustTable::new();
    assert_eq!(table.register(endpoint(), presented("two"), 7), Registration::Owner { prompt_id: 7 });
    assert!(table.begin_decision(7).is_some());
    let (result, outcome) = decision_outcome(HostKeyDecision::Reject, &Ok(()));
    assert_eq!(result, Ok(()));
    assert_eq!(table.settle(&endpoint()), Some(vec![7]));
    assert_eq!(settled_result(outcome), Some(Err(SessionError::HostKeyRejected)));
}

#[test]
fn concurrent_same_key_connections_share_one_prompt() {
    let mut table = HostTrustTable::new();
    assert_eq!(table.register(endpoint(), presented("same"), 1), Registration::Owner { prompt_id: 1 });
    assert_eq!(
        table.register(endpoint(), presented("same"), 2),
        Registration::Joined { prompt_id: 1, waiter_token: 2 }
    );
    assert!(table.begin_decision(1).is_some());
    let (_, outcome) = decision_outcome(HostKeyDecision::AcceptAndStore, &Ok(()));
    assert_eq!(table.settle(&endpoint()), Some(vec![1, 2]));
    assert_eq!(settled_result(outcome), Some(Ok(())));
}

#[test]
fn concurrent_different_keys_are_rejected() {
    let mut table = HostTrustTable::new();
    assert_eq!(table.register(endpoint(), presented("one"), 1), Registration::Owner { prompt_id: 1 });
    assert_eq!(
        table.register(endpoint(), presented("two"), 2),
        Registration::Conflict { expected_sha256: "SHA256:one".into(), waiters: vec![1] }
    );
    assert!(!table.is_pending(&endpoint()));
    assert_eq!(settled_result(TrustOutcome::Conflict), Some(Err(SessionError::HostKeyChanged)));
    assert!(table.begin_decision(1).is_none());
}

#[test]
fn dropped_pending_verification_allows_a_fresh_prompt() {
    let mut table = HostTrustTable::new();
    assert_eq!(table.register(endpoint(), presented("one"), 1), Registration::Owner { prompt_id: 1 });
    assert!(table.release(&endpoint(), 1, true, 1));
    assert!(!table.is_pending(&endpoint()));

    let second = table.register(endpoint(), presented("one"), 2);
    assert_eq!(second, Registration::Owner { prompt_id: 2 });
    assert!(table.begin_decision(2).is_some());
    assert_eq!(table.settle(&endpoint()), Some(vec![2]));
}

#[test]
fn abandoned_same_key_waiter_is_removed_from_the_pending_entry() {
    let mut table = HostTrustTable::new();
    assert_eq!(table.register(endpoint(), presented("same"), 1), Registration::Owner { prompt_id: 1 });
    assert_eq!(
        table.register(endpoint(), presented("same"), 2),
        Registration::Joined { prompt_id: 1, waiter_token: 2 }
    );
    assert!(!table.release(&endpoint(), 1, false, 2));
    assert!(table.is_pending(&endpoint()));
    assert!(table.begin_decision(1).is_some());
    assert_eq!(table.settle(&endpoint()), Some(vec![1]));
}

#[test]
fn a_prompt_is_decided_once() {
    let mut table = HostTrustTable::new();
    table.register(endpoint(), presented("one"), 1);
    assert!(table.begin_decision(1).is_some());
    assert!(table.begin_decision(1).is_none());
    assert!(table.begin_decision(99).is_none());
}

#[test]
fn storing_a_decided_key_can_fail() {
    assert_eq!(
        decision_outcome(HostKeyDecision::AcceptAndStore, &Err(StorageError::HostKeyConflict)),
        (Err(SessionError::HostKeyChanged), TrustOutcome::Conflict)
    );
    assert_eq!(
        decision_outcome(HostKeyDecision::AcceptAndStore, &Err(StorageError::InvalidEndpoint)),
        (Err(SessionError::HostKeyStoreFailed), TrustOutcome::Rejected)
    );
    assert_eq!(settled_result(TrustOutcome::Waiting), None);
}

#[test]
fn presented_keys_compare_by_all_fields() {
    assert!(same_presented_key(&presented("a"), &presented("a")));
    let mut other = presented("a");
    other.algorithm = "rsa-sha2-256".into();
    assert!(!same_presented_key(&presented("a"), &other));
}

#[test]
fn invalid_profiles_and_sizes_never_connect() {
    let mut profile = ConnectionProfile {
        id: ProfileId::new(),
        name: "p".into(),
        endpoint: Endpoint { host: "h".into(), port: 22 },
        username: "u".into(),
        auth: AuthConfig::Agent,
    };
    let size = TerminalSize { columns: 80, rows: 24, pixel_width: 0, pixel_height: 0 };
    assert_eq!(connect_precheck(&profile, size), Ok(()));
    assert_eq!(
        connect_precheck(&profile, TerminalSize { rows: 0, ..size }),
        Err(SessionError::InvalidProfile)
    );
    profile.endpoint.port = 0;
    assert_eq!(connect_precheck(&profile, size), Err(SessionError::InvalidProfile));
}

#[test]
fn closing_reports_exit_or_error_then_disconnected() {
    let events = closing_events(Ok(Some(0)));
    assert!(matches!(events.first(), Some(SessionEvent::Exited { status: Some(0) })));
    let events = closing_events(Err(SessionError::ShellRejected));
    assert!(matches!(events.first(), Some(SessionEvent::Error(SessionError::ShellRejected))));
    assert!(connect_deadline_secs(true) > connect_deadline_secs(false));
}

#[test]
fn channel_messages_forward_output_and_finish_with_the_status() {
    let mut status = None;
    assert!(matches!(on_channel_message(&mut status, ChannelMessage::Data(b"hi".to_vec())), ShellStep::Forward(bytes) if bytes == b"hi"));
    assert!(matches!(on_channel_message(&mut status, ChannelMessage::ExitStatus(3)), ShellStep::Continue));
    assert_eq!(status, Some(3));
}

#[test]
fn key_failures_name_the_missing_or_wrong_passphrase() {
    assert_eq!(key_load_error(KeyLoadFailure::Encrypted, false), SessionError::PrivateKeyPassphraseRequired);
    assert_eq!(key_load_error(KeyLoadFailure::Encrypted, true), SessionError::PrivateKeyPassphraseRejected);
    assert_eq!(passphrase_probe(false, Ok(())), Err(SessionError::PrivateKeyUnreadable));
    assert_eq!(authentication_verdict(false), Err(SessionError::AuthenticationRejected));
    assert_eq!(authentication_verdict(true), Ok(()));
}

#[test]
fn issued_tokens_are_never_fresh_again() {
    let mut table = HostTrustTable::new();
    assert!(table.is_fresh(1));
    assert_eq!(table.register(endpoint(), presented("a"), 1), Registration::Owner { prompt_id: 1 });
    assert!(!table.is_fresh(1));
    assert!(table.is_fresh(2));
    assert!(table.begin_decision(1).is_some());
    assert_eq!(table.settle(&endpoint()), Some(vec![1]));
    // The settled prompt stays issued; a late answer finds nothing.
    assert!(!table.is_fresh(1));
    assert_eq!(table.register(endpoint(), presented("a"), 2), Registration::Owner { prompt_id: 2 });
    assert!(table.begin_decision(1).is_none());
}

#[test]
fn a_password_login_needs_its_secret() {
    let secret = oxide_ssh::credentials::SecretString::new("pw".into());
    assert_eq!(password_secret(Some(&secret)).map(|s| s.expose_secret().to_owned()), Ok("pw".to_owned()));
    assert!(matches!(password_secret(None), Err(SessionError::CredentialUnavailable)));
}

#[test]
fn an_agent_login_tries_each_identity_in_turn() {
    assert_eq!(agent_first(None), AgentStep::Finish(Err(SessionError::AgentUnavailable)));
    assert_eq!(agent_first(Some(0)), AgentStep::Finish(Err(SessionError::AgentEmpty)));
    assert_eq!(agent_first(Some(2)), AgentStep::Try(0));
    assert_eq!(agent_next(0, 2, Some(false)), AgentStep::Try(1));
    assert_eq!(agent_next(1, 2, Some(false)), AgentStep::Finish(Err(SessionError::AuthenticationRejected)));
    assert_eq!(agent_next(0, 2, Some(true)), AgentStep::Finish(Ok(())));
    assert_eq!(agent_next(0, 2, None), AgentStep::Finish(Err(SessionError::AgentUnavailable)));
}

#[test]
fn the_owner_announces_the_prompt_and_a_conflict_the_changed_key() {
    let key = presented("one");
    assert_eq!(
        registration_event(&Registration::Owner { prompt_id: 9 }, &endpoint(), &key),
        Some(SessionEvent::UnknownHostKey {
            prompt_id: 9,
            endpoint: endpoint(),
            algorithm: "ssh-ed25519".into(),
            fingerprint_sha256: "SHA256:one".into(),
        })
    );
    assert_eq!(
        registration_event(&Registration::Joined { prompt_id: 9, waiter_token: 10 }, &endpoint(), &key),
        None
    );
    assert_eq!(
        registration_event(
            &Registration::Conflict { expected_sha256: "SHA256:old".into(), waiters: vec![9] },
            &endpoint(),
            &key
        ),
        Some(SessionEvent::ChangedHostKey {
            endpoint: endpoint(),
            expected_sha256: "SHA256:old".into(),
            presented_sha256: "SHA256:one".into(),
        })
    );
}

#[test]
fn every_waiter_gets_the_answer() {
    let accept = decision_outcome(HostKeyDecision::AcceptAndStore, &Ok(()));
    assert_eq!(settled_result(accept.1), Some(Ok(())));
    let reject = decision_outcome(HostKeyDecision::Reject, &Ok(()));
    assert_eq!(settled_result(reject.1), Some(Err(SessionError::HostKeyRejected)));
    let conflict = decision_outcome(HostKeyDecision::AcceptAndStore, &Err(StorageError::HostKeyConflict));
    assert_eq!(settled_result(conflict.1), Some(Err(SessionError::HostKeyChanged)));
}
