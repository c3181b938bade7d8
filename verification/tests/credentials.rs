use std::cell::{Cell, RefCell};
use std::collections::HashMap;

use oxide_ssh::credentials::{erase_outcome, read_outcome, write_outcome};
use oxide_ssh::credentials::{
    ask_store, begin_delete, begin_save, credential_error_message_id, map_keyring_error,
    remove_profile, store_profile, CredentialError, CredentialStore, CredentialTransactionError,
    DeleteTransaction, KeyringFailure, SaveProfileOutcome, SaveProfileRequest, SaveTransaction,
    SecretString, SystemCredentialStore, TransactionReply, TransactionRequest,
    APPLICATION_IDENTIFIER,
};
use oxide_ssh::i18n::MessageId;
use oxide_ssh::model::{AuthConfig, ConnectionProfile, CredentialRef, Endpoint, ProfileId};
use oxide_ssh::storage::{validate_config, AppConfig, StorageError};

#[derive(Default)]
struct FakeCredentialStore {
    values: RefCell<HashMap<String, String>>,
    fail_delete: Cell<bool>,
}

impl FakeCredentialStore {
    fn value(&self, reference: &CredentialRef) -> Option<String> {
        self.values.borrow().get(reference.as_str()).cloned()
    }
}

impl CredentialStore for FakeCredentialStore {
    fn get(&self, reference: &CredentialRef) -> Result<Option<SecretString>, CredentialError> {
        Ok(self.value(reference).map(SecretString::new))
    }

    fn put(&self, reference: &CredentialRef, secret: &SecretString) -> Result<(), CredentialError> {
        self.values
            .borrow_mut()
            .insert(reference.0.clone(), secret.expose_secret().to_owned());
        Ok(())
    }

    fn delete(&self, reference: &CredentialRef) -> Result<(), CredentialError> {
        if self.fail_delete.get() {
            return Err(CredentialError::AccessDenied);
        }
        self.values.borrow_mut().remove(reference.as_str());
        Ok(())
    }
}

/// An in-memory configuration document; `corrupt` makes every update fail
/// as a corrupt file would.
struct ConfigDocument {
    config: AppConfig,
    corrupt: bool,
}

impl ConfigDocument {
    fn new() -> Self {
        ConfigDocument { config: AppConfig::default(), corrupt: false }
    }

    fn corrupt_error() -> StorageError {
        StorageError::Corrupt { path: "config.json".into() }
    }

    fn update(&mut self, update: impl FnOnce(&mut AppConfig) -> bool) -> Result<bool, StorageError> {
        if self.corrupt {
            return Err(Self::corrupt_error());
        }
        let mut next = self.config.clone();
        let found = update(&mut next);
        validate_config(&next)?;
        self.config = next;
        Ok(found)
    }
}

fn save(
    store: &FakeCredentialStore,
    document: &mut ConfigDocument,
    request: SaveProfileRequest,
) -> Result<SaveProfileOutcome, CredentialTransactionError> {
    let mut transaction = begin_save(request);
    loop {
        let reply = match ask_store(store, transaction.request()) {
            Some(reply) => reply,
            None => match transaction.request() {
                TransactionRequest::SaveProfile(profile) => {
                    let profile = profile.clone();
                    TransactionReply::Saved(document.update(|config| {
                        store_profile(config, profile);
                        true
                    }).map(|_| ()))
                }
                TransactionRequest::Nothing => break,
                _ => unreachable!(),
            },
        };
        transaction = transaction.next(reply);
    }
    match transaction {
        SaveTransaction::Finished(result) => result,
        _ => unreachable!(),
    }
}

fn delete(
    store: &FakeCredentialStore,
    document: &mut ConfigDocument,
    profile: &ConnectionProfile,
) -> Result<(), CredentialTransactionError> {
    let mut transaction = begin_delete(profile);
    loop {
        let reply = match ask_store(store, transaction.request()) {
            Some(reply) => reply,
            None => match transaction.request() {
                TransactionRequest::RemoveProfile(id) => {
                    TransactionReply::Removed(document.update(|config| remove_profile(config, id)))
                }
                TransactionRequest::Nothing => break,
                _ => unreachable!(),
            },
        };
        transaction = transaction.next(reply);
    }
    match transaction {
        DeleteTransaction::Finished(result) => result,
        _ => unreachable!(),
    }
}

fn password_profile() -> ConnectionProfile {
    ConnectionProfile {
        id: ProfileId::new(),
        name: "fixture".into(),
        endpoint: Endpoint {
            host: "example.com".into(),
            port: 22,
        },
        username: "oxide".into(),
        auth: AuthConfig::Password {
            credential_ref: None,
        },
    }
}

fn secret(text: &str) -> SecretString {
    SecretString::new(text.to_string())
}

#[test]
fn remembered_secret_is_written_before_profile_reference() {
    let mut document = ConfigDocument::new();
    let credential_store = FakeCredentialStore::default();
    let profile = password_profile();
    let reference = CredentialRef::password(profile.id);

    let outcome = save(
        &credential_store,
        &mut document,
        SaveProfileRequest {
            profile,
            previous: None,
            secret: Some(secret("remembered-secret")),
            remember: true,
        },
    )
    .unwrap();

    assert!(outcome.connect_secret.is_none());
    assert_eq!(
        credential_store.value(&reference).as_deref(),
        Some("remembered-secret")
    );
    assert!(matches!(
        &document.config.profiles[0].auth,
        AuthConfig::Password {
            credential_ref: Some(stored)
        } if stored == &reference
    ));
    let debug = format!("{:?}", document.config);
    assert!(!debug.contains("remembered-secret"));
}

#[test]
fn unremembered_secret_stays_transient_and_deletes_old_entry() {
    let mut document = ConfigDocument::new();
    let credential_store = FakeCredentialStore::default();
    let mut previous = password_profile();
    let reference = CredentialRef::password(previous.id);
    previous.auth = AuthConfig::Password {
        credential_ref: Some(reference.clone()),
    };
    credential_store.put(&reference, &secret("old-secret")).unwrap();
    document.config.profiles.push(previous.clone());
    let mut edited = previous.clone();
    edited.auth = AuthConfig::Password {
        credential_ref: Some(reference.clone()),
    };

    let outcome = save(
        &credential_store,
        &mut document,
        SaveProfileRequest {
            profile: edited,
            previous: Some(previous),
            secret: Some(secret("connect-once")),
            remember: false,
        },
    )
    .unwrap();

    assert_eq!(outcome.connect_secret.unwrap().expose_secret(), "connect-once");
    assert!(credential_store.value(&reference).is_none());
    assert!(matches!(
        document.config.profiles[0].auth,
        AuthConfig::Password {
            credential_ref: None
        }
    ));
}

#[test]
fn profile_save_failure_rolls_back_new_keyring_entry() {
    let mut document = ConfigDocument::new();
    document.corrupt = true;
    let credential_store = FakeCredentialStore::default();
    let profile = password_profile();
    let reference = CredentialRef::password(profile.id);

    assert!(matches!(
        save(
            &credential_store,
            &mut document,
            SaveProfileRequest {
                profile,
                previous: None,
                secret: Some(secret("must-rollback")),
                remember: true,
            }
        ),
        Err(CredentialTransactionError::Storage(_))
    ));
    assert!(credential_store.value(&reference).is_none());
}

#[test]
fn auth_switch_stops_when_old_entry_cannot_be_deleted() {
    let mut document = ConfigDocument::new();
    let credential_store = FakeCredentialStore::default();
    let mut previous = password_profile();
    let reference = CredentialRef::password(previous.id);
    previous.auth = AuthConfig::Password {
        credential_ref: Some(reference.clone()),
    };
    credential_store.put(&reference, &secret("old-secret")).unwrap();
    document.config.profiles.push(previous.clone());
    credential_store.fail_delete.set(true);
    let mut edited = previous.clone();
    edited.auth = AuthConfig::Agent;

    assert!(matches!(
        save(
            &credential_store,
            &mut document,
            SaveProfileRequest {
                profile: edited,
                previous: Some(previous),
                secret: None,
                remember: false,
            }
        ),
        Err(CredentialTransactionError::Credential(CredentialError::AccessDenied))
    ));
    assert!(matches!(
        document.config.profiles[0].auth,
        AuthConfig::Password { .. }
    ));
}

#[test]
fn unremembering_fails_atomically_when_deletion_is_denied() {
    let mut document = ConfigDocument::new();
    let credential_store = FakeCredentialStore::default();
    let mut previous = password_profile();
    let reference = CredentialRef::password(previous.id);
    previous.auth = AuthConfig::Password {
        credential_ref: Some(reference.clone()),
    };
    credential_store.put(&reference, &secret("old-secret")).unwrap();
    document.config.profiles.push(previous.clone());
    credential_store.fail_delete.set(true);
    let edited = previous.clone();

    assert!(matches!(
        save(
            &credential_store,
            &mut document,
            SaveProfileRequest {
                profile: edited,
                previous: Some(previous),
                secret: None,
                remember: false,
            }
        ),
        Err(CredentialTransactionError::Credential(CredentialError::AccessDenied))
    ));
    assert_eq!(credential_store.value(&reference).as_deref(), Some("old-secret"));
    assert!(matches!(
        &document.config.profiles[0].auth,
        AuthConfig::Password {
            credential_ref: Some(stored)
        } if stored == &reference
    ));
}

#[test]
fn deleting_profile_deletes_credential_but_preserves_host_trust_store() {
    let mut document = ConfigDocument::new();
    let credential_store = FakeCredentialStore::default();
    let mut profile = password_profile();
    let reference = CredentialRef::password(profile.id);
    profile.auth = AuthConfig::Password {
        credential_ref: Some(reference.clone()),
    };
    credential_store.put(&reference, &secret("old-secret")).unwrap();
    document.config.profiles.push(profile.clone());

    delete(&credential_store, &mut document, &profile).unwrap();

    assert!(document.config.profiles.is_empty());
    assert!(credential_store.value(&reference).is_none());
}

#[test]
fn application_identifier_is_stable() {
    assert_eq!(APPLICATION_IDENTIFIER, "io.github.linko-zhao.OxideSSH");
}

#[test]
fn empty_reference_is_rejected_without_platform_access() {
    assert!(matches!(
        SystemCredentialStore::entry(&CredentialRef(String::new())),
        Err(CredentialError::InvalidReference)
    ));
}

#[test]
fn keyring_errors_are_sanitized() {
    assert_eq!(
        map_keyring_error(KeyringFailure::BadEncoding),
        CredentialError::Corrupt
    );
    assert_eq!(format!("{:?}", CredentialError::Corrupt), "Corrupt");
}

#[test]
fn keyring_failures_map_to_credential_errors() {
    assert_eq!(map_keyring_error(KeyringFailure::NoStorageAccess), CredentialError::AccessDenied);
    assert_eq!(map_keyring_error(KeyringFailure::TooLong), CredentialError::InvalidReference);
    assert_eq!(map_keyring_error(KeyringFailure::Invalid), CredentialError::InvalidReference);
    assert_eq!(map_keyring_error(KeyringFailure::BadDataFormat), CredentialError::Corrupt);
    assert_eq!(map_keyring_error(KeyringFailure::BadStoreFormat), CredentialError::Corrupt);
    assert_eq!(map_keyring_error(KeyringFailure::Ambiguous), CredentialError::Ambiguous);
    assert_eq!(map_keyring_error(KeyringFailure::NotSupportedByStore), CredentialError::Unsupported);
    assert_eq!(map_keyring_error(KeyringFailure::PlatformFailure), CredentialError::Unavailable);
    assert_eq!(map_keyring_error(KeyringFailure::NoDefaultStore), CredentialError::Unavailable);
    assert_eq!(map_keyring_error(KeyringFailure::NoEntry), CredentialError::Unavailable);
    assert_eq!(map_keyring_error(KeyringFailure::Other), CredentialError::Unavailable);
}

#[test]
fn keyring_answers_are_read_as_the_store_reports_them() {
    assert_eq!(
        read_outcome(Ok("pw".to_string())).unwrap().unwrap().expose_secret(),
        "pw"
    );
    assert!(read_outcome(Err(KeyringFailure::NoEntry)).unwrap().is_none());
    assert!(matches!(
        read_outcome(Err(KeyringFailure::NoStorageAccess)),
        Err(CredentialError::AccessDenied)
    ));
    assert_eq!(write_outcome(Err(KeyringFailure::NoEntry)), Err(CredentialError::Unavailable));
    assert_eq!(erase_outcome(Err(KeyringFailure::NoEntry)), Ok(()));
    assert_eq!(erase_outcome(Err(KeyringFailure::Ambiguous)), Err(CredentialError::Ambiguous));
}

#[test]
fn credential_errors_have_their_own_messages() {
    assert_eq!(credential_error_message_id(CredentialError::Unavailable), MessageId::CredentialUnavailable);
    assert_eq!(credential_error_message_id(CredentialError::AccessDenied), MessageId::CredentialAccessDenied);
    assert_eq!(credential_error_message_id(CredentialError::InvalidReference), MessageId::CredentialInvalidReference);
    assert_eq!(credential_error_message_id(CredentialError::Corrupt), MessageId::CredentialCorrupt);
    assert_eq!(credential_error_message_id(CredentialError::Ambiguous), MessageId::CredentialAmbiguous);
    assert_eq!(credential_error_message_id(CredentialError::Unsupported), MessageId::CredentialUnsupported);
}

#[test]
fn invalid_profile_is_refused_before_the_store_is_asked() {
    let mut document = ConfigDocument::new();
    let credential_store = FakeCredentialStore::default();
    let mut profile = password_profile();
    profile.name = "   ".into();
    assert!(matches!(
        save(
            &credential_store,
            &mut document,
            SaveProfileRequest { profile, previous: None, secret: Some(secret("x")), remember: true }
        ),
        Err(CredentialTransactionError::InvalidProfile(_))
    ));
    assert!(credential_store.values.borrow().is_empty());
}

#[test]
fn previous_profile_with_another_id_is_a_mismatch() {
    let mut document = ConfigDocument::new();
    let credential_store = FakeCredentialStore::default();
    let profile = password_profile();
    let previous = password_profile();
    assert!(matches!(
        save(
            &credential_store,
            &mut document,
            SaveProfileRequest { profile, previous: Some(previous), secret: None, remember: false }
        ),
        Err(CredentialTransactionError::ProfileMismatch)
    ));
}

#[test]
fn remembering_without_a_secret_or_kept_reference_is_refused() {
    let mut document = ConfigDocument::new();
    let credential_store = FakeCredentialStore::default();
    let profile = password_profile();
    assert!(matches!(
        save(
            &credential_store,
            &mut document,
            SaveProfileRequest { profile, previous: None, secret: None, remember: true }
        ),
        Err(CredentialTransactionError::MissingSecret)
    ));
    assert!(document.config.profiles.is_empty());
}

#[test]
fn kept_reference_without_a_stored_secret_is_refused() {
    let mut document = ConfigDocument::new();
    let credential_store = FakeCredentialStore::default();
    let mut previous = password_profile();
    let reference = CredentialRef::password(previous.id);
    previous.auth = AuthConfig::Password { credential_ref: Some(reference.clone()) };
    document.config.profiles.push(previous.clone());
    let edited = previous.clone();
    assert!(matches!(
        save(
            &credential_store,
            &mut document,
            SaveProfileRequest { profile: edited, previous: Some(previous), secret: None, remember: true }
        ),
        Err(CredentialTransactionError::MissingSecret)
    ));
}

#[test]
fn kept_reference_with_a_stored_secret_is_saved_again() {
    let mut document = ConfigDocument::new();
    let credential_store = FakeCredentialStore::default();
    let mut previous = password_profile();
    let reference = CredentialRef::password(previous.id);
    previous.auth = AuthConfig::Password { credential_ref: Some(reference.clone()) };
    credential_store.put(&reference, &secret("kept")).unwrap();
    document.config.profiles.push(previous.clone());
    let mut edited = previous.clone();
    edited.name = "renamed".into();
    let outcome = save(
        &credential_store,
        &mut document,
        SaveProfileRequest { profile: edited, previous: Some(previous), secret: None, remember: true },
    )
    .unwrap();
    assert_eq!(outcome.profile.name, "renamed");
    assert_eq!(document.config.profiles.len(), 1);
    assert_eq!(document.config.profiles[0].name, "renamed");
    assert_eq!(credential_store.value(&reference).as_deref(), Some("kept"));
}

#[test]
fn failed_save_puts_back_a_replaced_secret() {
    let mut document = ConfigDocument::new();
    let credential_store = FakeCredentialStore::default();
    let mut previous = password_profile();
    let reference = CredentialRef::password(previous.id);
    previous.auth = AuthConfig::Password { credential_ref: Some(reference.clone()) };
    credential_store.put(&reference, &secret("before")).unwrap();
    document.config.profiles.push(previous.clone());
    document.corrupt = true;
    let edited = previous.clone();
    assert!(matches!(
        save(
            &credential_store,
            &mut document,
            SaveProfileRequest { profile: edited, previous: Some(previous), secret: Some(secret("after")), remember: true }
        ),
        Err(CredentialTransactionError::Storage(_))
    ));
    assert_eq!(credential_store.value(&reference).as_deref(), Some("before"));
}

#[test]
fn switching_to_a_private_key_moves_the_secret_to_the_passphrase_reference() {
    let mut document = ConfigDocument::new();
    let credential_store = FakeCredentialStore::default();
    let mut previous = password_profile();
    let password_ref = CredentialRef::password(previous.id);
    previous.auth = AuthConfig::Password { credential_ref: Some(password_ref.clone()) };
    credential_store.put(&password_ref, &secret("password")).unwrap();
    document.config.profiles.push(previous.clone());
    let mut edited = previous.clone();
    edited.auth = AuthConfig::PrivateKey { path: "/keys/id".into(), passphrase_ref: None };
    let outcome = save(
        &credential_store,
        &mut document,
        SaveProfileRequest { profile: edited, previous: Some(previous.clone()), secret: Some(secret("phrase")), remember: true },
    )
    .unwrap();
    let passphrase_ref = CredentialRef::private_key_passphrase(previous.id);
    assert!(matches!(
        &outcome.profile.auth,
        AuthConfig::PrivateKey { passphrase_ref: Some(stored), .. } if stored == &passphrase_ref
    ));
    assert_eq!(credential_store.value(&passphrase_ref).as_deref(), Some("phrase"));
    assert!(credential_store.value(&password_ref).is_none());
}

#[test]
fn deleting_a_missing_profile_restores_its_secret() {
    let mut document = ConfigDocument::new();
    let credential_store = FakeCredentialStore::default();
    let mut profile = password_profile();
    let reference = CredentialRef::password(profile.id);
    profile.auth = AuthConfig::Password { credential_ref: Some(reference.clone()) };
    credential_store.put(&reference, &secret("kept")).unwrap();
    assert!(matches!(
        delete(&credential_store, &mut document, &profile),
        Err(CredentialTransactionError::ProfileNotFound)
    ));
    assert_eq!(credential_store.value(&reference).as_deref(), Some("kept"));
}

#[test]
fn agent_profiles_delete_without_the_store() {
    let mut document = ConfigDocument::new();
    let credential_store = FakeCredentialStore::default();
    credential_store.fail_delete.set(true);
    let mut profile = password_profile();
    profile.auth = AuthConfig::Agent;
    document.config.profiles.push(profile.clone());
    delete(&credential_store, &mut document, &profile).unwrap();
    assert!(document.config.profiles.is_empty());
}
