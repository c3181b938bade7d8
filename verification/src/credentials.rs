//! Secrets, the credential store interface, the platform store, and the
//! profile save/delete transactions that keep the credential store and the
//! configuration in step.

use vstd::prelude::*;

use keyring::v1::Error as KeyringError;

use crate::i18n::MessageId;
use crate::model::{
    passphrase_ref_text, password_ref_text, validation_outcome, AuthConfig, ConnectionProfile,
    CredentialRef, ProfileId, ProfileValidationError,
};
use crate::storage::{AppConfig, StorageError};

verus! {

/// The service name under which every secret of the application is kept.
pub const APPLICATION_IDENTIFIER: &'static str = "io.github.linko-zhao.OxideSSH";

/// A password or private-key passphrase held in memory. It has no `Debug`
/// or `Display`, so formatting can never carry it into a log.
pub struct SecretString {
    text: String,
}

impl View for SecretString {
    type V = Seq<char>;

    closed spec fn view(&self) -> Seq<char> {
        self.text@
    }
}

impl SecretString {
    pub fn new(text: String) -> (r: Self)
        ensures
            r@ == text@,
    {
        SecretString { text }
    }

    pub fn expose_secret(&self) -> (r: &str)
        ensures
            r@ == self@,
    {
        self.text.as_str()
    }
}

/// Why the credential store could not serve a request.
#[derive(Clone, Copy, Debug, PartialEq, Eq, Structural)]
pub enum CredentialError {
    Unavailable,
    AccessDenied,
    InvalidReference,
    Corrupt,
    Ambiguous,
    Unsupported,
}

/// A store of secrets addressed by credential references.
pub trait CredentialStore {
    /// The secret kept under `reference`, if any.
    fn get(&self, reference: &CredentialRef) -> Result<Option<SecretString>, CredentialError>;

    /// Keeps `secret` under `reference`, replacing what was there.
    fn put(&self, reference: &CredentialRef, secret: &SecretString) -> Result<(), CredentialError>;

    /// Removes what is kept under `reference`; removing nothing succeeds.
    fn delete(&self, reference: &CredentialRef) -> Result<(), CredentialError>;
}

/// The message shown for a credential store error.
pub open spec fn credential_error_message(error: CredentialError) -> MessageId {
    match error {
        CredentialError::Unavailable => MessageId::CredentialUnavailable,
        CredentialError::AccessDenied => MessageId::CredentialAccessDenied,
        CredentialError::InvalidReference => MessageId::CredentialInvalidReference,
        CredentialError::Corrupt => MessageId::CredentialCorrupt,
        CredentialError::Ambiguous => MessageId::CredentialAmbiguous,
        CredentialError::Unsupported => MessageId::CredentialUnsupported,
    }
}

/// The message shown for a credential store error.
pub fn credential_error_message_id(error: CredentialError) -> (r: MessageId)
    ensures
        r == credential_error_message(error),
{
    match error {
        CredentialError::Unavailable => MessageId::CredentialUnavailable,
        CredentialError::AccessDenied => MessageId::CredentialAccessDenied,
        CredentialError::InvalidReference => MessageId::CredentialInvalidReference,
        CredentialError::Corrupt => MessageId::CredentialCorrupt,
        CredentialError::Ambiguous => MessageId::CredentialAmbiguous,
        CredentialError::Unsupported => MessageId::CredentialUnsupported,
    }
}

/// The credential reference that an authentication method stores, if any.
pub open spec fn auth_reference(auth: AuthConfig) -> Option<CredentialRef> {
    match auth {
        AuthConfig::Password { credential_ref } => credential_ref,
        AuthConfig::PrivateKey { passphrase_ref, .. } => passphrase_ref,
        AuthConfig::Agent => None,
    }
}

/// The text of an optional credential reference.
pub open spec fn reference_text(reference: Option<CredentialRef>) -> Option<Seq<char>> {
    match reference {
        Some(r) => Some(r.0@),
        None => None,
    }
}

/// The text of the reference under which profile `id` keeps the secret of
/// its authentication method: none for the agent.
pub open spec fn expected_reference_text(id: ProfileId, auth: AuthConfig) -> Option<Seq<char>> {
    match auth {
        AuthConfig::Password { .. } => Some(password_ref_text(id)),
        AuthConfig::PrivateKey { .. } => Some(passphrase_ref_text(id)),
        AuthConfig::Agent => None,
    }
}

/// `auth` with its stored reference replaced by one whose text is `reference`
/// (the agent keeps none).
pub open spec fn auth_with_reference(before: AuthConfig, after: AuthConfig, reference: Option<Seq<char>>) -> bool {
    match before {
        AuthConfig::Password { .. } => after is Password && reference_text(auth_reference(after)) == reference,
        AuthConfig::PrivateKey { path, .. } => after is PrivateKey && after->path == path
            && reference_text(auth_reference(after)) == reference,
        AuthConfig::Agent => after is Agent,
    }
}

/// The credential reference stored by an authentication method.
pub fn credential_reference(auth: &AuthConfig) -> (r: Option<&CredentialRef>)
    ensures
        match r {
            Some(c) => auth_reference(*auth) == Some(*c),
            None => auth_reference(*auth) is None,
        },
{
    match auth {
        AuthConfig::Password { credential_ref } => credential_ref.as_ref(),
        AuthConfig::PrivateKey { passphrase_ref, .. } => passphrase_ref.as_ref(),
        AuthConfig::Agent => None,
    }
}

/// The reference under which profile `profile_id` keeps the secret of `auth`.
pub fn expected_reference(profile_id: ProfileId, auth: &AuthConfig) -> (r: Option<CredentialRef>)
    ensures
        reference_text(r) == expected_reference_text(profile_id, *auth),
{
    match auth {
        AuthConfig::Password { .. } => Some(CredentialRef::password(profile_id)),
        AuthConfig::PrivateKey { .. } => Some(CredentialRef::private_key_passphrase(profile_id)),
        AuthConfig::Agent => None,
    }
}

/// Replaces the reference stored by `auth`; the agent stores none.
pub fn set_credential_reference(auth: &mut AuthConfig, reference: Option<CredentialRef>)
    ensures
        match *old(auth) {
            AuthConfig::Password { .. } => *final(auth) == (AuthConfig::Password { credential_ref: reference }),
            AuthConfig::PrivateKey { path, .. } => *final(auth) == (AuthConfig::PrivateKey {
                path,
                passphrase_ref: reference,
            }),
            AuthConfig::Agent => *final(auth) == AuthConfig::Agent,
        },
{
    match auth {
        AuthConfig::Password { credential_ref } => *credential_ref = reference,
        AuthConfig::PrivateKey { passphrase_ref, .. } => *passphrase_ref = reference,
        AuthConfig::Agent => {},
    }
}


#[verifier::external_type_specification]
#[verifier::external_body]
pub struct ExKeyringEntry(keyring::v1::Entry);

#[verifier::external_type_specification]
#[verifier::external_body]
pub struct ExKeyringError(keyring::v1::Error);

/// The kind of a platform keyring failure, without the data it carried
/// (which may hold secret bytes).
#[derive(Clone, Copy, Debug, PartialEq, Eq, Structural)]
pub enum KeyringFailure {
    PlatformFailure,
    NoStorageAccess,
    NoEntry,
    BadEncoding,
    BadDataFormat,
    BadStoreFormat,
    TooLong,
    Invalid,
    Ambiguous,
    NoDefaultStore,
    NotSupportedByStore,
    /// A kind added to the keyring after this build.
    Other,
}

/// Names the variant of a `keyring::v1::Error`, one arm per variant,
/// dropping its payload; a variant unknown to this build is `Other`.
#[verifier::external_body]
fn keyring_failure(error: keyring::v1::Error) -> (r: KeyringFailure) {
    match error {
        KeyringError::PlatformFailure(_) => KeyringFailure::PlatformFailure,
        KeyringError::NoStorageAccess(_) => KeyringFailure::NoStorageAccess,
        KeyringError::NoEntry => KeyringFailure::NoEntry,
        KeyringError::BadEncoding(_) => KeyringFailure::BadEncoding,
        KeyringError::BadDataFormat(_, _) => KeyringFailure::BadDataFormat,
        KeyringError::BadStoreFormat(_) => KeyringFailure::BadStoreFormat,
        KeyringError::TooLong(_, _) => KeyringFailure::TooLong,
        KeyringError::Invalid(_, _) => KeyringFailure::Invalid,
        KeyringError::Ambiguous(_) => KeyringFailure::Ambiguous,
        KeyringError::NoDefaultStore => KeyringFailure::NoDefaultStore,
        KeyringError::NotSupportedByStore(_) => KeyringFailure::NotSupportedByStore,
        _ => KeyringFailure::Other,
    }
}

/// Opens the platform keyring entry for `user` under `service`
/// (`keyring::v1::Entry::new`). Whether it opens depends on the platform
/// store, so nothing is promised of the outcome.
#[verifier::external_body]
fn open_entry(service: &str, user: &str) -> (r: Result<keyring::v1::Entry, KeyringFailure>) {
    keyring::v1::Entry::new(service, user).map_err(keyring_failure)
}

/// Reads the password of a keyring entry (`Entry::get_password`). What
/// comes back depends on the platform store; nothing is promised of it.
#[verifier::external_body]
fn read_password(entry: &keyring::v1::Entry) -> (r: Result<String, KeyringFailure>) {
    entry.get_password().map_err(keyring_failure)
}

/// Sets the password of a keyring entry (`Entry::set_password`). Whether it
/// succeeds depends on the platform store; nothing is promised of it.
#[verifier::external_body]
fn write_password(entry: &keyring::v1::Entry, password: &str) -> (r: Result<(), KeyringFailure>) {
    entry.set_password(password).map_err(keyring_failure)
}

/// Deletes the credential of a keyring entry (`Entry::delete_credential`).
/// Whether it succeeds depends on the platform store; nothing is promised.
#[verifier::external_body]
fn erase_password(entry: &keyring::v1::Entry) -> (r: Result<(), KeyringFailure>) {
    entry.delete_credential().map_err(keyring_failure)
}

/// The credential error that a keyring failure is reported as.
pub open spec fn keyring_error_meaning(failure: KeyringFailure) -> CredentialError {
    match failure {
        KeyringFailure::NoStorageAccess => CredentialError::AccessDenied,
        KeyringFailure::TooLong | KeyringFailure::Invalid => CredentialError::InvalidReference,
        KeyringFailure::BadEncoding | KeyringFailure::BadDataFormat
        | KeyringFailure::BadStoreFormat => CredentialError::Corrupt,
        KeyringFailure::Ambiguous => CredentialError::Ambiguous,
        KeyringFailure::NotSupportedByStore => CredentialError::Unsupported,
        _ => CredentialError::Unavailable,
    }
}

/// Reports a keyring failure as a credential error, dropping its details.
pub fn map_keyring_error(failure: KeyringFailure) -> (r: CredentialError)
    ensures
        r == keyring_error_meaning(failure),
{
    match failure {
        KeyringFailure::NoStorageAccess => CredentialError::AccessDenied,
        KeyringFailure::TooLong | KeyringFailure::Invalid => CredentialError::InvalidReference,
        KeyringFailure::BadEncoding | KeyringFailure::BadDataFormat
        | KeyringFailure::BadStoreFormat => CredentialError::Corrupt,
        KeyringFailure::Ambiguous => CredentialError::Ambiguous,
        KeyringFailure::NotSupportedByStore => CredentialError::Unsupported,
        _ => CredentialError::Unavailable,
    }
}

/// The answer to a read, given what the keyring returned: a missing entry
/// is no secret, any other failure is reported.
pub fn read_outcome(result: Result<String, KeyringFailure>) -> (r: Result<Option<SecretString>, CredentialError>)
    ensures
        match result {
            Ok(text) => r is Ok && r->Ok_0 is Some && r->Ok_0->0@ == text@,
            Err(KeyringFailure::NoEntry) => r is Ok && r->Ok_0 is None,
            Err(f) => r == Err::<Option<SecretString>, CredentialError>(keyring_error_meaning(f)),
        },
{
    match result {
        Ok(text) => Ok(Some(SecretString::new(text))),
        Err(KeyringFailure::NoEntry) => Ok(None),
        Err(f) => Err(map_keyring_error(f)),
    }
}

/// The answer to a write, given what the keyring returned.
pub fn write_outcome(result: Result<(), KeyringFailure>) -> (r: Result<(), CredentialError>)
    ensures
        match result {
            Ok(()) => r is Ok,
            Err(f) => r == Err::<(), CredentialError>(keyring_error_meaning(f)),
        },
{
    match result {
        Ok(()) => Ok(()),
        Err(f) => Err(map_keyring_error(f)),
    }
}

/// The answer to a deletion, given what the keyring returned: deleting a
/// missing entry succeeds.
pub fn erase_outcome(result: Result<(), KeyringFailure>) -> (r: Result<(), CredentialError>)
    ensures
        match result {
            Ok(()) | Err(KeyringFailure::NoEntry) => r is Ok,
            Err(f) => r == Err::<(), CredentialError>(keyring_error_meaning(f)),
        },
{
    match result {
        Ok(()) | Err(KeyringFailure::NoEntry) => Ok(()),
        Err(f) => Err(map_keyring_error(f)),
    }
}

/// The credential store of the operating system (Keychain, Credential
/// Manager or Secret Service), under `APPLICATION_IDENTIFIER`.
#[derive(Default)]
pub struct SystemCredentialStore;

impl SystemCredentialStore {
    pub fn new() -> (r: Self) {
        SystemCredentialStore
    }

    /// The keyring entry of a reference; an empty reference is refused
    /// without asking the platform.
    pub fn entry(reference: &CredentialRef) -> (r: Result<keyring::v1::Entry, CredentialError>)
        ensures
            reference.0@.len() == 0 ==> r == Err::<keyring::v1::Entry, CredentialError>(
                CredentialError::InvalidReference,
            ),
    {
        if reference.as_str().unicode_len() == 0 {
            return Err(CredentialError::InvalidReference);
        }
        match open_entry(APPLICATION_IDENTIFIER, reference.as_str()) {
            Ok(entry) => Ok(entry),
            Err(f) => Err(map_keyring_error(f)),
        }
    }
}

impl CredentialStore for SystemCredentialStore {
    fn get(&self, reference: &CredentialRef) -> (r: Result<Option<SecretString>, CredentialError>)
        ensures
            reference.0@.len() == 0 ==> r == Err::<Option<SecretString>, CredentialError>(
                CredentialError::InvalidReference,
            ),
    {
        let entry = match Self::entry(reference) {
            Ok(entry) => entry,
            Err(e) => return Err(e),
        };
        read_outcome(read_password(&entry))
    }

    fn put(&self, reference: &CredentialRef, secret: &SecretString) -> (r: Result<(), CredentialError>)
        ensures
            reference.0@.len() == 0 ==> r == Err::<(), CredentialError>(CredentialError::InvalidReference),
    {
        let entry = match Self::entry(reference) {
            Ok(entry) => entry,
            Err(e) => return Err(e),
        };
        write_outcome(write_password(&entry, secret.expose_secret()))
    }

    fn delete(&self, reference: &CredentialRef) -> (r: Result<(), CredentialError>)
        ensures
            reference.0@.len() == 0 ==> r == Err::<(), CredentialError>(CredentialError::InvalidReference),
    {
        let entry = match Self::entry(reference) {
            Ok(entry) => entry,
            Err(e) => return Err(e),
        };
        erase_outcome(erase_password(&entry))
    }
}


/// A request to save a profile, with the secret typed for it, if any.
pub struct SaveProfileRequest {
    pub profile: ConnectionProfile,
    /// The profile as it was before this edit, when an existing one is edited.
    pub previous: Option<ConnectionProfile>,
    pub secret: Option<SecretString>,
    /// Whether the secret is to be kept in the credential store.
    pub remember: bool,
}

/// A saved profile, and the secret to use for the next connection when it
/// was not remembered.
pub struct SaveProfileOutcome {
    pub profile: ConnectionProfile,
    pub connect_secret: Option<SecretString>,
}

/// Why saving or deleting a profile failed.
#[derive(Debug, PartialEq, Eq)]
pub enum CredentialTransactionError {
    Credential(CredentialError),
    Storage(StorageError),
    InvalidProfile(ProfileValidationError),
    /// A secret is required before this credential can be remembered.
    MissingSecret,
    /// The previous profile does not match the edited profile.
    ProfileMismatch,
    /// The profile does not exist.
    ProfileNotFound,
    /// A change to the credential store could not be undone.
    RollbackFailed,
}

/// What a reference held in the credential store before a transaction
/// changed it.
pub struct PriorValue {
    pub reference: CredentialRef,
    pub value: Option<SecretString>,
}

/// What a save settles before the credential store is asked anything: the
/// profile to store, its reference already set, and the secret kept only
/// for the next connection.
pub struct SavePlan {
    pub profile: ConnectionProfile,
    pub connect_secret: Option<SecretString>,
}

/// A profile save in progress. Each state names the one request it waits
/// on (see `request`); `next` takes the answer. A reference the profile
/// stops using is `stale`; `written` and `deleted` remember what a changed
/// reference held, so that a failure can put it back.
pub enum SaveTransaction {
    /// Reading what `reference` holds before `secret` replaces it.
    ReadBeforeWrite { plan: SavePlan, stale: Option<CredentialRef>, reference: CredentialRef, secret: SecretString },
    /// Writing `secret` under `reference`, which held `prior`.
    Write {
        plan: SavePlan,
        stale: Option<CredentialRef>,
        reference: CredentialRef,
        secret: SecretString,
        prior: Option<SecretString>,
    },
    /// Checking that the reference kept without a new secret still holds one.
    CheckRetained { plan: SavePlan, stale: Option<CredentialRef>, reference: CredentialRef },
    /// Reading what the stale `reference` holds before deleting it.
    ReadBeforeDelete { plan: SavePlan, written: Option<PriorValue>, reference: CredentialRef },
    /// Deleting the stale `reference`, which held `prior`.
    Delete {
        plan: SavePlan,
        written: Option<PriorValue>,
        reference: CredentialRef,
        prior: Option<SecretString>,
    },
    /// Undoing the write after the deletion failed with `error`.
    UndoWriteAfterDelete { written: PriorValue, error: CredentialError },
    /// Storing the profile in the configuration.
    SaveConfig { plan: SavePlan, written: Option<PriorValue>, deleted: Option<PriorValue> },
    /// Putting back the deleted `secret` after the configuration failed.
    RestoreDeleted {
        written: Option<PriorValue>,
        reference: CredentialRef,
        secret: SecretString,
        error: StorageError,
    },
    /// Undoing the write after the configuration failed; `restored` tells
    /// whether a deleted secret was put back.
    UndoWrite { written: PriorValue, restored: bool, error: StorageError },
    Finished(Result<SaveProfileOutcome, CredentialTransactionError>),
}

/// A profile deletion in progress.
pub enum DeleteTransaction {
    /// Reading what the profile's `reference` holds before deleting it.
    ReadBeforeDelete { profile_id: ProfileId, reference: CredentialRef },
    /// Deleting `reference`, which held `prior`.
    Delete { profile_id: ProfileId, reference: CredentialRef, prior: Option<SecretString> },
    /// Removing the profile from the configuration.
    RemoveProfile { profile_id: ProfileId, deleted: Option<PriorValue> },
    /// Putting back the deleted `secret` after the configuration was not changed.
    Restore { reference: CredentialRef, secret: SecretString, failure: DeleteFailure },
    Finished(Result<(), CredentialTransactionError>),
}

/// Why the configuration was not changed by a deletion.
#[derive(Debug, PartialEq, Eq)]
pub enum DeleteFailure {
    Storage(StorageError),
    NotFound,
}

/// The request a transaction waits on.
pub enum TransactionRequest<'a> {
    /// Read what a reference holds.
    Get(&'a CredentialRef),
    /// Keep a secret under a reference.
    Put(&'a CredentialRef, &'a SecretString),
    /// Delete what a reference holds.
    Delete(&'a CredentialRef),
    /// Store the profile in the configuration, replacing the one with its id.
    SaveProfile(&'a ConnectionProfile),
    /// Remove the profile with this id from the configuration.
    RemoveProfile(ProfileId),
    /// The transaction is finished.
    Nothing,
}

/// A request, by the text of what it carries.
pub enum RequestView {
    Get(Seq<char>),
    Put(Seq<char>, Seq<char>),
    Delete(Seq<char>),
    SaveProfile(ConnectionProfile),
    RemoveProfile(ProfileId),
    Nothing,
}

impl<'a> View for TransactionRequest<'a> {
    type V = RequestView;

    open spec fn view(&self) -> RequestView {
        match *self {
            TransactionRequest::Get(r) => RequestView::Get(r.0@),
            TransactionRequest::Put(r, s) => RequestView::Put(r.0@, s@),
            TransactionRequest::Delete(r) => RequestView::Delete(r.0@),
            TransactionRequest::SaveProfile(p) => RequestView::SaveProfile(*p),
            TransactionRequest::RemoveProfile(id) => RequestView::RemoveProfile(id),
            TransactionRequest::Nothing => RequestView::Nothing,
        }
    }
}

/// The answer to a request.
pub enum TransactionReply {
    /// What a `Get` returned.
    Read(Result<Option<SecretString>, CredentialError>),
    /// What a `Put` or `Delete` returned.
    Changed(Result<(), CredentialError>),
    /// What storing the profile returned.
    Saved(Result<(), StorageError>),
    /// What removing the profile returned: whether it was there.
    Removed(Result<bool, StorageError>),
}

/// The request that undoes a change: put back the prior secret, or delete
/// what was written where there was none.
pub open spec fn undo_request(w: PriorValue) -> RequestView {
    match w.value {
        Some(s) => RequestView::Put(w.reference.0@, s@),
        None => RequestView::Delete(w.reference.0@),
    }
}

/// The request a save waits on.
pub open spec fn save_pending(t: SaveTransaction) -> RequestView {
    match t {
        SaveTransaction::ReadBeforeWrite { reference, .. } => RequestView::Get(reference.0@),
        SaveTransaction::Write { reference, secret, .. } => RequestView::Put(reference.0@, secret@),
        SaveTransaction::CheckRetained { reference, .. } => RequestView::Get(reference.0@),
        SaveTransaction::ReadBeforeDelete { reference, .. } => RequestView::Get(reference.0@),
        SaveTransaction::Delete { reference, .. } => RequestView::Delete(reference.0@),
        SaveTransaction::UndoWriteAfterDelete { written, .. } => undo_request(written),
        SaveTransaction::SaveConfig { plan, .. } => RequestView::SaveProfile(plan.profile),
        SaveTransaction::RestoreDeleted { reference, secret, .. } => RequestView::Put(reference.0@, secret@),
        SaveTransaction::UndoWrite { written, .. } => undo_request(written),
        SaveTransaction::Finished(_) => RequestView::Nothing,
    }
}

/// Once the credentials are settled: delete the stale reference, if any,
/// then store the profile.
pub open spec fn after_credentials(plan: SavePlan, stale: Option<CredentialRef>, written: Option<PriorValue>) -> SaveTransaction {
    match stale {
        Some(reference) => SaveTransaction::ReadBeforeDelete { plan, written, reference },
        None => SaveTransaction::SaveConfig { plan, written, deleted: None },
    }
}

/// Once the configuration failed with `error` and a deleted secret was put
/// back or not (`restored`): undo the write, if any, then report.
pub open spec fn undo_write(written: Option<PriorValue>, restored: bool, error: StorageError) -> SaveTransaction {
    match written {
        Some(w) => SaveTransaction::UndoWrite { written: w, restored, error },
        None => SaveTransaction::Finished(
            Err(
                if restored {
                    CredentialTransactionError::Storage(error)
                } else {
                    CredentialTransactionError::RollbackFailed
                },
            ),
        ),
    }
}

/// The save after `reply` answered its request. A reply of another kind
/// than the request leaves it unchanged.
pub open spec fn save_next(t: SaveTransaction, reply: TransactionReply) -> SaveTransaction {
    match (t, reply) {
        (SaveTransaction::ReadBeforeWrite { .. }, TransactionReply::Read(Err(e))) =>
            SaveTransaction::Finished(Err(CredentialTransactionError::Credential(e))),
        (SaveTransaction::ReadBeforeWrite { plan, stale, reference, secret }, TransactionReply::Read(Ok(prior))) =>
            SaveTransaction::Write { plan, stale, reference, secret, prior },
        (SaveTransaction::Write { .. }, TransactionReply::Changed(Err(e))) =>
            SaveTransaction::Finished(Err(CredentialTransactionError::Credential(e))),
        (SaveTransaction::Write { plan, stale, reference, prior, .. }, TransactionReply::Changed(Ok(()))) =>
            after_credentials(plan, stale, Some(PriorValue { reference, value: prior })),
        (SaveTransaction::CheckRetained { .. }, TransactionReply::Read(Err(e))) =>
            SaveTransaction::Finished(Err(CredentialTransactionError::Credential(e))),
        (SaveTransaction::CheckRetained { plan, stale, .. }, TransactionReply::Read(Ok(value))) =>
            match value {
                Some(_) => after_credentials(plan, stale, None),
                None => SaveTransaction::Finished(Err(CredentialTransactionError::MissingSecret)),
            },
        (SaveTransaction::ReadBeforeDelete { .. }, TransactionReply::Read(Err(e))) =>
            SaveTransaction::Finished(Err(CredentialTransactionError::Credential(e))),
        (SaveTransaction::ReadBeforeDelete { plan, written, reference }, TransactionReply::Read(Ok(prior))) =>
            SaveTransaction::Delete { plan, written, reference, prior },
        (SaveTransaction::Delete { written, .. }, TransactionReply::Changed(Err(e))) => match written {
            Some(w) => SaveTransaction::UndoWriteAfterDelete { written: w, error: e },
            None => SaveTransaction::Finished(Err(CredentialTransactionError::Credential(e))),
        },
        (SaveTransaction::Delete { plan, written, reference, prior }, TransactionReply::Changed(Ok(()))) =>
            SaveTransaction::SaveConfig { plan, written, deleted: Some(PriorValue { reference, value: prior }) },
        (SaveTransaction::UndoWriteAfterDelete { error, .. }, TransactionReply::Changed(result)) =>
            SaveTransaction::Finished(
                Err(
                    if result is Ok {
                        CredentialTransactionError::Credential(error)
                    } else {
                        CredentialTransactionError::RollbackFailed
                    },
                ),
            ),
        (SaveTransaction::SaveConfig { plan, .. }, TransactionReply::Saved(Ok(()))) =>
            SaveTransaction::Finished(Ok(SaveProfileOutcome { profile: plan.profile, connect_secret: plan.connect_secret })),
        (SaveTransaction::SaveConfig { written, deleted, .. }, TransactionReply::Saved(Err(error))) => match deleted {
            Some(PriorValue { reference, value: Some(secret) }) => SaveTransaction::RestoreDeleted { written, reference, secret, error },
            _ => undo_write(written, true, error),
        },
        (SaveTransaction::RestoreDeleted { written, error, .. }, TransactionReply::Changed(result)) =>
            undo_write(written, result is Ok, error),
        (SaveTransaction::UndoWrite { restored, error, .. }, TransactionReply::Changed(result)) =>
            SaveTransaction::Finished(
                Err(
                    if restored && result is Ok {
                        CredentialTransactionError::Storage(error)
                    } else {
                        CredentialTransactionError::RollbackFailed
                    },
                ),
            ),
        (t, _) => t,
    }
}


fn proceed_after_credentials(plan: SavePlan, stale: Option<CredentialRef>, written: Option<PriorValue>) -> (r: SaveTransaction)
    ensures
        r == after_credentials(plan, stale, written),
{
    match stale {
        Some(reference) => SaveTransaction::ReadBeforeDelete { plan, written, reference },
        None => SaveTransaction::SaveConfig { plan, written, deleted: None },
    }
}

fn proceed_undo_write(written: Option<PriorValue>, restored: bool, error: StorageError) -> (r: SaveTransaction)
    ensures
        r == undo_write(written, restored, error),
{
    match written {
        Some(w) => SaveTransaction::UndoWrite { written: w, restored, error },
        None => if restored {
            SaveTransaction::Finished(Err(CredentialTransactionError::Storage(error)))
        } else {
            SaveTransaction::Finished(Err(CredentialTransactionError::RollbackFailed))
        },
    }
}

/// The request that undoes a change.
fn undo_of(w: &PriorValue) -> (r: TransactionRequest<'_>)
    ensures
        r@ == undo_request(*w),
{
    match &w.value {
        Some(s) => TransactionRequest::Put(&w.reference, s),
        None => TransactionRequest::Delete(&w.reference),
    }
}

impl SaveTransaction {
    /// The request this save waits on.
    pub fn request(&self) -> (r: TransactionRequest<'_>)
        ensures
            r@ == save_pending(*self),
    {
        match self {
            SaveTransaction::ReadBeforeWrite { reference, .. } => TransactionRequest::Get(reference),
            SaveTransaction::Write { reference, secret, .. } => TransactionRequest::Put(reference, secret),
            SaveTransaction::CheckRetained { reference, .. } => TransactionRequest::Get(reference),
            SaveTransaction::ReadBeforeDelete { reference, .. } => TransactionRequest::Get(reference),
            SaveTransaction::Delete { reference, .. } => TransactionRequest::Delete(reference),
            SaveTransaction::UndoWriteAfterDelete { written, .. } => undo_of(written),
            SaveTransaction::SaveConfig { plan, .. } => TransactionRequest::SaveProfile(&plan.profile),
            SaveTransaction::RestoreDeleted { reference, secret, .. } => TransactionRequest::Put(reference, secret),
            SaveTransaction::UndoWrite { written, .. } => undo_of(written),
            SaveTransaction::Finished(_) => TransactionRequest::Nothing,
        }
    }

    /// Whether the save is over.
    pub fn is_finished(&self) -> (b: bool)
        ensures
            b == (*self is Finished),
    {
        match self {
            SaveTransaction::Finished(_) => true,
            _ => false,
        }
    }

    /// The save after `reply` answered its request.
    pub fn next(self, reply: TransactionReply) -> (r: SaveTransaction)
        ensures
            r == save_next(self, reply),
    {
        match (self, reply) {
            (SaveTransaction::ReadBeforeWrite { .. }, TransactionReply::Read(Err(e))) =>
                SaveTransaction::Finished(Err(CredentialTransactionError::Credential(e))),
            (SaveTransaction::ReadBeforeWrite { plan, stale, reference, secret }, TransactionReply::Read(Ok(prior))) =>
                SaveTransaction::Write { plan, stale, reference, secret, prior },
            (SaveTransaction::Write { .. }, TransactionReply::Changed(Err(e))) =>
                SaveTransaction::Finished(Err(CredentialTransactionError::Credential(e))),
            (SaveTransaction::Write { plan, stale, reference, prior, .. }, TransactionReply::Changed(Ok(()))) =>
                proceed_after_credentials(plan, stale, Some(PriorValue { reference, value: prior })),
            (SaveTransaction::CheckRetained { .. }, TransactionReply::Read(Err(e))) =>
                SaveTransaction::Finished(Err(CredentialTransactionError::Credential(e))),
            (SaveTransaction::CheckRetained { plan, stale, .. }, TransactionReply::Read(Ok(value))) =>
                match value {
                    Some(_) => proceed_after_credentials(plan, stale, None),
                    None => SaveTransaction::Finished(Err(CredentialTransactionError::MissingSecret)),
                },
            (SaveTransaction::ReadBeforeDelete { .. }, TransactionReply::Read(Err(e))) =>
                SaveTransaction::Finished(Err(CredentialTransactionError::Credential(e))),
            (SaveTransaction::ReadBeforeDelete { plan, written, reference }, TransactionReply::Read(Ok(prior))) =>
                SaveTransaction::Delete { plan, written, reference, prior },
            (SaveTransaction::Delete { written, .. }, TransactionReply::Changed(Err(e))) => match written {
                Some(w) => SaveTransaction::UndoWriteAfterDelete { written: w, error: e },
                None => SaveTransaction::Finished(Err(CredentialTransactionError::Credential(e))),
            },
            (SaveTransaction::Delete { plan, written, reference, prior }, TransactionReply::Changed(Ok(()))) =>
                SaveTransaction::SaveConfig { plan, written, deleted: Some(PriorValue { reference, value: prior }) },
            (SaveTransaction::UndoWriteAfterDelete { error, .. }, TransactionReply::Changed(result)) =>
                match result {
                    Ok(()) => SaveTransaction::Finished(Err(CredentialTransactionError::Credential(error))),
                    Err(_) => SaveTransaction::Finished(Err(CredentialTransactionError::RollbackFailed)),
                },
            (SaveTransaction::SaveConfig { plan, .. }, TransactionReply::Saved(Ok(()))) =>
                SaveTransaction::Finished(Ok(SaveProfileOutcome { profile: plan.profile, connect_secret: plan.connect_secret })),
            (SaveTransaction::SaveConfig { written, deleted, .. }, TransactionReply::Saved(Err(error))) => match deleted {
                Some(PriorValue { reference, value: Some(secret) }) => SaveTransaction::RestoreDeleted { written, reference, secret, error },
                _ => proceed_undo_write(written, true, error),
            },
            (SaveTransaction::RestoreDeleted { written, error, .. }, TransactionReply::Changed(result)) =>
                proceed_undo_write(written, result.is_ok(), error),
            (SaveTransaction::UndoWrite { restored, error, .. }, TransactionReply::Changed(result)) =>
                if restored && result.is_ok() {
                    SaveTransaction::Finished(Err(CredentialTransactionError::Storage(error)))
                } else {
                    SaveTransaction::Finished(Err(CredentialTransactionError::RollbackFailed))
                },
            (t, _) => t,
        }
    }
}


/// The reference the previous profile stored, if any.
pub open spec fn previous_reference(previous: Option<ConnectionProfile>) -> Option<CredentialRef> {
    match previous {
        Some(p) => auth_reference(p.auth),
        None => None,
    }
}

/// Whether the reference kept without a new secret is `desired`: the one
/// the edited profile names, or else the one the previous profile stored.
pub open spec fn retains_reference(auth: AuthConfig, old: Option<CredentialRef>, desired: Seq<char>) -> bool {
    match auth_reference(auth) {
        Some(r) => r.0@ == desired,
        None => reference_text(old) == Some(desired),
    }
}

/// Whether `plan` holds `profile` with its reference set to `desired`, and
/// `connect_secret`.
pub open spec fn plan_fits(
    plan: SavePlan,
    profile: ConnectionProfile,
    desired: Option<Seq<char>>,
    connect_secret: Option<SecretString>,
) -> bool {
    &&& plan.profile.id == profile.id
    &&& plan.profile.name == profile.name
    &&& plan.profile.endpoint == profile.endpoint
    &&& plan.profile.username == profile.username
    &&& auth_with_reference(profile.auth, plan.profile.auth, desired)
    &&& plan.connect_secret == connect_secret
}

/// The reference a save wants: the one derived from the profile's id, when
/// the secret is to be remembered.
pub open spec fn desired_reference(request: SaveProfileRequest) -> Option<Seq<char>> {
    if request.remember {
        expected_reference_text(request.profile.id, request.profile.auth)
    } else {
        None
    }
}

/// Whether the typed secret is only for the next connection: it is not
/// remembered, and the method needs one.
pub open spec fn secret_is_for_connect(request: SaveProfileRequest) -> bool {
    !request.remember && !(request.profile.auth is Agent)
}

/// The reference that a save makes stale: the previous one, unless it is
/// the one wanted.
pub open spec fn stale_reference(request: SaveProfileRequest) -> Option<CredentialRef> {
    let old = previous_reference(request.previous);
    if reference_text(old) == desired_reference(request) {
        None
    } else {
        old
    }
}

/// How a save starts: refused for an invalid profile or a previous profile
/// with another id; otherwise it reads the wanted reference before writing
/// a typed secret there, or checks that a kept reference still holds one
/// (refusing with `MissingSecret` when no reference is kept), or, with
/// nothing to remember, goes on to delete the stale reference and store
/// the profile.
pub open spec fn started_save(request: SaveProfileRequest, t: SaveTransaction) -> bool {
    let profile = request.profile;
    let desired = desired_reference(request);
    let connect_secret = if secret_is_for_connect(request) { request.secret } else { None };
    let secret = if secret_is_for_connect(request) { None } else { request.secret };
    let stale = stale_reference(request);
    if validation_outcome(profile) is Err {
        t == SaveTransaction::Finished(
            Err(CredentialTransactionError::InvalidProfile(validation_outcome(profile)->Err_0)),
        )
    } else if request.previous is Some && request.previous->0.id != profile.id {
        t == SaveTransaction::Finished(Err(CredentialTransactionError::ProfileMismatch))
    } else {
        match desired {
            Some(d) => match secret {
                Some(typed) => t matches SaveTransaction::ReadBeforeWrite { plan, stale: st, reference, secret: s }
                    && plan_fits(plan, profile, desired, connect_secret) && st == stale && reference.0@ == d
                    && s == typed,
                None => if retains_reference(profile.auth, previous_reference(request.previous), d) {
                    t matches SaveTransaction::CheckRetained { plan, stale: st, reference }
                        && plan_fits(plan, profile, desired, connect_secret) && st == stale && reference.0@ == d
                } else {
                    t == SaveTransaction::Finished(Err(CredentialTransactionError::MissingSecret))
                },
            },
            None => match stale {
                Some(o) => t matches SaveTransaction::ReadBeforeDelete { plan, written, reference }
                    && plan_fits(plan, profile, desired, connect_secret) && written is None && reference == o,
                None => t matches SaveTransaction::SaveConfig { plan, written, deleted }
                    && plan_fits(plan, profile, desired, connect_secret) && written is None && deleted is None,
            },
        }
    }
}

/// A copy of the reference an optional profile stored.
fn previous_reference_of(previous: &Option<ConnectionProfile>) -> (r: Option<CredentialRef>)
    ensures
        r == previous_reference(*previous),
{
    match previous {
        Some(p) => match credential_reference(&p.auth) {
            Some(reference) => Some(reference.clone()),
            None => None,
        },
        None => None,
    }
}

/// Whether two optional references have the same text.
fn same_reference(a: &Option<CredentialRef>, b: &Option<CredentialRef>) -> (r: bool)
    ensures
        r == (reference_text(*a) == reference_text(*b)),
{
    match (a, b) {
        (Some(x), Some(y)) => x.0 == y.0,
        (None, None) => true,
        _ => false,
    }
}

/// Starts saving a profile: settles what needs no credential store, and
/// names the first request.
pub fn begin_save(request: SaveProfileRequest) -> (t: SaveTransaction)
    ensures
        started_save(request, t),
{
    let ghost given = request;
    let SaveProfileRequest { mut profile, previous, secret, remember } = request;
    match profile.validate() {
        Err(e) => return SaveTransaction::Finished(Err(CredentialTransactionError::InvalidProfile(e))),
        Ok(()) => {},
    }
    let mismatch = match &previous {
        Some(p) => p.id.0 != profile.id.0,
        None => false,
    };
    if mismatch {
        return SaveTransaction::Finished(Err(CredentialTransactionError::ProfileMismatch));
    }
    let old = previous_reference_of(&previous);
    let desired = if remember {
        expected_reference(profile.id, &profile.auth)
    } else {
        None
    };
    let requires_secret = match &profile.auth {
        AuthConfig::Agent => false,
        _ => true,
    };
    let (connect_secret, secret) = if !remember && requires_secret {
        (secret, None)
    } else {
        (None, secret)
    };
    let retains = match &desired {
        Some(d) => match credential_reference(&profile.auth) {
            Some(existing) => existing.0 == d.0,
            None => match &old {
                Some(o) => o.0 == d.0,
                None => false,
            },
        },
        None => false,
    };
    let stale = if same_reference(&old, &desired) {
        None
    } else {
        old
    };
    assert(desired_reference(given) == reference_text(desired));
    match desired {
        Some(d) => {
            let reference = d.clone();
            set_credential_reference(&mut profile.auth, Some(d));
            let plan = SavePlan { profile, connect_secret };
            match secret {
                Some(typed) => SaveTransaction::ReadBeforeWrite { plan, stale, reference, secret: typed },
                None => if retains {
                    SaveTransaction::CheckRetained { plan, stale, reference }
                } else {
                    SaveTransaction::Finished(Err(CredentialTransactionError::MissingSecret))
                },
            }
        },
        None => {
            set_credential_reference(&mut profile.auth, None);
            let plan = SavePlan { profile, connect_secret };
            proceed_after_credentials(plan, stale, None)
        },
    }
}


/// The request a deletion waits on.
pub open spec fn delete_pending(t: DeleteTransaction) -> RequestView {
    match t {
        DeleteTransaction::ReadBeforeDelete { reference, .. } => RequestView::Get(reference.0@),
        DeleteTransaction::Delete { reference, .. } => RequestView::Delete(reference.0@),
        DeleteTransaction::RemoveProfile { profile_id, .. } => RequestView::RemoveProfile(profile_id),
        DeleteTransaction::Restore { reference, secret, .. } => RequestView::Put(reference.0@, secret@),
        DeleteTransaction::Finished(_) => RequestView::Nothing,
    }
}

/// The error a deletion reports when the configuration was not changed.
pub open spec fn failure_error(failure: DeleteFailure) -> CredentialTransactionError {
    match failure {
        DeleteFailure::Storage(e) => CredentialTransactionError::Storage(e),
        DeleteFailure::NotFound => CredentialTransactionError::ProfileNotFound,
    }
}

/// Once the configuration was not changed: put back a deleted secret, if
/// one was there, then report.
pub open spec fn restore_or_fail(deleted: Option<PriorValue>, failure: DeleteFailure) -> DeleteTransaction {
    match deleted {
        Some(PriorValue { reference, value: Some(secret) }) => DeleteTransaction::Restore { reference, secret, failure },
        _ => DeleteTransaction::Finished(Err(failure_error(failure))),
    }
}

/// The deletion after `reply` answered its request. A reply of another kind
/// than the request leaves it unchanged.
pub open spec fn delete_next(t: DeleteTransaction, reply: TransactionReply) -> DeleteTransaction {
    match (t, reply) {
        (DeleteTransaction::ReadBeforeDelete { .. }, TransactionReply::Read(Err(e))) =>
            DeleteTransaction::Finished(Err(CredentialTransactionError::Credential(e))),
        (DeleteTransaction::ReadBeforeDelete { profile_id, reference }, TransactionReply::Read(Ok(prior))) =>
            DeleteTransaction::Delete { profile_id, reference, prior },
        (DeleteTransaction::Delete { .. }, TransactionReply::Changed(Err(e))) =>
            DeleteTransaction::Finished(Err(CredentialTransactionError::Credential(e))),
        (DeleteTransaction::Delete { profile_id, reference, prior }, TransactionReply::Changed(Ok(()))) =>
            DeleteTransaction::RemoveProfile { profile_id, deleted: Some(PriorValue { reference, value: prior }) },
        (DeleteTransaction::RemoveProfile { deleted, .. }, TransactionReply::Removed(Err(e))) =>
            restore_or_fail(deleted, DeleteFailure::Storage(e)),
        (DeleteTransaction::RemoveProfile { deleted, .. }, TransactionReply::Removed(Ok(found))) =>
            if found {
                DeleteTransaction::Finished(Ok(()))
            } else {
                restore_or_fail(deleted, DeleteFailure::NotFound)
            },
        (DeleteTransaction::Restore { failure, .. }, TransactionReply::Changed(result)) =>
            DeleteTransaction::Finished(
                Err(
                    if result is Ok {
                        failure_error(failure)
                    } else {
                        CredentialTransactionError::RollbackFailed
                    },
                ),
            ),
        (t, _) => t,
    }
}

/// How a deletion starts: with the profile's stored reference, if any,
/// otherwise with the configuration.
pub open spec fn delete_start(profile: ConnectionProfile) -> DeleteTransaction {
    match auth_reference(profile.auth) {
        Some(reference) => DeleteTransaction::ReadBeforeDelete { profile_id: profile.id, reference },
        None => DeleteTransaction::RemoveProfile { profile_id: profile.id, deleted: None },
    }
}

/// Starts deleting a profile together with its stored secret.
pub fn begin_delete(profile: &ConnectionProfile) -> (t: DeleteTransaction)
    ensures
        t == delete_start(*profile),
{
    match credential_reference(&profile.auth) {
        Some(reference) => DeleteTransaction::ReadBeforeDelete { profile_id: profile.id, reference: reference.clone() },
        None => DeleteTransaction::RemoveProfile { profile_id: profile.id, deleted: None },
    }
}

fn proceed_restore_or_fail(deleted: Option<PriorValue>, failure: DeleteFailure) -> (r: DeleteTransaction)
    ensures
        r == restore_or_fail(deleted, failure),
{
    match deleted {
        Some(PriorValue { reference, value: Some(secret) }) => DeleteTransaction::Restore { reference, secret, failure },
        _ => match failure {
            DeleteFailure::Storage(e) => DeleteTransaction::Finished(Err(CredentialTransactionError::Storage(e))),
            DeleteFailure::NotFound => DeleteTransaction::Finished(Err(CredentialTransactionError::ProfileNotFound)),
        },
    }
}

impl DeleteTransaction {
    /// The request this deletion waits on.
    pub fn request(&self) -> (r: TransactionRequest<'_>)
        ensures
            r@ == delete_pending(*self),
    {
        match self {
            DeleteTransaction::ReadBeforeDelete { reference, .. } => TransactionRequest::Get(reference),
            DeleteTransaction::Delete { reference, .. } => TransactionRequest::Delete(reference),
            DeleteTransaction::RemoveProfile { profile_id, .. } => TransactionRequest::RemoveProfile(*profile_id),
            DeleteTransaction::Restore { reference, secret, .. } => TransactionRequest::Put(reference, secret),
            DeleteTransaction::Finished(_) => TransactionRequest::Nothing,
        }
    }

    /// Whether the deletion is over.
    pub fn is_finished(&self) -> (b: bool)
        ensures
            b == (*self is Finished),
    {
        match self {
            DeleteTransaction::Finished(_) => true,
            _ => false,
        }
    }

    /// The deletion after `reply` answered its request.
    pub fn next(self, reply: TransactionReply) -> (r: DeleteTransaction)
        ensures
            r == delete_next(self, reply),
    {
        match (self, reply) {
            (DeleteTransaction::ReadBeforeDelete { .. }, TransactionReply::Read(Err(e))) =>
                DeleteTransaction::Finished(Err(CredentialTransactionError::Credential(e))),
            (DeleteTransaction::ReadBeforeDelete { profile_id, reference }, TransactionReply::Read(Ok(prior))) =>
                DeleteTransaction::Delete { profile_id, reference, prior },
            (DeleteTransaction::Delete { .. }, TransactionReply::Changed(Err(e))) =>
                DeleteTransaction::Finished(Err(CredentialTransactionError::Credential(e))),
            (DeleteTransaction::Delete { profile_id, reference, prior }, TransactionReply::Changed(Ok(()))) =>
                DeleteTransaction::RemoveProfile { profile_id, deleted: Some(PriorValue { reference, value: prior }) },
            (DeleteTransaction::RemoveProfile { deleted, .. }, TransactionReply::Removed(Err(e))) =>
                proceed_restore_or_fail(deleted, DeleteFailure::Storage(e)),
            (DeleteTransaction::RemoveProfile { deleted, .. }, TransactionReply::Removed(Ok(found))) =>
                if found {
                    DeleteTransaction::Finished(Ok(()))
                } else {
                    proceed_restore_or_fail(deleted, DeleteFailure::NotFound)
                },
            (DeleteTransaction::Restore { failure, .. }, TransactionReply::Changed(result)) =>
                match result {
                    Ok(()) => match failure {
                        DeleteFailure::Storage(e) => DeleteTransaction::Finished(Err(CredentialTransactionError::Storage(e))),
                        DeleteFailure::NotFound => DeleteTransaction::Finished(Err(CredentialTransactionError::ProfileNotFound)),
                    },
                    Err(_) => DeleteTransaction::Finished(Err(CredentialTransactionError::RollbackFailed)),
                },
            (t, _) => t,
        }
    }
}

/// Whether `i` is the first profile with id `id`.
pub open spec fn is_first_with_id(profiles: Seq<ConnectionProfile>, id: ProfileId, i: int) -> bool {
    &&& 0 <= i < profiles.len()
    &&& profiles[i].id == id
    &&& forall|j: int| 0 <= j < i ==> profiles[j].id != id
}

/// Whether some profile has id `id`.
pub open spec fn has_profile(profiles: Seq<ConnectionProfile>, id: ProfileId) -> bool {
    exists|i: int| 0 <= i < profiles.len() && profiles[i].id == id
}

/// The profiles with `profile` in place of the first one with its id, or
/// appended when none has it.
pub open spec fn with_profile_stored(profiles: Seq<ConnectionProfile>, profile: ConnectionProfile) -> Seq<ConnectionProfile> {
    if has_profile(profiles, profile.id) {
        profiles.update(choose|i: int| is_first_with_id(profiles, profile.id, i), profile)
    } else {
        profiles.push(profile)
    }
}

/// The profiles other than those with id `id`, in order.
pub open spec fn without_profile(profiles: Seq<ConnectionProfile>, id: ProfileId) -> Seq<ConnectionProfile> {
    profiles.filter(|p: ConnectionProfile| p.id != id)
}

/// Stores `profile` in the configuration: it replaces the first profile
/// with its id, or is appended.
pub fn store_profile(config: &mut AppConfig, profile: ConnectionProfile)
    ensures
        final(config).profiles@ == with_profile_stored(old(config).profiles@, profile),
        final(config).settings == old(config).settings,
        final(config).schema_version == old(config).schema_version,
{
    let n = config.profiles.len();
    let mut i: usize = 0;
    while i < n
        invariant
            n == config.profiles@.len(),
            i <= n,
            forall|j: int| 0 <= j < i ==> config.profiles@[j].id != profile.id,
        ensures
            i <= n,
            forall|j: int| 0 <= j < i ==> config.profiles@[j].id != profile.id,
            i < n ==> config.profiles@[i as int].id == profile.id,
        decreases n - i,
    {
        if config.profiles[i].id.0 == profile.id.0 {
            break;
        }
        i = i + 1;
    }
    if i < n {
        proof {
            assert(is_first_with_id(config.profiles@, profile.id, i as int));
            let k = choose|k: int| is_first_with_id(config.profiles@, profile.id, k);
            assert(k == i) by {
                if k < i {
                    assert(config.profiles@[k].id != profile.id);
                }
                if k > i {
                    assert(config.profiles@[i as int].id != profile.id);
                }
            }
        }
        config.profiles.set(i, profile);
    } else {
        assert(!has_profile(config.profiles@, profile.id));
        config.profiles.push(profile);
    }
}

/// Removes every profile with id `id`; says whether one was there.
pub fn remove_profile(config: &mut AppConfig, id: ProfileId) -> (found: bool)
    ensures
        final(config).profiles@ == without_profile(old(config).profiles@, id),
        found == has_profile(old(config).profiles@, id),
        final(config).settings == old(config).settings,
        final(config).schema_version == old(config).schema_version,
{
    let ghost given = config.profiles@;
    let mut kept: Vec<ConnectionProfile> = Vec::new();
    let mut found = false;
    let n = config.profiles.len();
    let mut i: usize = 0;
    while i < n
        invariant
            n == given.len(),
            config.profiles@ == given,
            i <= n,
            kept@ == without_profile(given.take(i as int), id),
            found == has_profile(given.take(i as int), id),
        decreases n - i,
    {
        let matches_id = config.profiles[i].id.0 == id.0;
        proof {
            let before = given.take(i as int);
            let after = given.take(i + 1);
            reveal_with_fuel(Seq::<_>::filter, 1);
            assert(after.drop_last() =~= before);
            assert(after.last() == given[i as int]);
            if has_profile(after, id) {
                let k = choose|k: int| 0 <= k < after.len() && after[k].id == id;
                if k < i {
                    assert(before[k].id == id);
                }
            }
            if has_profile(before, id) {
                let k = choose|k: int| 0 <= k < before.len() && before[k].id == id;
                assert(after[k].id == id);
            }
            if matches_id {
                assert(after[i as int].id == id);
            }
        }
        if matches_id {
            found = true;
        } else {
            kept.push(config.profiles[i].clone());
        }
        i = i + 1;
    }
    proof {
        assert(given.take(n as int) =~= given);
    }
    config.profiles = kept;
    found
}


/// What a credential store holds under a reference, by text.
pub open spec fn lookup(store: Map<Seq<char>, Seq<char>>, reference: Seq<char>) -> Option<Seq<char>> {
    if store.contains_key(reference) {
        Some(store[reference])
    } else {
        None
    }
}

/// The text of an optional secret.
pub open spec fn secret_text(secret: Option<SecretString>) -> Option<Seq<char>> {
    match secret {
        Some(s) => Some(s@),
        None => None,
    }
}

/// Whether `reply` is an answer that a credential store holding `store`
/// can give to `request`: a read gives back what is held, or fails; a
/// change and a configuration request get an answer of their own kind.
pub open spec fn answers(store: Map<Seq<char>, Seq<char>>, request: RequestView, reply: TransactionReply) -> bool {
    match request {
        RequestView::Get(r) => match reply {
            TransactionReply::Read(Ok(value)) => secret_text(value) == lookup(store, r),
            TransactionReply::Read(Err(_)) => true,
            _ => false,
        },
        RequestView::Put(_, _) => reply is Changed,
        RequestView::Delete(_) => reply is Changed,
        RequestView::SaveProfile(_) => reply is Saved,
        RequestView::RemoveProfile(_) => reply is Removed,
        RequestView::Nothing => false,
    }
}

/// The credential store after `reply` answered `request`: a change that
/// succeeded took effect; a failed one and every other request leave it.
pub open spec fn store_after(
    store: Map<Seq<char>, Seq<char>>,
    request: RequestView,
    reply: TransactionReply,
) -> Map<Seq<char>, Seq<char>> {
    match (request, reply) {
        (RequestView::Put(r, s), TransactionReply::Changed(Ok(()))) => store.insert(r, s),
        (RequestView::Delete(r), TransactionReply::Changed(Ok(()))) => store.remove(r),
        _ => store,
    }
}

/// Whether `store` holds what `store0` held under every reference but `a`
/// and `b`.
pub open spec fn agrees_except(
    store: Map<Seq<char>, Seq<char>>,
    store0: Map<Seq<char>, Seq<char>>,
    a: Option<Seq<char>>,
    b: Option<Seq<char>>,
) -> bool {
    forall|k: Seq<char>| Some(k) != a && Some(k) != b ==> #[trigger] lookup(store, k) == lookup(store0, k)
}

/// The text of the reference a profile stores.
pub open spec fn profile_reference(p: ConnectionProfile) -> Option<Seq<char>> {
    reference_text(auth_reference(p.auth))
}

/// Whether the reference a profile stores, if any, holds a secret.
pub open spec fn reference_kept(store: Map<Seq<char>, Seq<char>>, p: ConnectionProfile) -> bool {
    match profile_reference(p) {
        Some(r) => store.contains_key(r),
        None => true,
    }
}

/// Whether `w` remembers what `store0` held under its reference.
pub open spec fn prior_kept(store0: Map<Seq<char>, Seq<char>>, w: Option<PriorValue>) -> bool {
    match w {
        Some(x) => lookup(store0, x.reference.0@) == secret_text(x.value),
        None => true,
    }
}

/// The text of the reference an optional change touched.
pub open spec fn changed_reference(w: Option<PriorValue>) -> Option<Seq<char>> {
    match w {
        Some(x) => Some(x.reference.0@),
        None => None,
    }
}

/// What a save in progress owes the credential store, which held `store0`
/// when it began and holds `store` now: the store differs from `store0`
/// only under references the save wrote or deleted, and the save remembers
/// what each held; once the credentials are settled, the reference the
/// profile stores holds a secret; a save that failed, unless an undo
/// failed, left the store as it found it.
pub open spec fn save_accounted(
    t: SaveTransaction,
    store0: Map<Seq<char>, Seq<char>>,
    store: Map<Seq<char>, Seq<char>>,
) -> bool {
    match t {
        SaveTransaction::ReadBeforeWrite { plan, stale, reference, .. } => store == store0
            && reference_text(stale) != Some(reference.0@)
            && profile_reference(plan.profile) == Some(reference.0@),
        SaveTransaction::Write { plan, stale, reference, prior, .. } => store == store0
            && reference_text(stale) != Some(reference.0@)
            && profile_reference(plan.profile) == Some(reference.0@)
            && lookup(store0, reference.0@) == secret_text(prior),
        SaveTransaction::CheckRetained { plan, stale, reference } => store == store0
            && reference_text(stale) != Some(reference.0@)
            && profile_reference(plan.profile) == Some(reference.0@),
        SaveTransaction::ReadBeforeDelete { plan, written, reference } =>
            agrees_except(store, store0, changed_reference(written), None)
            && prior_kept(store0, written)
            && changed_reference(written) != Some(reference.0@)
            && profile_reference(plan.profile) != Some(reference.0@)
            && reference_kept(store, plan.profile),
        SaveTransaction::Delete { plan, written, reference, prior } =>
            agrees_except(store, store0, changed_reference(written), None)
            && prior_kept(store0, written)
            && changed_reference(written) != Some(reference.0@)
            && profile_reference(plan.profile) != Some(reference.0@)
            && reference_kept(store, plan.profile)
            && lookup(store0, reference.0@) == secret_text(prior),
        SaveTransaction::UndoWriteAfterDelete { written, .. } =>
            agrees_except(store, store0, Some(written.reference.0@), None)
            && prior_kept(store0, Some(written)),
        SaveTransaction::SaveConfig { plan, written, deleted } =>
            agrees_except(store, store0, changed_reference(written), changed_reference(deleted))
            && prior_kept(store0, written)
            && prior_kept(store0, deleted)
            && (deleted is Some ==> !store.contains_key(deleted->0.reference.0@)
                && changed_reference(written) != changed_reference(deleted))
            && reference_kept(store, plan.profile),
        SaveTransaction::RestoreDeleted { written, reference, secret, .. } =>
            agrees_except(store, store0, changed_reference(written), Some(reference.0@))
            && prior_kept(store0, written)
            && lookup(store0, reference.0@) == Some(secret@)
            && changed_reference(written) != Some(reference.0@),
        SaveTransaction::UndoWrite { written, restored, .. } => prior_kept(store0, Some(written))
            && (restored ==> agrees_except(store, store0, Some(written.reference.0@), None)),
        SaveTransaction::Finished(Ok(outcome)) => reference_kept(store, outcome.profile),
        SaveTransaction::Finished(Err(e)) => !(e is RollbackFailed) ==> store == store0,
    }
}

/// Whether a reply is the one failure a save does not undo: reading the
/// stale reference failed after a new secret was written.
pub open spec fn unread_stale_after_write(t: SaveTransaction, reply: TransactionReply) -> bool {
    &&& t matches SaveTransaction::ReadBeforeDelete { written: Some(_), .. }
    &&& reply matches TransactionReply::Read(Err(_))
}

/// Stores that agree under every reference are equal.
pub proof fn lemma_agreeing_stores_are_equal(store: Map<Seq<char>, Seq<char>>, store0: Map<Seq<char>, Seq<char>>)
    requires
        agrees_except(store, store0, None, None),
    ensures
        store == store0,
{
    assert forall|k: Seq<char>| store.contains_key(k) == store0.contains_key(k) by {
        assert(lookup(store, k) == lookup(store0, k));
    }
    assert forall|k: Seq<char>| store.contains_key(k) implies store[k] == store0[k] by {
        assert(lookup(store, k) == lookup(store0, k));
    }
    assert(store =~= store0);
}

/// Every save starts with the credential store accounted for.
pub proof fn law_save_starts_accounted(request: SaveProfileRequest, t: SaveTransaction, store: Map<Seq<char>, Seq<char>>)
    requires
        started_save(request, t),
    ensures
        save_accounted(t, store, store),
{
}

/// Every answer the store can give keeps a save accounted for, except a
/// failed read of the stale reference after a new secret was written: the
/// save then ends with that error and the written secret stays.
pub proof fn law_save_step_keeps_store_accounted(
    t: SaveTransaction,
    reply: TransactionReply,
    store0: Map<Seq<char>, Seq<char>>,
    store: Map<Seq<char>, Seq<char>>,
)
    requires
        save_accounted(t, store0, store),
        answers(store, save_pending(t), reply),
        !unread_stale_after_write(t, reply),
    ensures
        save_accounted(save_next(t, reply), store0, store_after(store, save_pending(t), reply)),
{
    let after = store_after(store, save_pending(t), reply);
    match (t, reply) {
        (SaveTransaction::ReadBeforeWrite { .. }, TransactionReply::Read(Ok(prior))) => {
            assert(after == store);
        },
        (SaveTransaction::Write { reference, secret, .. }, TransactionReply::Changed(Ok(()))) => {
            assert(after == store.insert(reference.0@, secret@));
            assert(lookup(after, reference.0@) == Some(secret@));
        },
        (SaveTransaction::CheckRetained { .. }, TransactionReply::Read(Ok(Some(_)))) => {
            assert(after == store);
        },
        (SaveTransaction::ReadBeforeDelete { written, reference, .. }, TransactionReply::Read(Ok(prior))) => {
            assert(after == store);
            assert(lookup(store, reference.0@) == lookup(store0, reference.0@));
        },
        (SaveTransaction::ReadBeforeDelete { .. }, TransactionReply::Read(Err(_))) => {
            lemma_agreeing_stores_are_equal(store, store0);
        },
        (SaveTransaction::Delete { written, reference, .. }, TransactionReply::Changed(Ok(()))) => {
            assert(after == store.remove(reference.0@));
            assert forall|k: Seq<char>|
                Some(k) != changed_reference(written) && Some(k) != Some(reference.0@)
                implies #[trigger] lookup(after, k) == lookup(store0, k) by {
                assert(lookup(store, k) == lookup(store0, k));
            }
        },
        (SaveTransaction::Delete { written, .. }, TransactionReply::Changed(Err(_))) => {
            if written is None {
                lemma_agreeing_stores_are_equal(store, store0);
            }
        },
        (SaveTransaction::UndoWriteAfterDelete { written, .. }, TransactionReply::Changed(Ok(()))) => {
            assert forall|k: Seq<char>| Some(k) != None::<Seq<char>> && Some(k) != None::<Seq<char>>
                implies #[trigger] lookup(after, k) == lookup(store0, k) by {
                if k != written.reference.0@ {
                    assert(lookup(store, k) == lookup(store0, k));
                }
            }
            lemma_agreeing_stores_are_equal(after, store0);
        },
        (SaveTransaction::SaveConfig { written, deleted, .. }, TransactionReply::Saved(Err(_))) => {
            assert(after == store);
            match deleted {
                Some(PriorValue { reference, value: Some(_) }) => {},
                _ => {
                    assert forall|k: Seq<char>| Some(k) != changed_reference(written) && Some(k) != None::<Seq<char>>
                        implies #[trigger] lookup(store, k) == lookup(store0, k) by {
                        if Some(k) != changed_reference(deleted) {
                            assert(lookup(store, k) == lookup(store0, k));
                        }
                    }
                    if written is None {
                        lemma_agreeing_stores_are_equal(store, store0);
                    }
                },
            }
        },
        (SaveTransaction::RestoreDeleted { written, reference, secret, .. }, TransactionReply::Changed(Ok(()))) => {
            assert(after == store.insert(reference.0@, secret@));
            assert forall|k: Seq<char>| Some(k) != changed_reference(written) && Some(k) != None::<Seq<char>>
                implies #[trigger] lookup(after, k) == lookup(store0, k) by {
                if k != reference.0@ {
                    assert(lookup(store, k) == lookup(store0, k));
                }
            }
            if written is None {
                lemma_agreeing_stores_are_equal(after, store0);
            }
        },
        (SaveTransaction::UndoWrite { written, restored, .. }, TransactionReply::Changed(Ok(()))) => {
            if restored {
                assert forall|k: Seq<char>| Some(k) != None::<Seq<char>> && Some(k) != None::<Seq<char>>
                    implies #[trigger] lookup(after, k) == lookup(store0, k) by {
                    if k != written.reference.0@ {
                        assert(lookup(store, k) == lookup(store0, k));
                    }
                }
                lemma_agreeing_stores_are_equal(after, store0);
            }
        },
        _ => {},
    }
}


/// A finished save settles the credential store: one that failed, unless an
/// undo failed, left it as it found it; one that succeeded left the
/// reference its profile stores holding a secret.
pub proof fn law_finished_save_settles_store(
    t: SaveTransaction,
    store0: Map<Seq<char>, Seq<char>>,
    store: Map<Seq<char>, Seq<char>>,
)
    requires
        save_accounted(t, store0, store),
        t is Finished,
    ensures
        t matches SaveTransaction::Finished(Err(e)) ==> (!(e is RollbackFailed) ==> store == store0),
        t matches SaveTransaction::Finished(Ok(outcome)) ==> reference_kept(store, outcome.profile),
{
}

/// How many requests a save has left at most.
pub open spec fn save_rank(t: SaveTransaction) -> nat {
    match t {
        SaveTransaction::ReadBeforeWrite { .. } => 8,
        SaveTransaction::Write { .. } => 7,
        SaveTransaction::CheckRetained { .. } => 7,
        SaveTransaction::ReadBeforeDelete { .. } => 6,
        SaveTransaction::Delete { .. } => 5,
        SaveTransaction::UndoWriteAfterDelete { .. } => 4,
        SaveTransaction::SaveConfig { .. } => 4,
        SaveTransaction::RestoreDeleted { .. } => 3,
        SaveTransaction::UndoWrite { .. } => 2,
        SaveTransaction::Finished(_) => 0,
    }
}

/// Every answer of the kind asked for moves a save forward, so it finishes
/// after at most eight answers.
pub proof fn law_save_makes_progress(t: SaveTransaction, reply: TransactionReply, store: Map<Seq<char>, Seq<char>>)
    requires
        answers(store, save_pending(t), reply),
    ensures
        save_rank(save_next(t, reply)) < save_rank(t),
{
}

/// What a deletion in progress owes the credential store, which held
/// `store0` when it began and holds `store` now: the store differs only
/// under the deleted reference, whose prior secret is remembered; a
/// deletion that failed, unless an undo failed, left the store as it
/// found it.
pub open spec fn delete_accounted(
    t: DeleteTransaction,
    store0: Map<Seq<char>, Seq<char>>,
    store: Map<Seq<char>, Seq<char>>,
) -> bool {
    match t {
        DeleteTransaction::ReadBeforeDelete { .. } => store == store0,
        DeleteTransaction::Delete { reference, prior, .. } => store == store0
            && lookup(store0, reference.0@) == secret_text(prior),
        DeleteTransaction::RemoveProfile { deleted, .. } =>
            agrees_except(store, store0, changed_reference(deleted), None)
            && prior_kept(store0, deleted)
            && (deleted is Some ==> !store.contains_key(deleted->0.reference.0@)),
        DeleteTransaction::Restore { reference, secret, .. } =>
            agrees_except(store, store0, Some(reference.0@), None)
            && lookup(store0, reference.0@) == Some(secret@),
        DeleteTransaction::Finished(Ok(())) => true,
        DeleteTransaction::Finished(Err(e)) => !(e is RollbackFailed) ==> store == store0,
    }
}

/// Every deletion starts with the credential store accounted for, and the
/// reference it deletes is the one the profile stores.
pub proof fn law_delete_starts_accounted(profile: ConnectionProfile, store: Map<Seq<char>, Seq<char>>)
    ensures
        delete_accounted(delete_start(profile), store, store),
        delete_start(profile) matches DeleteTransaction::ReadBeforeDelete { reference, .. }
            ==> profile_reference(profile) == Some(reference.0@),
        delete_start(profile) is RemoveProfile ==> profile_reference(profile) is None,
{
}

/// Every answer the store can give keeps a deletion accounted for.
pub proof fn law_delete_step_keeps_store_accounted(
    t: DeleteTransaction,
    reply: TransactionReply,
    store0: Map<Seq<char>, Seq<char>>,
    store: Map<Seq<char>, Seq<char>>,
)
    requires
        delete_accounted(t, store0, store),
        answers(store, delete_pending(t), reply),
    ensures
        delete_accounted(delete_next(t, reply), store0, store_after(store, delete_pending(t), reply)),
{
    let after = store_after(store, delete_pending(t), reply);
    match (t, reply) {
        (DeleteTransaction::Delete { reference, .. }, TransactionReply::Changed(Ok(()))) => {
            assert(after == store.remove(reference.0@));
        },
        (DeleteTransaction::RemoveProfile { deleted, .. }, TransactionReply::Removed(_)) => {
            assert(after == store);
            if !(deleted matches Some(PriorValue { value: Some(_), .. })) {
                assert forall|k: Seq<char>| Some(k) != None::<Seq<char>> && Some(k) != None::<Seq<char>>
                    implies #[trigger] lookup(store, k) == lookup(store0, k) by {
                    if Some(k) != changed_reference(deleted) {
                        assert(lookup(store, k) == lookup(store0, k));
                    }
                }
                lemma_agreeing_stores_are_equal(store, store0);
            }
        },
        (DeleteTransaction::Restore { reference, secret, .. }, TransactionReply::Changed(Ok(()))) => {
            assert(after == store.insert(reference.0@, secret@));
            assert forall|k: Seq<char>| Some(k) != None::<Seq<char>> && Some(k) != None::<Seq<char>>
                implies #[trigger] lookup(after, k) == lookup(store0, k) by {
                if k != reference.0@ {
                    assert(lookup(store, k) == lookup(store0, k));
                }
            }
            lemma_agreeing_stores_are_equal(after, store0);
        },
        _ => {},
    }
}

/// A profile leaves the configuration only once its secret has left the
/// credential store, and a deletion that failed, unless an undo failed,
/// left the store as it found it.
pub proof fn law_delete_settles_store(
    t: DeleteTransaction,
    store0: Map<Seq<char>, Seq<char>>,
    store: Map<Seq<char>, Seq<char>>,
)
    requires
        delete_accounted(t, store0, store),
    ensures
        t matches DeleteTransaction::RemoveProfile { deleted: Some(d), .. } ==> !store.contains_key(d.reference.0@),
        t matches DeleteTransaction::Finished(Err(e)) ==> (!(e is RollbackFailed) ==> store == store0),
{
}

/// How many requests a deletion has left at most.
pub open spec fn delete_rank(t: DeleteTransaction) -> nat {
    match t {
        DeleteTransaction::ReadBeforeDelete { .. } => 4,
        DeleteTransaction::Delete { .. } => 3,
        DeleteTransaction::RemoveProfile { .. } => 2,
        DeleteTransaction::Restore { .. } => 1,
        DeleteTransaction::Finished(_) => 0,
    }
}

/// Every answer of the kind asked for moves a deletion forward, so it
/// finishes after at most four answers.
pub proof fn law_delete_makes_progress(t: DeleteTransaction, reply: TransactionReply, store: Map<Seq<char>, Seq<char>>)
    requires
        answers(store, delete_pending(t), reply),
    ensures
        delete_rank(delete_next(t, reply)) < delete_rank(t),
{
}


/// Asks `store` what a credential request asks. A configuration request,
/// or none, is not the store's to answer.
pub fn ask_store<C: CredentialStore>(store: &C, request: TransactionRequest<'_>) -> (r: Option<TransactionReply>)
    ensures
        match request@ {
            RequestView::Get(_) => r matches Some(TransactionReply::Read(_)),
            RequestView::Put(_, _) => r matches Some(TransactionReply::Changed(_)),
            RequestView::Delete(_) => r matches Some(TransactionReply::Changed(_)),
            _ => r is None,
        },
{
    match request {
        TransactionRequest::Get(reference) => Some(TransactionReply::Read(store.get(reference))),
        TransactionRequest::Put(reference, secret) => Some(TransactionReply::Changed(store.put(reference, secret))),
        TransactionRequest::Delete(reference) => Some(TransactionReply::Changed(store.delete(reference))),
        _ => None,
    }
}

} // verus!
