//! Which catalog message the interface shows for each error, state and
//! setting, and small display decisions that go with them.

use vstd::prelude::*;

use crate::connection_form::FormError;
use crate::credentials::{credential_error_message, credential_error_message_id, CredentialTransactionError};
use crate::i18n::MessageId;
use crate::model::{AuthConfig, ConnectionProfile};
use crate::session::SessionError;
use crate::tabs::{DisconnectReason, TabLocalError, TabState};
use crate::theme::{theme_tokens, ResolvedTheme};

verus! {

/// The appearance the window system reports.
#[derive(Clone, Copy, Debug, PartialEq, Eq, Structural)]
pub enum WindowAppearance {
    Light,
    VibrantLight,
    Dark,
    VibrantDark,
}

/// Whether the window system is in a dark appearance.
pub fn is_dark(appearance: WindowAppearance) -> (b: bool)
    ensures
        b == (appearance == WindowAppearance::Dark || appearance == WindowAppearance::VibrantDark),
{
    match appearance {
        WindowAppearance::Dark | WindowAppearance::VibrantDark => true,
        _ => false,
    }
}

/// Whether connecting with the profile asks for a secret that is not kept:
/// password profiles do.
pub fn requires_one_time_secret(profile: &ConnectionProfile) -> (b: bool)
    ensures
        b == (profile.auth is Password),
{
    match profile.auth {
        AuthConfig::Password { .. } => true,
        _ => false,
    }
}

/// The message for a session error.
pub open spec fn session_error_message(error: SessionError) -> MessageId {
    match error {
        SessionError::InvalidProfile => MessageId::InvalidProfile,
        SessionError::ConnectTimeout => MessageId::ConnectTimeout,
        SessionError::ConnectFailed | SessionError::Disconnected => MessageId::ConnectFailed,
        SessionError::HostKeyRejected => MessageId::HostKeyRejected,
        SessionError::HostKeyChanged => MessageId::HostKeyChanged,
        SessionError::HostKeyStoreFailed => MessageId::HostKeyStoreFailed,
        SessionError::CredentialUnavailable => MessageId::CredentialUnavailable,
        SessionError::PrivateKeyUnreadable => MessageId::PrivateKeyUnreadable,
        SessionError::PrivateKeyPassphraseRequired => MessageId::CredentialRequired,
        SessionError::PrivateKeyPassphraseRejected => MessageId::PrivateKeyPassphraseRejected,
        SessionError::AgentUnavailable => MessageId::AgentUnavailable,
        SessionError::AgentEmpty => MessageId::AgentEmpty,
        SessionError::AuthenticationRejected => MessageId::AuthenticationRejected,
        SessionError::PtyRejected => MessageId::PtyRejected,
        SessionError::ShellRejected => MessageId::ShellRejected,
    }
}

/// The message for a session error.
pub fn session_error_message_id(error: SessionError) -> (m: MessageId)
    ensures
        m == session_error_message(error),
{
    match error {
        SessionError::InvalidProfile => MessageId::InvalidProfile,
        SessionError::ConnectTimeout => MessageId::ConnectTimeout,
        SessionError::ConnectFailed | SessionError::Disconnected => MessageId::ConnectFailed,
        SessionError::HostKeyRejected => MessageId::HostKeyRejected,
        SessionError::HostKeyChanged => MessageId::HostKeyChanged,
        SessionError::HostKeyStoreFailed => MessageId::HostKeyStoreFailed,
        SessionError::CredentialUnavailable => MessageId::CredentialUnavailable,
        SessionError::PrivateKeyUnreadable => MessageId::PrivateKeyUnreadable,
        SessionError::PrivateKeyPassphraseRequired => MessageId::CredentialRequired,
        SessionError::PrivateKeyPassphraseRejected => MessageId::PrivateKeyPassphraseRejected,
        SessionError::AgentUnavailable => MessageId::AgentUnavailable,
        SessionError::AgentEmpty => MessageId::AgentEmpty,
        SessionError::AuthenticationRejected => MessageId::AuthenticationRejected,
        SessionError::PtyRejected => MessageId::PtyRejected,
        SessionError::ShellRejected => MessageId::ShellRejected,
    }
}

/// The message for a failed profile save or deletion: the store's own
/// message for a credential error, a storage message for a storage error,
/// and the invalid-profile message otherwise.
pub fn transaction_error_message_id(error: &CredentialTransactionError) -> (m: MessageId)
    ensures
        match *error {
            CredentialTransactionError::Credential(e) => m == credential_error_message(e),
            CredentialTransactionError::Storage(_) => m == MessageId::StorageCorrupt,
            _ => m == MessageId::InvalidProfile,
        },
{
    match error {
        CredentialTransactionError::Credential(e) => credential_error_message_id(*e),
        CredentialTransactionError::Storage(_) => MessageId::StorageCorrupt,
        _ => MessageId::InvalidProfile,
    }
}

/// The message naming the invalid field of the form.
pub fn form_error_message_id(error: FormError) -> (m: MessageId)
    ensures
        m == match error {
            FormError::Name => MessageId::Name,
            FormError::Host => MessageId::Host,
            FormError::Username => MessageId::Username,
            FormError::Port => MessageId::Port,
            FormError::PrivateKeyPath => MessageId::PrivateKey,
        },
{
    match error {
        FormError::Name => MessageId::Name,
        FormError::Host => MessageId::Host,
        FormError::Username => MessageId::Username,
        FormError::Port => MessageId::Port,
        FormError::PrivateKeyPath => MessageId::PrivateKey,
    }
}

/// The message for a problem local to a tab.
pub fn local_error_message_id(error: TabLocalError) -> (m: MessageId)
    ensures
        m == match error {
            TabLocalError::InputQueueFull => MessageId::InputQueueFull,
            TabLocalError::InputClosed => MessageId::SessionClosed,
            TabLocalError::PasteTooLarge => MessageId::PasteTooLarge,
            TabLocalError::InvalidTerminalSize => MessageId::InvalidProfile,
        },
{
    match error {
        TabLocalError::InputQueueFull => MessageId::InputQueueFull,
        TabLocalError::InputClosed => MessageId::SessionClosed,
        TabLocalError::PasteTooLarge => MessageId::PasteTooLarge,
        TabLocalError::InvalidTerminalSize => MessageId::InvalidProfile,
    }
}

/// The status line after a key press went to the active tab (`None` when
/// no tab took it): a send that went through clears a full-queue notice, a
/// failed one shows why it failed, and otherwise the status stays.
pub fn status_after_send(status: Option<MessageId>, sent: Option<Result<(), TabLocalError>>) -> (r: Option<MessageId>)
    ensures
        r == match sent {
            Some(Ok(())) => if status == Some(MessageId::InputQueueFull) {
                None
            } else {
                status
            },
            Some(Err(error)) => Some(match error {
                TabLocalError::InputQueueFull => MessageId::InputQueueFull,
                TabLocalError::InputClosed => MessageId::SessionClosed,
                TabLocalError::PasteTooLarge => MessageId::PasteTooLarge,
                TabLocalError::InvalidTerminalSize => MessageId::InvalidProfile,
            }),
            None => status,
        },
{
    match sent {
        Some(Ok(())) => if status == Some(MessageId::InputQueueFull) {
            None
        } else {
            status
        },
        Some(Err(error)) => Some(local_error_message_id(error)),
        None => status,
    }
}

/// The message for the state of a tab.
pub fn tab_state_message_id(state: &TabState) -> (m: MessageId)
    ensures
        m == match *state {
            TabState::Connecting => MessageId::Connecting,
            TabState::AwaitingHostKey => MessageId::AwaitingHostKey,
            TabState::AwaitingSecret => MessageId::AwaitingSecret,
            TabState::Connected => MessageId::Connected,
            TabState::Disconnected { .. } => MessageId::Disconnected,
        },
{
    match state {
        TabState::Connecting => MessageId::Connecting,
        TabState::AwaitingHostKey => MessageId::AwaitingHostKey,
        TabState::AwaitingSecret => MessageId::AwaitingSecret,
        TabState::Connected => MessageId::Connected,
        TabState::Disconnected { .. } => MessageId::Disconnected,
    }
}

/// The message for why a tab was disconnected: the session error's own
/// message, or the plain disconnected message.
pub fn disconnect_reason_message_id(reason: DisconnectReason) -> (m: MessageId)
    ensures
        m == match reason {
            DisconnectReason::Session(error) => session_error_message(error),
            _ => MessageId::Disconnected,
        },
{
    match reason {
        DisconnectReason::Session(error) => session_error_message_id(error),
        DisconnectReason::Exit(_) | DisconnectReason::Closed => MessageId::Disconnected,
    }
}

/// The selection tint of the terminal renderer, as `0xRRGGBB`.
pub fn terminal_selection_color(theme: ResolvedTheme) -> (c: u32)
    ensures
        c == match theme {
            ResolvedTheme::Dark => 0x315a78u32,
            ResolvedTheme::Light => 0xb8d8f0u32,
        },
{
    match theme {
        ResolvedTheme::Dark => 0x315a78,
        ResolvedTheme::Light => 0xb8d8f0,
    }
}

/// The terminal renderer selects in the theme's own selection color.
pub proof fn law_terminal_selection_follows_theme(theme: ResolvedTheme)
    ensures
        (match theme {
            ResolvedTheme::Dark => 0x315a78u32,
            ResolvedTheme::Light => 0xb8d8f0u32,
        }) == theme_tokens(theme).selection,
{
}

} // verus!
