//! The decisions of the session view: how a connection to a profile starts
//! once its saved secret was looked up, whether an encrypted key must be
//! probed first, which session events a tab takes, and what a tab's
//! notifications do to the bell and the status line.

use vstd::prelude::*;

use crate::credentials::{CredentialError, SecretString};
use crate::i18n::MessageId;
use crate::model::{AuthConfig, ConnectionProfile, SessionId};
use crate::session::{SessionError, SessionEvent};
use crate::tabs::{TabLocalError, TabNotification};

verus! {

/// How a connection starts.
pub enum ConnectStart {
    /// Open the tab and start its session with this secret, if any.
    Start(Option<SecretString>),
    /// Open the tab and ask for the secret first.
    AwaitSecret,
    /// Open the tab without a session: the saved secret could not be read
    /// and the profile needs none typed.
    Idle,
}

/// Starts a connection to `profile` with the secret typed for this
/// connection only (`one_shot`), else the saved one (`saved`, as the
/// credential store answered). A password profile without a secret asks
/// for one; when the store could not be read, a password is asked for and
/// other profiles stay idle.
pub fn connect_start(
    profile: &ConnectionProfile,
    one_shot: Option<SecretString>,
    saved: Result<Option<SecretString>, CredentialError>,
) -> (r: ConnectStart)
    ensures
        r == match one_shot {
            Some(secret) => ConnectStart::Start(Some(secret)),
            None => match saved {
                Ok(secret) => if profile.auth is Password && secret is None {
                    ConnectStart::AwaitSecret
                } else {
                    ConnectStart::Start(secret)
                },
                Err(_) => if profile.auth is Password {
                    ConnectStart::AwaitSecret
                } else {
                    ConnectStart::Idle
                },
            },
        },
{
    let password = match profile.auth {
        AuthConfig::Password { .. } => true,
        _ => false,
    };
    match one_shot {
        Some(secret) => ConnectStart::Start(Some(secret)),
        None => match saved {
            Ok(secret) => if password && secret.is_none() {
                ConnectStart::AwaitSecret
            } else {
                ConnectStart::Start(secret)
            },
            Err(_) => if password {
                ConnectStart::AwaitSecret
            } else {
                ConnectStart::Idle
            },
        },
    }
}

/// The key file to probe before connecting: a private key whose passphrase
/// is not saved, when none was given, is probed first, so that an
/// encrypted key asks for its passphrase before any network activity.
pub fn key_to_probe(profile: &ConnectionProfile, secret_given: bool) -> (r: Option<&String>)
    ensures
        r == match profile.auth {
            AuthConfig::PrivateKey { path, passphrase_ref } => if passphrase_ref is None && !secret_given {
                Some(&path)
            } else {
                None
            },
            _ => None,
        },
{
    match &profile.auth {
        AuthConfig::PrivateKey { path, passphrase_ref } => {
            if passphrase_ref.is_none() && !secret_given {
                Some(path)
            } else {
                None
            }
        },
        _ => None,
    }
}

/// What follows a key probe.
#[derive(Clone, Copy, Debug, PartialEq, Eq, Structural)]
pub enum ProbeStep {
    /// The key is encrypted: ask for its passphrase.
    AskPassphrase,
    /// Connect without a passphrase.
    Connect,
    /// Report the error on the tab.
    Fail(SessionError),
}

/// The step after probing a key (`Ok(true)` when it is encrypted).
pub fn after_probe(probe: Result<bool, SessionError>) -> (r: ProbeStep)
    ensures
        r == match probe {
            Ok(true) => ProbeStep::AskPassphrase,
            Ok(false) => ProbeStep::Connect,
            Err(e) => ProbeStep::Fail(e),
        },
{
    match probe {
        Ok(true) => ProbeStep::AskPassphrase,
        Ok(false) => ProbeStep::Connect,
        Err(e) => ProbeStep::Fail(e),
    }
}

/// Where a session event goes.
#[derive(Clone, Copy, Debug, PartialEq, Eq, Structural)]
pub enum EventRoute {
    /// The event is from a session the tab no longer runs: drop it.
    Stale,
    /// The key needs a passphrase: ask for it instead of failing.
    AskPassphrase,
    /// The tab applies the event.
    Apply,
}

/// Routes an event of session `session_id` to a tab that runs `current`
/// (`None` when the tab is gone or runs none).
pub fn route_event(current: Option<SessionId>, session_id: SessionId, event: &SessionEvent) -> (r: EventRoute)
    ensures
        r == (if current != Some(session_id) {
            EventRoute::Stale
        } else if *event == SessionEvent::Error(SessionError::PrivateKeyPassphraseRequired) {
            EventRoute::AskPassphrase
        } else {
            EventRoute::Apply
        }),
{
    let same = match current {
        Some(id) => id.0 == session_id.0,
        None => false,
    };
    if !same {
        return EventRoute::Stale;
    }
    match event {
        SessionEvent::Error(SessionError::PrivateKeyPassphraseRequired) => EventRoute::AskPassphrase,
        _ => EventRoute::Apply,
    }
}

/// The message of a tab's local problem.
pub open spec fn local_error_message(error: TabLocalError) -> MessageId {
    match error {
        TabLocalError::InputQueueFull => MessageId::InputQueueFull,
        TabLocalError::InputClosed => MessageId::SessionClosed,
        TabLocalError::PasteTooLarge => MessageId::PasteTooLarge,
        TabLocalError::InvalidTerminalSize => MessageId::InvalidProfile,
    }
}

/// The status line after notifications: the last local problem reported,
/// or the status as it was.
pub open spec fn status_after_notes(notes: Seq<TabNotification>, status: Option<MessageId>) -> Option<MessageId>
    decreases notes.len(),
{
    if notes.len() == 0 {
        status
    } else {
        match notes.last() {
            TabNotification::LocalError(e) => Some(local_error_message(e)),
            _ => status_after_notes(notes.drop_last(), status),
        }
    }
}

/// Whether some notification asks for a repaint.
pub open spec fn any_repaint(notes: Seq<TabNotification>) -> bool {
    exists|i: int| 0 <= i < notes.len() && notes[i] is Repaint
}

/// Whether some notification rings the bell.
pub open spec fn any_bell(notes: Seq<TabNotification>) -> bool {
    exists|i: int| 0 <= i < notes.len() && notes[i] is Bell
}

/// The bell indicator and status line after a tab's notifications: a bell
/// lights the indicator, a repaint (new output seen) puts it out, and the
/// last local problem is shown.
pub fn after_notifications(bell: bool, status: Option<MessageId>, notes: &Vec<TabNotification>) -> (r: (
    bool,
    Option<MessageId>,
))
    ensures
        r.0 == (!any_repaint(notes@) && (bell || any_bell(notes@))),
        r.1 == status_after_notes(notes@, status),
{
    let mut rang = bell;
    let mut repainted = false;
    let mut shown = status;
    let mut i: usize = 0;
    while i < notes.len()
        invariant
            i <= notes@.len(),
            shown == status_after_notes(notes@.take(i as int), status),
            repainted == any_repaint(notes@.take(i as int)),
            rang == (bell || any_bell(notes@.take(i as int))),
        decreases notes.len() - i,
    {
        let ghost before = notes@.take(i as int);
        let ghost after = notes@.take(i + 1);
        proof {
            assert(after.drop_last() =~= before);
            assert(after.last() == notes@[i as int]);
            assert forall|j: int| 0 <= j < before.len() implies after[j] == before[j] by {}
        }
        match notes[i] {
            TabNotification::LocalError(error) => {
                shown = Some(match error {
                    TabLocalError::InputQueueFull => MessageId::InputQueueFull,
                    TabLocalError::InputClosed => MessageId::SessionClosed,
                    TabLocalError::PasteTooLarge => MessageId::PasteTooLarge,
                    TabLocalError::InvalidTerminalSize => MessageId::InvalidProfile,
                });
            },
            TabNotification::Bell => {
                rang = true;
                proof {
                    assert(after[i as int] is Bell);
                }
            },
            TabNotification::Repaint => {
                repainted = true;
                proof {
                    assert(after[i as int] is Repaint);
                }
            },
        }
        proof {
            if any_repaint(after) {
                let j = choose|j: int| 0 <= j < after.len() && after[j] is Repaint;
                if j < i {
                    assert(before[j] is Repaint);
                }
            }
            if any_bell(after) {
                let j = choose|j: int| 0 <= j < after.len() && after[j] is Bell;
                if j < i {
                    assert(before[j] is Bell);
                }
            }
            if any_repaint(before) {
                let j = choose|j: int| 0 <= j < before.len() && before[j] is Repaint;
                assert(after[j] is Repaint);
            }
            if any_bell(before) {
                let j = choose|j: int| 0 <= j < before.len() && before[j] is Bell;
                assert(after[j] is Bell);
            }
        }
        i = i + 1;
    }
    proof {
        assert(notes@.take(notes@.len() as int) =~= notes@);
    }
    let bell_lit = rang && !repainted;
    (bell_lit, shown)
}

} // verus!
