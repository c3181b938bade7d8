//! Which editor may save, and the identity under which a dialog keeps its
//! keyboard focus while its contents change.

use vstd::prelude::*;

use crate::connection_form::AuthMethod;
use crate::i18n::MessageId;
use crate::model::{Endpoint, ProfileId};
use crate::session::HostKeyDecision;
use crate::tabs::TabId;

verus! {

/// Identifies one opened connection editor.
#[derive(Clone, Copy, Debug, PartialEq, Eq, Hash, Structural)]
pub struct EditorId(pub u128);

/// Whether an editor may save now.
#[derive(Clone, Copy, Debug, PartialEq, Eq, Structural)]
pub enum EditorSaveState {
    /// No save is running.
    Idle,
    /// This editor's save is running.
    SavingThis,
    /// Another editor's save is running.
    BlockedByOther,
}

/// The save state of editor `editor_id` while `saving` is saving, if any.
pub open spec fn save_state_of(saving: Option<EditorId>, editor_id: EditorId) -> EditorSaveState {
    match saving {
        None => EditorSaveState::Idle,
        Some(id) => if id == editor_id {
            EditorSaveState::SavingThis
        } else {
            EditorSaveState::BlockedByOther
        },
    }
}

/// The save state of editor `editor_id` while `saving` is saving, if any.
pub fn editor_save_state(saving: Option<EditorId>, editor_id: EditorId) -> (r: EditorSaveState)
    ensures
        r == save_state_of(saving, editor_id),
{
    match saving {
        None => EditorSaveState::Idle,
        Some(id) => if id.0 == editor_id.0 {
            EditorSaveState::SavingThis
        } else {
            EditorSaveState::BlockedByOther
        },
    }
}

/// An action the user is asked to confirm.
#[derive(Debug, PartialEq, Eq)]
pub enum ConfirmAction {
    DeleteProfile(ProfileId),
    DeleteHost(Endpoint),
    Quit,
}

impl Clone for ConfirmAction {
    fn clone(&self) -> (r: Self)
        ensures
            r == *self,
    {
        match self {
            ConfirmAction::DeleteProfile(id) => ConfirmAction::DeleteProfile(*id),
            ConfirmAction::DeleteHost(endpoint) => ConfirmAction::DeleteHost(endpoint.clone()),
            ConfirmAction::Quit => ConfirmAction::Quit,
        }
    }
}

/// What a dialog shows, as far as deciding whether it is still the same
/// dialog.
#[derive(Debug, PartialEq, Eq)]
pub enum DialogIdentityKind {
    Editor {
        editor_id: EditorId,
        auth_method: AuthMethod,
        remember: bool,
        save_state: EditorSaveState,
        is_editing: bool,
    },
    Confirm(ConfirmAction),
    Secret(TabId),
    HostKey { tab_id: TabId, prompt_id: u128 },
    ChangedHostKey { tab_id: TabId, request_id: u128 },
    ConfirmClose(TabId),
}

/// The logical identity of a dialog: it leaves out the editor's changing
/// view state, so focus survives edits, and keeps every request id, so a
/// new request is a new dialog.
#[derive(Debug, PartialEq, Eq)]
pub enum DialogFocusIdentity {
    Editor(EditorId),
    Confirm(ConfirmAction),
    Secret(TabId),
    HostKey { tab_id: TabId, prompt_id: u128 },
    ChangedHostKey { tab_id: TabId, request_id: u128 },
    ConfirmClose(TabId),
}

/// The focus identity of a dialog.
pub open spec fn focus_identity_of(kind: DialogIdentityKind) -> DialogFocusIdentity {
    match kind {
        DialogIdentityKind::Editor { editor_id, .. } => DialogFocusIdentity::Editor(editor_id),
        DialogIdentityKind::Confirm(action) => DialogFocusIdentity::Confirm(action),
        DialogIdentityKind::Secret(tab_id) => DialogFocusIdentity::Secret(tab_id),
        DialogIdentityKind::HostKey { tab_id, prompt_id } => DialogFocusIdentity::HostKey { tab_id, prompt_id },
        DialogIdentityKind::ChangedHostKey { tab_id, request_id } => DialogFocusIdentity::ChangedHostKey {
            tab_id,
            request_id,
        },
        DialogIdentityKind::ConfirmClose(tab_id) => DialogFocusIdentity::ConfirmClose(tab_id),
    }
}

impl DialogIdentityKind {
    /// The logical identity under which the dialog keeps its focus.
    pub fn focus_identity(&self) -> (r: DialogFocusIdentity)
        ensures
            r == focus_identity_of(*self),
    {
        match self {
            DialogIdentityKind::Editor { editor_id, .. } => DialogFocusIdentity::Editor(*editor_id),
            DialogIdentityKind::Confirm(action) => DialogFocusIdentity::Confirm(action.clone()),
            DialogIdentityKind::Secret(tab_id) => DialogFocusIdentity::Secret(*tab_id),
            DialogIdentityKind::HostKey { tab_id, prompt_id } => DialogFocusIdentity::HostKey {
                tab_id: *tab_id,
                prompt_id: *prompt_id,
            },
            DialogIdentityKind::ChangedHostKey { tab_id, request_id } => DialogFocusIdentity::ChangedHostKey {
                tab_id: *tab_id,
                request_id: *request_id,
            },
            DialogIdentityKind::ConfirmClose(tab_id) => DialogFocusIdentity::ConfirmClose(*tab_id),
        }
    }
}

/// Focus survives changes to an editor's contents: two editor dialogs have
/// the same focus identity exactly when they are the same editor.
pub proof fn law_editor_focus_follows_the_editor(a: DialogIdentityKind, b: DialogIdentityKind)
    requires
        a is Editor,
        b is Editor,
    ensures
        (focus_identity_of(a) == focus_identity_of(b)) == (a->editor_id == b->editor_id),
{
}

/// Every request dialog has its own focus identity: equal identities mean
/// the same request of the same tab.
pub proof fn law_request_focus_needs_the_same_request(a: DialogIdentityKind, b: DialogIdentityKind)
    requires
        !(a is Editor),
        focus_identity_of(a) == focus_identity_of(b),
    ensures
        a == b,
{
}

/// A save blocks every editor but the saving one.
pub proof fn law_only_the_saving_editor_saves(saving: EditorId, a: EditorId, b: EditorId)
    requires
        save_state_of(Some(saving), a) == EditorSaveState::SavingThis,
        save_state_of(Some(saving), b) == EditorSaveState::SavingThis,
    ensures
        a == b,
{
}

/// What answering a dialog does.
#[derive(Clone, Copy, Debug, PartialEq, Eq, Structural)]
pub enum DialogResponse {
    SaveEditor,
    CancelEditor,
    PerformConfirm,
    CancelConfirm,
    SubmitSecret(TabId),
    CancelSecret(TabId),
    DecideHostKey { tab_id: TabId, prompt_id: u128, decision: HostKeyDecision },
    OpenTrustedHosts { tab_id: TabId, request_id: u128 },
    CloseChangedHostKey { tab_id: TabId, request_id: u128 },
    ConfirmTabClose(TabId),
    CancelTabClose(TabId),
}

/// What submitting (`accept`) or dismissing a dialog does. An unknown host
/// key is stored on submit and rejected on dismissal; a changed one opens
/// the trusted hosts or closes the notice; an editor does nothing while a
/// save is running.
pub open spec fn response_of(kind: DialogIdentityKind, accept: bool) -> Option<DialogResponse> {
    match kind {
        DialogIdentityKind::Editor { save_state, .. } => if save_state != EditorSaveState::Idle {
            None
        } else if accept {
            Some(DialogResponse::SaveEditor)
        } else {
            Some(DialogResponse::CancelEditor)
        },
        DialogIdentityKind::Confirm(_) => Some(
            if accept {
                DialogResponse::PerformConfirm
            } else {
                DialogResponse::CancelConfirm
            },
        ),
        DialogIdentityKind::Secret(tab_id) => Some(
            if accept {
                DialogResponse::SubmitSecret(tab_id)
            } else {
                DialogResponse::CancelSecret(tab_id)
            },
        ),
        DialogIdentityKind::HostKey { tab_id, prompt_id } => Some(
            DialogResponse::DecideHostKey {
                tab_id,
                prompt_id,
                decision: if accept {
                    HostKeyDecision::AcceptAndStore
                } else {
                    HostKeyDecision::Reject
                },
            },
        ),
        DialogIdentityKind::ChangedHostKey { tab_id, request_id } => Some(
            if accept {
                DialogResponse::OpenTrustedHosts { tab_id, request_id }
            } else {
                DialogResponse::CloseChangedHostKey { tab_id, request_id }
            },
        ),
        DialogIdentityKind::ConfirmClose(tab_id) => Some(
            if accept {
                DialogResponse::ConfirmTabClose(tab_id)
            } else {
                DialogResponse::CancelTabClose(tab_id)
            },
        ),
    }
}

impl DialogIdentityKind {
    /// What submitting (`accept`) or dismissing the dialog does.
    pub fn response(&self, accept: bool) -> (r: Option<DialogResponse>)
        ensures
            r == response_of(*self, accept),
    {
        match self {
            DialogIdentityKind::Editor { save_state, .. } => match save_state {
                EditorSaveState::Idle => if accept {
                    Some(DialogResponse::SaveEditor)
                } else {
                    Some(DialogResponse::CancelEditor)
                },
                _ => None,
            },
            DialogIdentityKind::Confirm(_) => Some(
                if accept {
                    DialogResponse::PerformConfirm
                } else {
                    DialogResponse::CancelConfirm
                },
            ),
            DialogIdentityKind::Secret(tab_id) => Some(
                if accept {
                    DialogResponse::SubmitSecret(*tab_id)
                } else {
                    DialogResponse::CancelSecret(*tab_id)
                },
            ),
            DialogIdentityKind::HostKey { tab_id, prompt_id } => Some(
                DialogResponse::DecideHostKey {
                    tab_id: *tab_id,
                    prompt_id: *prompt_id,
                    decision: if accept {
                        HostKeyDecision::AcceptAndStore
                    } else {
                        HostKeyDecision::Reject
                    },
                },
            ),
            DialogIdentityKind::ChangedHostKey { tab_id, request_id } => Some(
                if accept {
                    DialogResponse::OpenTrustedHosts { tab_id: *tab_id, request_id: *request_id }
                } else {
                    DialogResponse::CloseChangedHostKey { tab_id: *tab_id, request_id: *request_id }
                },
            ),
            DialogIdentityKind::ConfirmClose(tab_id) => Some(
                if accept {
                    DialogResponse::ConfirmTabClose(*tab_id)
                } else {
                    DialogResponse::CancelTabClose(*tab_id)
                },
            ),
        }
    }
}

/// How a profile save ended.
#[derive(Clone, Copy, Debug, PartialEq, Eq, Structural)]
pub enum SaveEnd {
    /// Saved, and the configuration read back.
    Saved,
    /// Saved, but the configuration could not be read back.
    ReloadFailed,
    /// Not saved, for the reason this message gives.
    Failed(MessageId),
}

/// The editors after a save ended.
#[derive(Clone, Copy, Debug, PartialEq, Eq, Structural)]
pub struct EditorsAfterSave {
    /// The save still under way, if any.
    pub saving: Option<EditorId>,
    /// Whether the open editor closes.
    pub close_editor: bool,
    /// The status line.
    pub status: Option<MessageId>,
}

/// What the end of the save that editor `editor_id` started does, while
/// `saving` is the save under way and `open` the open editor: the save is
/// over only if it was this one; the open editor closes only if it is this
/// one and the profile was saved and read back.
pub open spec fn editors_after_save_of(
    saving: Option<EditorId>,
    open: Option<EditorId>,
    editor_id: EditorId,
    end: SaveEnd,
) -> EditorsAfterSave {
    EditorsAfterSave {
        saving: if saving == Some(editor_id) {
            None
        } else {
            saving
        },
        close_editor: end == SaveEnd::Saved && open == Some(editor_id),
        status: match end {
            SaveEnd::Saved => None,
            SaveEnd::ReloadFailed => Some(MessageId::StorageCorrupt),
            SaveEnd::Failed(m) => Some(m),
        },
    }
}

/// What the end of the save that editor `editor_id` started does.
pub fn editors_after_save(
    saving: Option<EditorId>,
    open: Option<EditorId>,
    editor_id: EditorId,
    end: SaveEnd,
) -> (r: EditorsAfterSave)
    ensures
        r == editors_after_save_of(saving, open, editor_id, end),
{
    let this_save = match saving {
        Some(id) => id.0 == editor_id.0,
        None => false,
    };
    let this_editor = match open {
        Some(id) => id.0 == editor_id.0,
        None => false,
    };
    let saved = match end {
        SaveEnd::Saved => true,
        _ => false,
    };
    EditorsAfterSave {
        saving: if this_save {
            None
        } else {
            saving
        },
        close_editor: saved && this_editor,
        status: match end {
            SaveEnd::Saved => None,
            SaveEnd::ReloadFailed => Some(MessageId::StorageCorrupt),
            SaveEnd::Failed(m) => Some(m),
        },
    }
}

/// The end of one editor's save leaves other editors alone: it never ends
/// another editor's save, and never closes another editor.
pub proof fn law_save_end_leaves_other_editors(
    saving: Option<EditorId>,
    open: Option<EditorId>,
    editor_id: EditorId,
    end: SaveEnd,
)
    ensures
        saving != Some(editor_id) ==> editors_after_save_of(saving, open, editor_id, end).saving == saving,
        open != Some(editor_id) ==> !editors_after_save_of(saving, open, editor_id, end).close_editor,
{
}

} // verus!
