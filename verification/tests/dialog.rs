use oxide_ssh::connection_form::AuthMethod;
use oxide_ssh::dialog::{
    editor_save_state, editors_after_save, ConfirmAction, DialogFocusIdentity, DialogIdentityKind, DialogResponse,
    EditorId, EditorSaveState, EditorsAfterSave, SaveEnd,
};
use oxide_ssh::i18n::MessageId;
use oxide_ssh::session::HostKeyDecision;
use oxide_ssh::model::ProfileId;
use oxide_ssh::tabs::TabId;

#[test]
fn app_editor_save_state_distinguishes_current_and_blocked_editors() {
    let current = EditorId(uuid::Uuid::new_v4().as_u128());
    let other = EditorId(uuid::Uuid::new_v4().as_u128());

    assert_eq!(editor_save_state(None, current), EditorSaveState::Idle);
    assert_eq!(editor_save_state(Some(current), current), EditorSaveState::SavingThis);
    assert_eq!(editor_save_state(Some(other), current), EditorSaveState::BlockedByOther);
}

#[test]
fn editor_editor_save_state_distinguishes_current_and_blocked_editors() {
    let current = EditorId(uuid::Uuid::new_v4().as_u128());
    let other = EditorId(uuid::Uuid::new_v4().as_u128());

    assert_eq!(editor_save_state(None, current), EditorSaveState::Idle);
    assert_eq!(editor_save_state(Some(current), current), EditorSaveState::SavingThis);
    assert_eq!(editor_save_state(Some(other), current), EditorSaveState::BlockedByOther);
}

#[test]
fn app_editor_focus_identity_survives_payload_updates() {
    let editor_id = EditorId(uuid::Uuid::new_v4().as_u128());
    let initial = DialogIdentityKind::Editor {
        editor_id,
        auth_method: AuthMethod::Password,
        remember: false,
        save_state: EditorSaveState::Idle,
        is_editing: false,
    };
    let updated = DialogIdentityKind::Editor {
        editor_id,
        auth_method: AuthMethod::PrivateKey,
        remember: true,
        save_state: EditorSaveState::SavingThis,
        is_editing: false,
    };

    assert_eq!(initial.focus_identity(), updated.focus_identity());
}

#[test]
fn app_request_focus_identity_requires_the_exact_request() {
    let tab_id = TabId::new();
    let first = DialogIdentityKind::HostKey { tab_id, prompt_id: uuid::Uuid::new_v4().as_u128() };
    let second = DialogIdentityKind::HostKey { tab_id, prompt_id: uuid::Uuid::new_v4().as_u128() };

    assert_ne!(first.focus_identity(), second.focus_identity());
}

#[test]
fn dialog_editor_focus_identity_survives_payload_updates() {
    let editor_id = EditorId(uuid::Uuid::new_v4().as_u128());
    let initial = DialogIdentityKind::Editor {
        editor_id,
        auth_method: AuthMethod::Password,
        remember: false,
        save_state: EditorSaveState::Idle,
        is_editing: false,
    };
    let updated = DialogIdentityKind::Editor {
        editor_id,
        auth_method: AuthMethod::PrivateKey,
        remember: true,
        save_state: EditorSaveState::SavingThis,
        is_editing: false,
    };

    assert_eq!(initial.focus_identity(), updated.focus_identity());
}

#[test]
fn dialog_request_focus_identity_requires_the_exact_request() {
    let tab_id = TabId::new();
    let first = DialogIdentityKind::HostKey { tab_id, prompt_id: uuid::Uuid::new_v4().as_u128() };
    let second = DialogIdentityKind::HostKey { tab_id, prompt_id: uuid::Uuid::new_v4().as_u128() };

    assert_ne!(first.focus_identity(), second.focus_identity());
}

#[test]
fn confirm_and_close_dialogs_keep_their_subject() {
    let id = ProfileId::new();
    assert_eq!(
        DialogIdentityKind::Confirm(ConfirmAction::DeleteProfile(id)).focus_identity(),
        DialogFocusIdentity::Confirm(ConfirmAction::DeleteProfile(id))
    );
    let tab = TabId::new();
    assert_eq!(DialogIdentityKind::ConfirmClose(tab).focus_identity(), DialogFocusIdentity::ConfirmClose(tab));
    assert_ne!(DialogIdentityKind::Secret(tab).focus_identity(), DialogFocusIdentity::ConfirmClose(tab));
}

fn editor(save_state: EditorSaveState) -> DialogIdentityKind {
    DialogIdentityKind::Editor {
        editor_id: EditorId(7),
        auth_method: AuthMethod::Password,
        remember: false,
        save_state,
        is_editing: false,
    }
}

#[test]
fn submit_and_dismiss_answer_each_dialog() {
    let tab = TabId(3);
    assert_eq!(editor(EditorSaveState::Idle).response(true), Some(DialogResponse::SaveEditor));
    assert_eq!(editor(EditorSaveState::Idle).response(false), Some(DialogResponse::CancelEditor));
    assert_eq!(
        DialogIdentityKind::Confirm(ConfirmAction::Quit).response(true),
        Some(DialogResponse::PerformConfirm)
    );
    assert_eq!(
        DialogIdentityKind::Confirm(ConfirmAction::Quit).response(false),
        Some(DialogResponse::CancelConfirm)
    );
    assert_eq!(DialogIdentityKind::Secret(tab).response(true), Some(DialogResponse::SubmitSecret(tab)));
    assert_eq!(DialogIdentityKind::Secret(tab).response(false), Some(DialogResponse::CancelSecret(tab)));
    let host_key = DialogIdentityKind::HostKey { tab_id: tab, prompt_id: 9 };
    assert_eq!(
        host_key.response(true),
        Some(DialogResponse::DecideHostKey {
            tab_id: tab,
            prompt_id: 9,
            decision: HostKeyDecision::AcceptAndStore
        })
    );
    assert_eq!(
        host_key.response(false),
        Some(DialogResponse::DecideHostKey { tab_id: tab, prompt_id: 9, decision: HostKeyDecision::Reject })
    );
    let changed = DialogIdentityKind::ChangedHostKey { tab_id: tab, request_id: 4 };
    assert_eq!(changed.response(true), Some(DialogResponse::OpenTrustedHosts { tab_id: tab, request_id: 4 }));
    assert_eq!(
        changed.response(false),
        Some(DialogResponse::CloseChangedHostKey { tab_id: tab, request_id: 4 })
    );
    assert_eq!(DialogIdentityKind::ConfirmClose(tab).response(true), Some(DialogResponse::ConfirmTabClose(tab)));
    assert_eq!(DialogIdentityKind::ConfirmClose(tab).response(false), Some(DialogResponse::CancelTabClose(tab)));
}

#[test]
fn an_editor_ignores_answers_while_saving() {
    for state in [EditorSaveState::SavingThis, EditorSaveState::BlockedByOther] {
        assert_eq!(editor(state).response(true), None);
        assert_eq!(editor(state).response(false), None);
    }
}

#[test]
fn a_finished_save_reconciles_only_its_own_editor() {
    let this = EditorId(1);
    let newer = EditorId(2);
    assert_eq!(
        editors_after_save(Some(this), Some(this), this, SaveEnd::Saved),
        EditorsAfterSave { saving: None, close_editor: true, status: None }
    );
    // A newer editor was opened meanwhile: it stays open.
    assert_eq!(
        editors_after_save(Some(this), Some(newer), this, SaveEnd::Saved),
        EditorsAfterSave { saving: None, close_editor: false, status: None }
    );
    // Another save is under way: it is not ended.
    assert_eq!(
        editors_after_save(Some(newer), Some(newer), this, SaveEnd::Saved).saving,
        Some(newer)
    );
    assert_eq!(
        editors_after_save(Some(this), Some(this), this, SaveEnd::ReloadFailed),
        EditorsAfterSave {
            saving: None,
            close_editor: false,
            status: Some(MessageId::StorageCorrupt),
        }
    );
    assert_eq!(
        editors_after_save(Some(this), Some(this), this, SaveEnd::Failed(MessageId::CredentialAccessDenied)),
        EditorsAfterSave {
            saving: None,
            close_editor: false,
            status: Some(MessageId::CredentialAccessDenied),
        }
    );
}
