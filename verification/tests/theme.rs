use oxide_ssh::connection_form::FormError;
use oxide_ssh::credentials::{CredentialError, CredentialTransactionError};
use oxide_ssh::i18n::MessageId;
use oxide_ssh::messages::{
    status_after_send,
    disconnect_reason_message_id, form_error_message_id, is_dark, local_error_message_id,
    requires_one_time_secret, session_error_message_id, tab_state_message_id,
    terminal_selection_color, transaction_error_message_id, WindowAppearance,
};
use oxide_ssh::model::{AuthConfig, ConnectionProfile, Endpoint, ProfileId, ThemeSetting};
use oxide_ssh::session::SessionError;
use oxide_ssh::storage::StorageError;
use oxide_ssh::widget_theme::ResolvedTheme as WidgetTheme;
use oxide_ssh::tabs::{DisconnectReason, TabLocalError, TabState};
use oxide_ssh::terminal::{RgbColor, TerminalColors};
use oxide_ssh::theme::{rgb_color, rgb_hex, ResolvedTheme};

#[test]
fn theme_setting_resolves_against_the_system() {
    assert_eq!(ResolvedTheme::resolve(ThemeSetting::Light, true), ResolvedTheme::Light);
    assert_eq!(ResolvedTheme::resolve(ThemeSetting::Dark, false), ResolvedTheme::Dark);
    assert_eq!(ResolvedTheme::resolve(ThemeSetting::System, true), ResolvedTheme::Dark);
    assert_eq!(ResolvedTheme::resolve(ThemeSetting::System, false), ResolvedTheme::Light);
}

#[test]
fn terminal_palette_follows_the_theme_tokens() {
    let dark = ResolvedTheme::Dark.terminal_colors();
    assert_eq!(dark.background, RgbColor::new(0x11, 0x13, 0x18));
    assert_eq!(dark.foreground, RgbColor::new(0xe6, 0xe8, 0xeb));
    assert_eq!(dark.cursor, dark.foreground);
    assert_eq!(dark.ansi[1], RgbColor::new(0xe0, 0x6c, 0x75));
    assert_eq!(dark.ansi[15], RgbColor::new(0xf5, 0xf7, 0xfa));
    let light = ResolvedTheme::Light.terminal_colors();
    assert_eq!(light.background, rgb_color(ResolvedTheme::Light.tokens().surface));
    assert_eq!(light.ansi[4], RgbColor::new(0x00, 0x5f, 0xb8));
    assert_eq!(light.ansi[15], RgbColor::new(0xff, 0xff, 0xff));
}

#[test]
fn hex_colors_round_trip() {
    assert_eq!(rgb_color(0x315a78), RgbColor::new(0x31, 0x5a, 0x78));
    assert_eq!(rgb_hex(RgbColor::new(0xb8, 0xd8, 0xf0)), 0xb8d8f0);
    assert_eq!(rgb_hex(rgb_color(0x123456)), 0x123456);
}

#[test]
fn selection_color_is_the_theme_selection_token() {
    for theme in [ResolvedTheme::Dark, ResolvedTheme::Light] {
        assert_eq!(terminal_selection_color(theme), theme.tokens().selection);
    }
}

#[test]
fn dark_appearances_are_dark() {
    assert!(is_dark(WindowAppearance::Dark));
    assert!(is_dark(WindowAppearance::VibrantDark));
    assert!(!is_dark(WindowAppearance::Light));
    assert!(!is_dark(WindowAppearance::VibrantLight));
}

#[test]
fn only_password_profiles_ask_for_a_one_time_secret() {
    let mut profile = ConnectionProfile {
        id: ProfileId::new(),
        name: "p".into(),
        endpoint: Endpoint { host: "h".into(), port: 22 },
        username: "u".into(),
        auth: AuthConfig::Password { credential_ref: None },
    };
    assert!(requires_one_time_secret(&profile));
    profile.auth = AuthConfig::Agent;
    assert!(!requires_one_time_secret(&profile));
}

#[test]
fn errors_and_states_map_to_messages() {
    assert_eq!(session_error_message_id(SessionError::Disconnected), MessageId::ConnectFailed);
    assert_eq!(session_error_message_id(SessionError::PrivateKeyPassphraseRequired), MessageId::CredentialRequired);
    assert_eq!(form_error_message_id(FormError::PrivateKeyPath), MessageId::PrivateKey);
    assert_eq!(local_error_message_id(TabLocalError::InputClosed), MessageId::SessionClosed);
    assert_eq!(local_error_message_id(TabLocalError::InvalidTerminalSize), MessageId::InvalidProfile);
    assert_eq!(tab_state_message_id(&TabState::AwaitingSecret), MessageId::AwaitingSecret);
    assert_eq!(
        disconnect_reason_message_id(DisconnectReason::Session(SessionError::HostKeyChanged)),
        MessageId::HostKeyChanged
    );
    assert_eq!(disconnect_reason_message_id(DisconnectReason::Exit(Some(0))), MessageId::Disconnected);
    assert_eq!(
        transaction_error_message_id(&CredentialTransactionError::Credential(CredentialError::Ambiguous)),
        MessageId::CredentialAmbiguous
    );
    assert_eq!(
        transaction_error_message_id(&CredentialTransactionError::Storage(StorageError::InvalidEndpoint)),
        MessageId::StorageCorrupt
    );
    assert_eq!(
        transaction_error_message_id(&CredentialTransactionError::RollbackFailed),
        MessageId::InvalidProfile
    );
}

#[test]
fn a_key_press_updates_the_status_line() {
    let full = Some(MessageId::InputQueueFull);
    assert_eq!(status_after_send(full, Some(Ok(()))), None);
    assert_eq!(
        status_after_send(Some(MessageId::StorageCorrupt), Some(Ok(()))),
        Some(MessageId::StorageCorrupt)
    );
    assert_eq!(
        status_after_send(None, Some(Err(TabLocalError::InputQueueFull))),
        full
    );
    assert_eq!(
        status_after_send(full, Some(Err(TabLocalError::InputClosed))),
        Some(MessageId::SessionClosed)
    );
    assert_eq!(status_after_send(full, None), full);
}

#[test]
fn the_widget_palette_moves_only_text_background_and_cursor() {
    let dark = WidgetTheme::Dark.terminal_colors();
    assert_eq!(dark.foreground, RgbColor::new(0xdf, 0xe2, 0xe9));
    assert_eq!(dark.background, RgbColor::new(0x16, 0x18, 0x1d));
    assert_eq!(dark.cursor, dark.foreground);
    assert_eq!(dark.ansi, ResolvedTheme::Dark.terminal_colors().ansi);
    assert_eq!(dark.ansi, TerminalColors::default().ansi);
    let light = WidgetTheme::Light.terminal_colors();
    assert_eq!(light.foreground, RgbColor::new(0x20, 0x21, 0x24));
    assert_eq!(light.background, RgbColor::new(0xf3, 0xf4, 0xf6));
    assert_eq!(light.cursor, light.foreground);
    assert_eq!(light.ansi, ResolvedTheme::Light.terminal_colors().ansi);
}

#[test]
fn the_widget_theme_follows_the_setting_and_the_system() {
    assert_eq!(WidgetTheme::resolve(ThemeSetting::Light, true), WidgetTheme::Light);
    assert_eq!(WidgetTheme::resolve(ThemeSetting::Dark, false), WidgetTheme::Dark);
    assert_eq!(WidgetTheme::resolve(ThemeSetting::System, true), WidgetTheme::Dark);
    assert_eq!(WidgetTheme::resolve(ThemeSetting::System, false), WidgetTheme::Light);
}
