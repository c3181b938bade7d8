use oxide_ssh::app_state::{AppState, RecoveryState};
use oxide_ssh::connection_form::{AuthMethod, ConnectionForm, FormError};
use oxide_ssh::i18n::ResolvedLocale;
use oxide_ssh::model::{AuthConfig, ConnectionProfile, Endpoint, LocaleSetting, ProfileId, ThemeSetting};
use oxide_ssh::storage::{AppConfig, KnownHosts};
use oxide_ssh::theme::ResolvedTheme;

fn profile(name: &str, host: &str, username: &str) -> ConnectionProfile {
    ConnectionProfile {
        id: ProfileId::new(),
        name: name.into(),
        endpoint: Endpoint {
            host: host.into(),
            port: 22,
        },
        username: username.into(),
        auth: AuthConfig::Agent,
    }
}

fn state_with(profiles: Vec<ConnectionProfile>) -> AppState {
    let mut config = AppConfig::default();
    config.profiles = profiles;
    AppState::new(config, KnownHosts::default())
}

fn search_is_trimmed_unicode_lowercase_and_sorted() {
    let mut state = state_with(vec![
        profile("Zulu", "z.example", "root"),
        profile("北京", "beijing.example", "开发者"),
        profile("Alpha", "a.example", "oxide"),
    ]);
    assert_eq!(
        state
            .filtered_profiles()
            .into_iter()
            .map(|profile| profile.name.as_str())
            .collect::<Vec<_>>(),
        ["Alpha", "Zulu", "北京"],
    );

    state.set_search_query("  开发  ".into());
    assert_eq!(state.filtered_profiles()[0].name, "北京");
    state.set_search_query("EXAMPLE".into());
    assert_eq!(state.filtered_profiles().len(), 3);
}

#[test]
fn app_state_search_is_trimmed_unicode_lowercase_and_sorted() {
    search_is_trimmed_unicode_lowercase_and_sorted();
}

#[test]
fn mod_search_is_trimmed_unicode_lowercase_and_sorted() {
    search_is_trimmed_unicode_lowercase_and_sorted();
}

fn settings_persist_immediately_and_resolve_system_defaults() {
    let mut state = state_with(Vec::new());
    let config = state.config_with_locale(LocaleSetting::ZhCn);
    state.replace_config(config);
    let config = state.config_with_theme(ThemeSetting::Dark);
    state.replace_config(config);
    let stored = state.config();
    assert_eq!(stored.settings.locale, LocaleSetting::ZhCn);
    assert_eq!(stored.settings.theme, ThemeSetting::Dark);
    assert_eq!(state.resolved_locale(Some("en-US")), ResolvedLocale::ZhCn);
    assert_eq!(state.resolved_theme(false), ResolvedTheme::Dark);
}

#[test]
fn app_state_settings_persist_immediately_and_resolve_system_defaults() {
    settings_persist_immediately_and_resolve_system_defaults();
}

#[test]
fn mod_settings_persist_immediately_and_resolve_system_defaults() {
    settings_persist_immediately_and_resolve_system_defaults();
}

#[test]
fn search_matches_host_and_username_case_insensitively() {
    let mut state = state_with(vec![
        profile("one", "Alpha.Example", "root"),
        profile("two", "beta", "ALICE"),
        profile("three", "gamma", "bob"),
    ]);
    state.set_search_query("alpha".into());
    assert_eq!(state.filtered_profiles().len(), 1);
    assert_eq!(state.filtered_profiles()[0].name, "one");
    state.set_search_query("Alice".into());
    assert_eq!(state.filtered_profiles()[0].name, "two");
    state.set_search_query("nothing".into());
    assert!(state.filtered_profiles().is_empty());
    state.set_search_query("   ".into());
    assert_eq!(state.filtered_profiles().len(), 3);
}

#[test]
fn equal_names_are_ordered_by_id() {
    let mut first = profile("Same", "a", "u");
    let mut second = profile("same", "b", "u");
    first.id = ProfileId(2);
    second.id = ProfileId(1);
    let state = state_with(vec![first, second]);
    let names: Vec<_> = state.filtered_profiles().into_iter().map(|p| p.endpoint.host.as_str()).collect();
    assert_eq!(names, ["b", "a"]);
}

#[test]
fn system_theme_follows_the_system() {
    let state = state_with(Vec::new());
    assert_eq!(state.resolved_theme(true), ResolvedTheme::Dark);
    assert_eq!(state.resolved_theme(false), ResolvedTheme::Light);
    assert_eq!(state.resolved_locale(Some("zh-CN")), ResolvedLocale::ZhCn);
    assert_eq!(state.resolved_locale(None), ResolvedLocale::EnUs);
}

#[test]
fn state_exposes_what_it_loaded() {
    let state = state_with(vec![profile("p", "h", "u")]);
    assert_eq!(state.profiles().len(), 1);
    assert!(state.known_hosts().is_empty());
    assert_eq!(state.settings().locale, LocaleSetting::System);
    let recovery = RecoveryState { root: "/tmp/oxide".into() };
    assert_eq!(recovery.clone(), recovery);
}

#[test]
fn app_state_connection_form_is_shared_for_add_and_edit() {
    let mut add = ConnectionForm::new();
    add.name = " Fixture ".into();
    add.host = "EXAMPLE.COM".into();
    add.username = "oxide".into();
    add.auth_method = AuthMethod::Password;
    add.secret = "secret".into();
    add.remember = true;
    let request = add.save_request().ok().unwrap();
    assert_eq!(request.profile.endpoint.port, 22);
    assert_eq!(request.profile.name, "Fixture");
    assert!(request.previous.is_none());
    assert!(request.remember);

    let id = request.profile.id;
    let edit = ConnectionForm::edit(request.profile);
    let edited = edit.save_request().ok().unwrap();
    assert_eq!(edited.profile.id, id);
    assert!(edited.previous.is_some());
}

#[test]
fn app_state_connection_form_reports_boundary_errors() {
    let mut form = ConnectionForm::new();
    form.name = "fixture".into();
    form.host = "host".into();
    form.username = "oxide".into();
    form.port = "0".into();
    assert_eq!(form.save_request().err().unwrap(), FormError::Port);

    form.port = "22".into();
    form.auth_method = AuthMethod::PrivateKey;
    assert_eq!(form.save_request().err().unwrap(), FormError::PrivateKeyPath);
}
