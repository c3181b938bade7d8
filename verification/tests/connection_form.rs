use oxide_ssh::connection_form::{parse_port, parse_u16, port_text, AuthMethod, ConnectionForm, FormError};
use oxide_ssh::model::{AuthConfig, ConnectionProfile, CredentialRef, Endpoint, ProfileId, ProfileValidationError};

#[test]
fn connection_form_connection_form_is_shared_for_add_and_edit() {
    let mut add = ConnectionForm::new();
    add.name = " Fixture ".into();
    add.host = "EXAMPLE.COM".into();
    add.username = "oxide".into();
    add.auth_method = AuthMethod::Password;
    add.secret = "secret".into();
    add.remember = true;
    let request = add.save_request().unwrap();
    assert_eq!(request.profile.endpoint.port, 22);
    assert_eq!(request.profile.name, "Fixture");
    assert!(request.previous.is_none());
    assert!(request.remember);

    let id = request.profile.id;
    let edit = ConnectionForm::edit(request.profile);
    let edited = edit.save_request().unwrap();
    assert_eq!(edited.profile.id, id);
    assert!(edited.previous.is_some());
}

#[test]
fn connection_form_connection_form_reports_boundary_errors() {
    let mut form = ConnectionForm::new();
    form.name = "fixture".into();
    form.host = "host".into();
    form.username = "oxide".into();
    form.port = "0".into();
    assert_eq!(form.save_request().err().unwrap(), FormError::Port);

    form.port = "22".into();
    form.auth_method = AuthMethod::PrivateKey;
    assert_eq!(form.save_request().err().unwrap(), FormError::PrivateKeyPath);
}

#[test]
fn port_text_parses_like_u16_from_str() {
    for text in ["0", "22", "+22", "0022", "65535", "65536", "", "+", "-1", "2 2", "x", "99999999999"] {
        assert_eq!(parse_u16(text), text.parse::<u16>().ok(), "{text:?}");
    }
}

#[test]
fn port_field_is_trimmed_and_refuses_zero() {
    assert_eq!(parse_port("  2222\t"), Some(2222));
    assert_eq!(parse_port("0"), None);
    assert_eq!(parse_port("+0"), None);
    assert_eq!(parse_port(" 65536 "), None);
    assert_eq!(parse_port(""), None);
}

#[test]
fn port_text_is_plain_decimal() {
    for port in [1u16, 9, 10, 22, 100, 2222, 65535] {
        assert_eq!(port_text(port), port.to_string());
        assert_eq!(parse_port(&port_text(port)), Some(port));
    }
}

#[test]
fn new_form_defaults_to_port_22_and_password() {
    let form = ConnectionForm::new();
    assert_eq!(form.port, "22");
    assert_eq!(form.auth_method, AuthMethod::Password);
    assert!(!form.remember);
    assert!(!form.is_editing());
    assert!(!ConnectionForm::default().is_editing());
}

#[test]
fn edit_form_shows_the_profile_and_keeps_its_reference() {
    let id = ProfileId::new();
    let reference = CredentialRef::private_key_passphrase(id);
    let profile = ConnectionProfile {
        id,
        name: "box".into(),
        endpoint: Endpoint { host: "10.0.0.2".into(), port: 2200 },
        username: "me".into(),
        auth: AuthConfig::PrivateKey { path: "/k/id_ed25519".into(), passphrase_ref: Some(reference.clone()) },
    };
    let form = ConnectionForm::edit(profile.clone());
    assert!(form.is_editing());
    assert_eq!(form.port, "2200");
    assert_eq!(form.auth_method, AuthMethod::PrivateKey);
    assert_eq!(form.private_key_path, "/k/id_ed25519");
    assert!(form.remember);
    assert!(form.secret.is_empty());
    let request = form.save_request().unwrap();
    assert_eq!(request.profile, profile);
    assert_eq!(request.previous, Some(profile));
    assert!(request.secret.is_none());
    assert!(request.remember);
}

#[test]
fn agent_forms_never_remember_and_empty_secrets_are_absent() {
    let mut form = ConnectionForm::new();
    form.name = "agent".into();
    form.host = "host".into();
    form.username = "me".into();
    form.auth_method = AuthMethod::Agent;
    form.remember = true;
    let request = form.save_request().unwrap();
    assert!(!request.remember);
    assert!(request.secret.is_none());
    assert_eq!(request.profile.auth, AuthConfig::Agent);
}

#[test]
fn form_errors_follow_the_profile_rules_in_order() {
    let mut form = ConnectionForm::new();
    assert_eq!(form.save_request().err().unwrap(), FormError::Name);
    form.name = "n".into();
    assert_eq!(form.save_request().err().unwrap(), FormError::Host);
    form.host = "h".into();
    assert_eq!(form.save_request().err().unwrap(), FormError::Username);
    form.username = "u".into();
    assert!(form.save_request().is_ok());
    form.port = "abc".into();
    assert_eq!(form.save_request().err().unwrap(), FormError::Port);
    assert_eq!(FormError::from(ProfileValidationError::Host), FormError::Host);
}

#[test]
fn setters_fill_the_form_like_its_fields() {
    let mut form = ConnectionForm::new();
    form.set_name("Build box".into());
    form.set_host("10.0.0.7".into());
    form.set_port("2222".into());
    form.set_username("ci".into());
    form.set_auth_method(AuthMethod::PrivateKey);
    form.set_private_key_path("/home/ci/.ssh/id_ed25519".into());
    form.set_secret("phrase".into());
    form.set_remember(false);
    assert_eq!(form.name, "Build box");
    assert_eq!(form.port, "2222");
    let request = form.save_request().unwrap();
    assert_eq!(request.profile.endpoint.port, 2222);
    assert_eq!(request.profile.username, "ci");
    assert!(!request.remember);
    assert!(matches!(request.profile.auth, AuthConfig::PrivateKey { .. }));
}
