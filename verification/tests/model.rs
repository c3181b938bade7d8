use oxide_ssh::model::{
    AuthConfig, ConnectionProfile, CredentialRef, Endpoint, ProfileId, ProfileValidationError,
    TerminalSize,
};

fn valid_profile() -> ConnectionProfile {
    ConnectionProfile {
        id: ProfileId::new(),
        name: "Local fixture".into(),
        endpoint: Endpoint {
            host: "example.com".into(),
            port: 22,
        },
        username: "oxide".into(),
        auth: AuthConfig::Agent,
    }
}

#[test]
fn valid_profile_accepts_dns_ipv4_and_unbracketed_ipv6() {
    for host in ["example.com", "127.0.0.1", "2001:db8::1"] {
        let mut profile = valid_profile();
        profile.endpoint.host = host.into();
        assert_eq!(profile.validate(), Ok(()));
    }
}

#[test]
fn name_uses_trimmed_unicode_scalar_length() {
    let mut profile = valid_profile();
    profile.name = format!("  {}  ", "界".repeat(64));
    assert_eq!(profile.validate(), Ok(()));

    profile.name = "界".repeat(65);
    assert_eq!(profile.validate(), Err(ProfileValidationError::Name));
    profile.name = " \t ".into();
    assert_eq!(profile.validate(), Err(ProfileValidationError::Name));
}

#[test]
fn host_rejects_non_ascii_length_and_forbidden_bytes() {
    for host in [
        "",
        "host name",
        "host/name",
        "host\\name",
        "host\0name",
        "münchen.example",
    ] {
        let mut profile = valid_profile();
        profile.endpoint.host = host.into();
        assert_eq!(profile.validate(), Err(ProfileValidationError::Host));
    }

    let mut profile = valid_profile();
    profile.endpoint.host = "a".repeat(254);
    assert_eq!(profile.validate(), Err(ProfileValidationError::Host));
}

#[test]
fn username_port_and_private_key_path_are_validated() {
    let mut profile = valid_profile();
    profile.username = "a".repeat(255);
    assert_eq!(profile.validate(), Ok(()));

    profile.username = "a".repeat(256);
    assert_eq!(profile.validate(), Err(ProfileValidationError::Username));
    profile.username = "bad\rname".into();
    assert_eq!(profile.validate(), Err(ProfileValidationError::Username));

    profile = valid_profile();
    profile.endpoint.port = 0;
    assert_eq!(profile.validate(), Err(ProfileValidationError::Port));

    profile = valid_profile();
    profile.auth = AuthConfig::PrivateKey {
        path: String::new(),
        passphrase_ref: None,
    };
    assert_eq!(
        profile.validate(),
        Err(ProfileValidationError::PrivateKeyPath)
    );
}

#[test]
fn credential_references_are_stable_and_contain_no_secret() {
    let id = ProfileId::new();

    assert_eq!(
        CredentialRef::password(id).as_str(),
        format!("profile/{}/password", uuid::Uuid::from_u128(id.0))
    );
    assert_eq!(
        CredentialRef::private_key_passphrase(id).as_str(),
        format!("profile/{}/private-key-passphrase", uuid::Uuid::from_u128(id.0))
    );
}

#[test]
fn credential_reference_uses_hyphenated_lowercase_uuid() {
    let id = ProfileId(0x0123_4567_89ab_cdef_0123_4567_89ab_cdef);
    assert_eq!(
        CredentialRef::password(id).as_str(),
        "profile/01234567-89ab-cdef-0123-456789abcdef/password"
    );
}

#[test]
fn password_and_passphrase_references_differ() {
    let id = ProfileId::new();
    assert_ne!(
        CredentialRef::password(id).as_str(),
        CredentialRef::private_key_passphrase(id).as_str()
    );
}

#[test]
fn fresh_profile_ids_are_version_four() {
    let id = ProfileId::new();
    assert_eq!((id.0 >> 76) & 0xf, 4);
    assert_eq!((id.0 >> 62) & 0x3, 2);
    assert_ne!(ProfileId::new(), id);
}

#[test]
fn terminal_size_needs_columns_and_rows() {
    let size = TerminalSize { columns: 80, rows: 24, pixel_width: 0, pixel_height: 0 };
    assert!(size.is_valid());
    assert!(!TerminalSize { columns: 0, ..size }.is_valid());
    assert!(!TerminalSize { rows: 0, ..size }.is_valid());
}
