use oxide_ssh::model::{AuthConfig, ConnectionProfile, CredentialRef, Endpoint, ProfileId};
use oxide_ssh::storage::{
    canonicalize_endpoint, schema_check, validate_config, AppConfig, KnownHostEntry, KnownHosts, StorageError,
    CONFIG_FILE_NAME, KNOWN_HOSTS_FILE_NAME, SCHEMA_VERSION,
};

fn profile(name: &str) -> ConnectionProfile {
    let id = ProfileId::new();
    ConnectionProfile {
        id,
        name: name.into(),
        endpoint: Endpoint {
            host: "EXAMPLE.COM".into(),
            port: 22,
        },
        username: "oxide".into(),
        auth: AuthConfig::Password {
            credential_ref: Some(CredentialRef::password(id)),
        },
    }
}

fn host(host: &str, port: u16) -> KnownHostEntry {
    KnownHostEntry {
        host: host.into(),
        port,
        algorithm: "ssh-ed25519".into(),
        public_key: "ssh-ed25519 AAAAC3NzaC1lZDI1NTE5AAAAITest".into(),
        fingerprint_sha256: "SHA256:test".into(),
        accepted_at_unix: 1,
    }
}

#[test]
fn host_endpoint_is_canonicalized() {
    let mut hosts = KnownHosts::default();

    hosts.accept(host("EXAMPLE.COM", 22)).unwrap();
    hosts.accept(host("[2001:0DB8:0:0:0:0:0:1]", 2200)).unwrap();

    assert_eq!(hosts.hosts[0].host, "example.com");
    assert_eq!(hosts.hosts[1].host, "2001:db8::1");
    assert!(hosts
        .lookup(&Endpoint {
            host: "Example.Com".into(),
            port: 22,
        })
        .unwrap()
        .is_some());
}

#[test]
fn replacing_a_host_key_requires_deletion_first() {
    let mut hosts = KnownHosts::default();
    hosts.accept(host("example.com", 22)).unwrap();

    let mut replacement = host("EXAMPLE.COM", 22);
    replacement.fingerprint_sha256 = "SHA256:replacement".into();
    assert!(matches!(
        hosts.accept(replacement),
        Err(StorageError::HostKeyConflict)
    ));

    hosts
        .delete(&Endpoint {
            host: "example.com".into(),
            port: 22,
        })
        .unwrap();
    let mut fresh = host("example.com", 22);
    fresh.fingerprint_sha256 = "SHA256:replacement".into();
    hosts.accept(fresh).unwrap();

    assert_eq!(hosts.hosts.len(), 1);
    assert_eq!(hosts.hosts[0].fingerprint_sha256, "SHA256:replacement");
}

#[test]
fn reaccepting_the_same_key_is_idempotent() {
    let mut hosts = KnownHosts::default();

    assert_eq!(hosts.accept(host("example.com", 22)), Ok(true));
    assert_eq!(hosts.accept(host("EXAMPLE.COM", 22)), Ok(false));

    assert_eq!(hosts.hosts.len(), 1);
}

#[test]
fn config_with_foreign_credential_reference_is_rejected_on_load() {
    let mut config = AppConfig::default();
    config.profiles.push(ConnectionProfile {
        id: ProfileId(0),
        name: "borrowed".into(),
        endpoint: Endpoint { host: "example.com".into(), port: 22 },
        username: "oxide".into(),
        auth: AuthConfig::Password {
            credential_ref: Some(CredentialRef(
                "profile/11111111-1111-1111-1111-111111111111/password".into(),
            )),
        },
    });
    assert!(matches!(
        validate_config(&config),
        Err(StorageError::InvalidCredentialRef { .. })
    ));
}

#[test]
fn config_with_duplicate_profile_ids_is_rejected_on_load() {
    let mut config = AppConfig::default();
    for (name, host) in [("first", "example.com"), ("second", "example.org")] {
        config.profiles.push(ConnectionProfile {
            id: ProfileId(0),
            name: name.into(),
            endpoint: Endpoint { host: host.into(), port: 22 },
            username: "oxide".into(),
            auth: AuthConfig::Agent,
        });
    }
    assert!(matches!(
        validate_config(&config),
        Err(StorageError::DuplicateProfile { .. })
    ));
}

#[test]
fn unsupported_schema_is_rejected() {
    let config = AppConfig::from_parts(2, AppConfig::default().settings, Vec::new());
    assert!(matches!(
        validate_config(&config),
        Err(StorageError::UnsupportedSchema { found: 2, .. })
    ));
}

#[test]
fn default_documents_use_schema_one() {
    assert_eq!(AppConfig::default().schema_version(), SCHEMA_VERSION);
    assert_eq!(KnownHosts::default().schema_version(), 1);
    assert_eq!(validate_config(&AppConfig::default()), Ok(()));
    assert_eq!(CONFIG_FILE_NAME, "config.json");
    assert_eq!(KNOWN_HOSTS_FILE_NAME, "known_hosts.json");
}

#[test]
fn valid_profiles_with_their_own_references_are_accepted() {
    let mut config = AppConfig::default();
    config.profiles.push(profile("first"));
    config.profiles.push(profile("second"));
    assert_eq!(validate_config(&config), Ok(()));
}

#[test]
fn invalid_profiles_are_rejected_on_load() {
    let mut config = AppConfig::default();
    let mut bad = profile("bad");
    bad.endpoint.port = 0;
    config.profiles.push(bad);
    assert!(matches!(
        validate_config(&config),
        Err(StorageError::InvalidProfile(_))
    ));
}

#[test]
fn endpoints_are_canonicalized() {
    let canonical = |host: &str, port: u16| canonicalize_endpoint(&Endpoint { host: host.into(), port });
    assert_eq!(canonical("Example.COM", 22).unwrap().host, "example.com");
    assert_eq!(canonical("[::1]", 22).unwrap().host, "::1");
    assert_eq!(canonical("010.1.1.1", 22).unwrap().host, "010.1.1.1");
    assert_eq!(canonical("127.0.0.1", 2222).unwrap().port, 2222);
    assert_eq!(canonical("example.com", 0), Err(StorageError::InvalidEndpoint));
    assert_eq!(canonical("bad host", 22), Err(StorageError::InvalidEndpoint));
    assert_eq!(canonical("[]", 22), Err(StorageError::InvalidEndpoint));
}

#[test]
fn deleting_an_unknown_endpoint_changes_nothing() {
    let mut hosts = KnownHosts::default();
    hosts.accept(host("example.com", 22)).unwrap();
    assert_eq!(hosts.delete(&Endpoint { host: "example.org".into(), port: 22 }), Ok(false));
    assert_eq!(hosts.hosts.len(), 1);
    assert_eq!(hosts.delete(&Endpoint { host: "EXAMPLE.com".into(), port: 22 }), Ok(true));
    assert!(hosts.hosts.is_empty());
    assert_eq!(
        hosts.lookup(&Endpoint { host: "example.com".into(), port: 22 }),
        Ok(None)
    );
}

#[test]
fn only_the_known_schema_version_is_read() {
    assert_eq!(schema_check("config.json".into(), 1), Ok(()));
    assert_eq!(
        schema_check("/data/known_hosts.json".into(), 2),
        Err(StorageError::UnsupportedSchema {
            path: "/data/known_hosts.json".into(),
            found: 2,
        })
    );
    assert_eq!(
        schema_check("config.json".into(), 0),
        Err(StorageError::UnsupportedSchema {
            path: "config.json".into(),
            found: 0,
        })
    );
}

#[test]
fn known_hosts_read_back_only_in_the_known_schema() {
    let entry = KnownHostEntry {
        host: "example.com".into(),
        port: 22,
        algorithm: "ssh-ed25519".into(),
        public_key: "ssh-ed25519 AAAA".into(),
        fingerprint_sha256: "SHA256:abc".into(),
        accepted_at_unix: 7,
    };
    let loaded = KnownHosts::read_back("known_hosts.json".into(), 1, vec![entry.clone()]).unwrap();
    assert_eq!(loaded.schema_version(), SCHEMA_VERSION);
    assert_eq!(loaded.hosts, vec![entry]);
    assert_eq!(
        KnownHosts::read_back("/data/known_hosts.json".into(), 3, Vec::new()),
        Err(StorageError::UnsupportedSchema { path: "/data/known_hosts.json".into(), found: 3 })
    );
    assert_eq!(KnownHosts::default().schema_version(), 1);
}

#[test]
fn canonicalizing_twice_changes_nothing() {
    for host in ["EXAMPLE.COM", "Db-01.Internal", "[2001:0DB8:0:0:0:0:0:1]", "10.0.0.1"] {
        let once = canonicalize_endpoint(&Endpoint { host: host.into(), port: 2222 }).unwrap();
        let twice = canonicalize_endpoint(&once).unwrap();
        assert_eq!(once, twice);
    }
}
