//! The persisted documents (application configuration and trusted host
//! keys), their validation, host endpoint canonicalization, and the rules
//! for accepting, looking up and deleting trusted host keys.

use vstd::prelude::*;
use vstd::utf8::encode_utf8;

use crate::model::{
    passphrase_ref_text, password_ref_text, valid_host_bytes, validation_outcome, AppSettings,
    AuthConfig, ConnectionProfile, Endpoint, LocaleSetting, ProfileId, ProfileValidationError,
    ThemeSetting, host_bytes_ok,
};
use std::collections::HashSet;

use crate::text::{ascii_lowercase_seq, chars_of, string_from_range, to_ascii_lowercase};

verus! {

pub const CONFIG_FILE_NAME: &'static str = "config.json";

pub const KNOWN_HOSTS_FILE_NAME: &'static str = "known_hosts.json";

/// The only schema version this build reads and writes.
pub const SCHEMA_VERSION: u32 = 1;

/// The application configuration document.
#[derive(Debug, PartialEq, Eq)]
pub struct AppConfig {
    pub schema_version: u32,
    pub settings: AppSettings,
    pub profiles: Vec<ConnectionProfile>,
}

/// A copy of a list of profiles.
pub fn clone_profiles(profiles: &Vec<ConnectionProfile>) -> (r: Vec<ConnectionProfile>)
    ensures
        r@ == profiles@,
{
    let mut r: Vec<ConnectionProfile> = Vec::new();
    let mut i: usize = 0;
    while i < profiles.len()
        invariant
            i <= profiles@.len(),
            r@ == profiles@.take(i as int),
        decreases profiles.len() - i,
    {
        r.push(profiles[i].clone());
        i = i + 1;
        assert(r@ =~= profiles@.take(i as int));
    }
    assert(profiles@.take(profiles@.len() as int) =~= profiles@);
    r
}

impl Clone for AppConfig {
    fn clone(&self) -> (r: Self)
        ensures
            r.schema_version == self.schema_version,
            r.settings == self.settings,
            r.profiles@ == self.profiles@,
    {
        let profiles = clone_profiles(&self.profiles);
        AppConfig { schema_version: self.schema_version, settings: self.settings, profiles }
    }
}

impl Default for AppConfig {
    /// An empty schema-1 configuration with default settings.
    fn default() -> (r: Self)
        ensures
            r.schema_version == SCHEMA_VERSION,
            r.settings == (AppSettings { locale: LocaleSetting::System, theme: ThemeSetting::System }),
            r.profiles@.len() == 0,
    {
        AppConfig {
            schema_version: SCHEMA_VERSION,
            settings: AppSettings { locale: LocaleSetting::System, theme: ThemeSetting::System },
            profiles: Vec::new(),
        }
    }
}

impl AppConfig {
    /// A configuration as read back from storage.
    pub fn from_parts(
        schema_version: u32,
        settings: AppSettings,
        profiles: Vec<ConnectionProfile>,
    ) -> (r: Self)
        ensures
            r.schema_version == schema_version,
            r.settings == settings,
            r.profiles == profiles,
    {
        AppConfig { schema_version, settings, profiles }
    }

    pub fn schema_version(&self) -> (r: u32)
        ensures
            r == self.schema_version,
    {
        self.schema_version
    }
}


/// The trusted host key document.
#[derive(Debug, PartialEq, Eq)]
pub struct KnownHosts {
    pub schema_version: u32,
    pub hosts: Vec<KnownHostEntry>,
}

impl Default for KnownHosts {
    /// An empty schema-1 document.
    fn default() -> (r: Self)
        ensures
            r.schema_version == SCHEMA_VERSION,
            r.hosts@.len() == 0,
    {
        KnownHosts { schema_version: SCHEMA_VERSION, hosts: Vec::new() }
    }
}

impl KnownHosts {
    /// A document as read back from storage.
    pub fn from_parts(schema_version: u32, hosts: Vec<KnownHostEntry>) -> (r: Self)
        ensures
            r.schema_version == schema_version,
            r.hosts == hosts,
    {
        KnownHosts { schema_version, hosts }
    }

    pub fn schema_version(&self) -> (r: u32)
        ensures
            r == self.schema_version,
    {
        self.schema_version
    }

    /// A document read back from storage at `path`: only the schema this
    /// build knows is accepted, so every loaded document has schema 1.
    pub fn read_back(path: String, schema_version: u32, hosts: Vec<KnownHostEntry>) -> (r: Result<Self, StorageError>)
        ensures
            schema_version == SCHEMA_VERSION ==> r == Ok::<Self, StorageError>(KnownHosts { schema_version, hosts }),
            schema_version != SCHEMA_VERSION ==> r == Err::<Self, StorageError>(
                StorageError::UnsupportedSchema { path, found: schema_version as u64 },
            ),
            r matches Ok(k) ==> k.schema_version == SCHEMA_VERSION,
    {
        match schema_check(path, schema_version as u64) {
            Ok(()) => Ok(KnownHosts { schema_version, hosts }),
            Err(e) => Err(e),
        }
    }
}

/// One trusted host key.
#[derive(Debug, PartialEq, Eq)]
pub struct KnownHostEntry {
    pub host: String,
    pub port: u16,
    pub algorithm: String,
    pub public_key: String,
    pub fingerprint_sha256: String,
    pub accepted_at_unix: i64,
}

impl Clone for KnownHostEntry {
    fn clone(&self) -> (r: Self)
        ensures
            r == *self,
    {
        KnownHostEntry {
            host: self.host.clone(),
            port: self.port,
            algorithm: self.algorithm.clone(),
            public_key: self.public_key.clone(),
            fingerprint_sha256: self.fingerprint_sha256.clone(),
            accepted_at_unix: self.accepted_at_unix,
        }
    }
}

impl KnownHostEntry {
    /// The `host:port` of the entry.
    pub fn endpoint(&self) -> (r: Endpoint)
        ensures
            r.host == self.host,
            r.port == self.port,
    {
        Endpoint { host: self.host.clone(), port: self.port }
    }
}

/// Why a storage operation failed.
#[derive(Debug, PartialEq, Eq)]
pub enum StorageError {
    UnsupportedSchema { path: String, found: u64 },
    Corrupt { path: String },
    Io { path: String },
    Serialize { path: String },
    InvalidEndpoint,
    DuplicateProfile { id: ProfileId },
    InvalidCredentialRef { id: ProfileId },
    HostKeyConflict,
    InvalidProfile(ProfileValidationError),
}

/// A stored credential reference must be the one derived from the
/// profile's own id and authentication method.
pub open spec fn reference_matches(p: ConnectionProfile) -> bool {
    match p.auth {
        AuthConfig::Password { credential_ref } => match credential_ref {
            Some(r) => r.0@ == password_ref_text(p.id),
            None => true,
        },
        AuthConfig::PrivateKey { passphrase_ref, .. } => match passphrase_ref {
            Some(r) => r.0@ == passphrase_ref_text(p.id),
            None => true,
        },
        AuthConfig::Agent => true,
    }
}

/// What is wrong with the profile at index `i`, judged together with the
/// profiles before it.
pub open spec fn profile_problem(profiles: Seq<ConnectionProfile>, i: int) -> Option<StorageError> {
    let p = profiles[i];
    if exists|j: int| 0 <= j < i && (#[trigger] profiles[j]).id == p.id {
        Some(StorageError::DuplicateProfile { id: p.id })
    } else if validation_outcome(p) is Err {
        Some(StorageError::InvalidProfile(validation_outcome(p)->Err_0))
    } else if !reference_matches(p) {
        Some(StorageError::InvalidCredentialRef { id: p.id })
    } else {
        None
    }
}

/// The first problem among the first `n` profiles.
pub open spec fn first_problem(profiles: Seq<ConnectionProfile>, n: int) -> Option<StorageError>
    decreases n,
{
    if n <= 0 {
        None
    } else {
        match first_problem(profiles, n - 1) {
            Some(e) => Some(e),
            None => profile_problem(profiles, n - 1),
        }
    }
}

/// Once a problem is found, later profiles do not change it.
pub proof fn lemma_first_problem_stable(profiles: Seq<ConnectionProfile>, k: int, n: int)
    requires
        0 <= k <= n,
        first_problem(profiles, k) is Some,
    ensures
        first_problem(profiles, n) == first_problem(profiles, k),
    decreases n - k,
{
    if n > k {
        lemma_first_problem_stable(profiles, k, n - 1);
    }
}

/// The outcome of validating the profiles of a schema-1 document.
pub open spec fn profiles_outcome(profiles: Seq<ConnectionProfile>) -> Result<(), StorageError> {
    match first_problem(profiles, profiles.len() as int) {
        Some(e) => Err(e),
        None => Ok(()),
    }
}

/// The outcome of validating a configuration document: an unsupported
/// schema first, then the first problem among the profiles.
pub open spec fn config_outcome(
    schema_version: u32,
    profiles: Seq<ConnectionProfile>,
    r: Result<(), StorageError>,
) -> bool {
    if schema_version != SCHEMA_VERSION {
        r matches Err(StorageError::UnsupportedSchema { path, found }) && path@
            == CONFIG_FILE_NAME@ && found == schema_version as u64
    } else {
        r == profiles_outcome(profiles)
    }
}

/// Checks a stored credential reference against the profile's own id.
fn reference_ok(profile: &ConnectionProfile) -> (b: bool)
    ensures
        b == reference_matches(*profile),
{
    match &profile.auth {
        AuthConfig::Password { credential_ref } => match credential_ref {
            Some(r) => {
                let expected = crate::model::CredentialRef::password(profile.id);
                r.0 == expected.0
            },
            None => true,
        },
        AuthConfig::PrivateKey { passphrase_ref, .. } => match passphrase_ref {
            Some(r) => {
                let expected = crate::model::CredentialRef::private_key_passphrase(profile.id);
                r.0 == expected.0
            },
            None => true,
        },
        AuthConfig::Agent => true,
    }
}

/// Whether a stored document may be read: its `schemaVersion` (`found`)
/// must be the one this build knows; otherwise the document at `path` is
/// refused as an unsupported schema.
pub fn schema_check(path: String, found: u64) -> (r: Result<(), StorageError>)
    ensures
        found == SCHEMA_VERSION ==> r is Ok,
        found != SCHEMA_VERSION ==> r == Err::<(), StorageError>(
            StorageError::UnsupportedSchema { path, found },
        ),
{
    if found == SCHEMA_VERSION as u64 {
        Ok(())
    } else {
        Err(StorageError::UnsupportedSchema { path, found })
    }
}

/// Validates a configuration document: the schema version, then each
/// profile in order (unique id, valid fields, own credential reference).
pub fn validate_config(config: &AppConfig) -> (r: Result<(), StorageError>)
    ensures
        config_outcome(config.schema_version, config.profiles@, r),
{
    if config.schema_version != SCHEMA_VERSION {
        let path = String::from_str(CONFIG_FILE_NAME);
        return Err(StorageError::UnsupportedSchema { path, found: config.schema_version as u64 });
    }
    broadcast use vstd::std_specs::hash::group_hash_axioms;

    let profiles = &config.profiles;
    let mut ids: HashSet<u128> = HashSet::new();
    let mut i: usize = 0;
    while i < profiles.len()
        invariant
            i <= profiles@.len(),
            profiles@ == config.profiles@,
            config.schema_version == SCHEMA_VERSION,
            first_problem(profiles@, i as int) is None,
            forall|x: u128| ids@.contains(x) <==> exists|j: int| 0 <= j < i && (#[trigger] profiles@[j]).id.0 == x,
        decreases profiles.len() - i,
    {
        let profile = &profiles[i];
        let ghost ids_before = ids@;
        let new_id = ids.insert(profile.id.0);
        let seen = !new_id;
        proof {
            assert(seen == exists|j: int| 0 <= j < i && (#[trigger] profiles@[j]).id == profile.id);
            assert forall|x: u128| ids@.contains(x) <==> exists|j: int| 0 <= j < i + 1 && (#[trigger] profiles@[j]).id.0 == x by {
                if x == profile.id.0 {
                    assert(profiles@[i as int].id.0 == x);
                }
                if ids_before.contains(x) {
                    let j = choose|j: int| 0 <= j < i && (#[trigger] profiles@[j]).id.0 == x;
                }
            }
        }
        let checked = profile.validate();
        let reference = reference_ok(profile);
        proof {
            assert(first_problem(profiles@, i + 1) == profile_problem(profiles@, i as int));
            if profile_problem(profiles@, i as int) is Some {
                lemma_first_problem_stable(profiles@, i + 1, profiles@.len() as int);
            }
        }
        if seen {
            return Err(StorageError::DuplicateProfile { id: profile.id });
        }
        match checked {
            Err(e) => {
                return Err(StorageError::InvalidProfile(e));
            },
            Ok(()) => {},
        }
        if !reference {
            return Err(StorageError::InvalidCredentialRef { id: profile.id });
        }
        i = i + 1;
    }
    Ok(())
}

/// `s` with one pair of enclosing square brackets removed, if it has them.
pub open spec fn unbracket(s: Seq<char>) -> Seq<char> {
    if s.len() >= 2 && s[0] == '[' && s.last() == ']' {
        s.subrange(1, s.len() - 1)
    } else {
        s
    }
}

/// Removes one pair of enclosing square brackets (as around an IPv6 literal).
pub fn unbracketed_host(host: &str) -> (r: String)
    ensures
        r@ == unbracket(host@),
{
    let chars = chars_of(host);
    let n = chars.len();
    if n >= 2 && chars[0] == '[' && chars[n - 1] == ']' {
        string_from_range(&chars, 1, n - 1)
    } else {
        proof {
            assert(chars@.subrange(0, n as int) =~= chars@);
        }
        string_from_range(&chars, 0, n)
    }
}

/// The canonical text of `s` read as an IP address (`core::net::IpAddr`
/// parsed from `s`, then displayed), or `None` when `s` is no IP address.
pub uninterp spec fn ip_canonical_text(s: Seq<char>) -> Option<Seq<char>>;

/// Parses an IPv4 or IPv6 address and formats it back in canonical form
/// (`str::parse::<core::net::IpAddr>` then `to_string`).
#[verifier::external_body]
fn parse_ip_canonical(s: &str) -> (r: Option<String>)
    ensures
        match r {
            Some(t) => ip_canonical_text(s@) == Some(t@),
            None => ip_canonical_text(s@) is None,
        },
{
    s.parse::<core::net::IpAddr>().ok().map(|address| address.to_string())
}

/// The canonical host: the canonical IP text when the host is an IP
/// address, the ASCII lower-case host otherwise.
pub open spec fn canonical_host_with(unbracketed: Seq<char>, ip: Option<Seq<char>>) -> Seq<char> {
    match ip {
        Some(t) => t,
        None => ascii_lowercase_seq(unbracketed),
    }
}

/// The outcome of `canonicalize_endpoint`.
pub open spec fn canonical_endpoint_outcome(host: Seq<char>, port: u16) -> Option<(Seq<char>, u16)> {
    let u = unbracket(host);
    if port == 0 || !valid_host_bytes(encode_utf8(u)) {
        None
    } else {
        Some((canonical_host_with(u, ip_canonical_text(u)), port))
    }
}

/// Builds the canonical endpoint from an unbracketed host and the result of
/// reading it as an IP address.
pub fn canonical_endpoint_from(unbracketed: &str, port: u16, ip: Option<String>) -> (r: Endpoint)
    ensures
        r.host@ == canonical_host_with(
            unbracketed@,
            match ip {
                Some(t) => Some(t@),
                None => None,
            },
        ),
        r.port == port,
{
    let host = match ip {
        Some(text) => text,
        None => to_ascii_lowercase(unbracketed),
    };
    Endpoint { host, port }
}

/// Canonical form of an endpoint: brackets removed, the host checked like a
/// profile host, IP addresses in canonical text and names in lower case.
pub fn canonicalize_endpoint(endpoint: &Endpoint) -> (r: Result<Endpoint, StorageError>)
    ensures
        match canonical_endpoint_outcome(endpoint.host@, endpoint.port) {
            Some((h, p)) => r is Ok && r->Ok_0.host@ == h && r->Ok_0.port == p,
            None => r == Err::<Endpoint, StorageError>(StorageError::InvalidEndpoint),
        },
{
    if endpoint.port == 0 {
        return Err(StorageError::InvalidEndpoint);
    }
    let unbracketed = unbracketed_host(endpoint.host.as_str());
    if !host_bytes_ok(unbracketed.as_str()) {
        return Err(StorageError::InvalidEndpoint);
    }
    let ip = parse_ip_canonical(unbracketed.as_str());
    Ok(canonical_endpoint_from(unbracketed.as_str(), endpoint.port, ip))
}


/// A text whose UTF-8 bytes are all ASCII has ASCII characters only.
proof fn lemma_ascii_bytes_are_ascii_chars(u: Seq<char>)
    requires
        forall|i: int| 0 <= i < encode_utf8(u).len() ==> #[trigger] encode_utf8(u)[i] < 128,
    ensures
        forall|i: int| 0 <= i < u.len() ==> (#[trigger] u[i] as u32) < 128,
    decreases u.len(),
{
    if u.len() > 0 {
        let c = u[0] as u32;
        let rest = u.drop_first();
        let e = encode_utf8(u);
        assert(e == vstd::utf8::encode_scalar(c) + encode_utf8(rest));
        if c >= 0x80 {
            assert(e[0] == vstd::utf8::encode_scalar(c)[0]);
            assert(vstd::utf8::leading_byte_width_2(c) >= 128) by (bit_vector);
            assert(vstd::utf8::leading_byte_width_3(c) >= 128) by (bit_vector);
            assert(vstd::utf8::leading_byte_width_4(c) >= 128) by (bit_vector);
            assert(false);
        }
        let n = vstd::utf8::encode_scalar(c).len();
        assert forall|i: int| 0 <= i < encode_utf8(rest).len() implies #[trigger] encode_utf8(rest)[i] < 128 by {
            assert(encode_utf8(rest)[i] == e[i + n]);
        }
        lemma_ascii_bytes_are_ascii_chars(rest);
        assert forall|i: int| 0 <= i < u.len() implies (#[trigger] u[i] as u32) < 128 by {
            if i > 0 {
                assert(u[i] == rest[i - 1]);
            }
        }
    }
}

/// The UTF-8 bytes of an ASCII text are its characters, one byte each.
proof fn lemma_ascii_encoding(u: Seq<char>)
    requires
        forall|i: int| 0 <= i < u.len() ==> (#[trigger] u[i] as u32) < 128,
    ensures
        encode_utf8(u).len() == u.len(),
        forall|i: int| 0 <= i < u.len() ==> #[trigger] encode_utf8(u)[i] == u[i] as u32,
    decreases u.len(),
{
    if u.len() > 0 {
        let c = u[0] as u32;
        let rest = u.drop_first();
        assert(c < 128);
        assert(c & 0x7Fu32 == c) by (bit_vector)
            requires
                c < 128,
        ;
        assert forall|i: int| 0 <= i < rest.len() implies (#[trigger] rest[i] as u32) < 128 by {
            assert(rest[i] == u[i + 1]);
        }
        lemma_ascii_encoding(rest);
        let e = encode_utf8(u);
        assert(e == seq![(c & 0x7Fu32) as u8] + encode_utf8(rest));
        assert forall|i: int| 0 <= i < u.len() implies #[trigger] encode_utf8(u)[i] == u[i] as u32 by {
            if i > 0 {
                assert(u[i] == rest[i - 1]);
                assert(e[i] == encode_utf8(rest)[i - 1]);
            }
        }
    }
}

/// A canonical host name that reads as no IP address is its own canonical
/// form: canonicalizing an endpoint a second time changes nothing, as long
/// as the first pass left no enclosing brackets on the host.
pub proof fn law_canonical_name_is_stable(host: Seq<char>, port: u16, h: Seq<char>, p: u16)
    requires
        canonical_endpoint_outcome(host, port) == Some((h, p)),
        ip_canonical_text(unbracket(host)) is None,
        ip_canonical_text(h) is None,
        unbracket(h) == h,
    ensures
        canonical_endpoint_outcome(h, p) == Some((h, p)),
{
    let u = unbracket(host);
    assert(h == ascii_lowercase_seq(u));
    let e = encode_utf8(u);
    assert forall|i: int| 0 <= i < e.len() implies #[trigger] e[i] < 128 by {
        assert(!crate::model::forbidden_host_byte(e[i]));
    }
    lemma_ascii_bytes_are_ascii_chars(u);
    lemma_ascii_encoding(u);
    assert forall|i: int| 0 <= i < h.len() implies (#[trigger] h[i] as u32) < 128 by {
        assert(h[i] == crate::text::ascii_lower(u[i]));
    }
    lemma_ascii_encoding(h);
    let f = encode_utf8(h);
    assert forall|i: int| 0 <= i < f.len() implies !crate::model::forbidden_host_byte(#[trigger] f[i]) by {
        assert(h[i] == crate::text::ascii_lower(u[i]));
        assert(!crate::model::forbidden_host_byte(e[i]));
    }
    assert(ascii_lowercase_seq(h) =~= h) by {
        assert forall|i: int| 0 <= i < h.len() implies crate::text::ascii_lower(h[i]) == h[i] by {
            assert(h[i] == crate::text::ascii_lower(u[i]));
        }
    }
}

/// The entry is stored under `host:port`.
pub open spec fn entry_at(e: KnownHostEntry, host: Seq<char>, port: u16) -> bool {
    e.host@ == host && e.port == port
}

/// Two entries carry the same key.
pub open spec fn same_key(a: KnownHostEntry, b: KnownHostEntry) -> bool {
    a.algorithm@ == b.algorithm@ && a.public_key@ == b.public_key@ && a.fingerprint_sha256@
        == b.fingerprint_sha256@
}

/// `i` is the first entry stored under `host:port`.
pub open spec fn is_first_match(hosts: Seq<KnownHostEntry>, host: Seq<char>, port: u16, i: int) -> bool {
    0 <= i < hosts.len() && entry_at(hosts[i], host, port) && forall|j: int|
        0 <= j < i ==> !entry_at(#[trigger] hosts[j], host, port)
}

/// Index of the first entry stored under `host:port`, or -1.
pub open spec fn first_index(hosts: Seq<KnownHostEntry>, host: Seq<char>, port: u16) -> int {
    if exists|i: int| is_first_match(hosts, host, port, i) {
        choose|i: int| is_first_match(hosts, host, port, i)
    } else {
        -1
    }
}

/// No two entries share an endpoint.
pub open spec fn unique_endpoints(hosts: Seq<KnownHostEntry>) -> bool {
    forall|i: int, j: int|
        0 <= i < j < hosts.len() ==> !entry_at(#[trigger] hosts[j], (#[trigger] hosts[i]).host@, hosts[i].port)
}

/// What `KnownHosts::lookup` returns for an endpoint.
pub open spec fn lookup_outcome(hosts: Seq<KnownHostEntry>, host: Seq<char>, port: u16) -> Result<
    Option<KnownHostEntry>,
    StorageError,
> {
    match canonical_endpoint_outcome(host, port) {
        None => Err(StorageError::InvalidEndpoint),
        Some((h, p)) => {
            let i = first_index(hosts, h, p);
            if i >= 0 {
                Ok(Some(hosts[i]))
            } else {
                Ok(None)
            }
        },
    }
}

/// `stored` is `entry` moved to the canonical endpoint `host:port`.
pub open spec fn stored_as(stored: KnownHostEntry, entry: KnownHostEntry, host: Seq<char>, port: u16) -> bool {
    &&& stored.host@ == host
    &&& stored.port == port
    &&& stored.algorithm@ == entry.algorithm@
    &&& stored.public_key@ == entry.public_key@
    &&& stored.fingerprint_sha256@ == entry.fingerprint_sha256@
    &&& stored.accepted_at_unix == entry.accepted_at_unix
}

/// How `KnownHosts::accept` changes the entries (`old` to `new`) and what it
/// returns (`Ok(true)` when the document must be written back).
pub open spec fn accept_outcome(
    old: Seq<KnownHostEntry>,
    entry: KnownHostEntry,
    new: Seq<KnownHostEntry>,
    r: Result<bool, StorageError>,
) -> bool {
    match canonical_endpoint_outcome(entry.host@, entry.port) {
        None => new == old && r == Err::<bool, StorageError>(StorageError::InvalidEndpoint),
        Some((h, p)) => {
            let i = first_index(old, h, p);
            if i >= 0 {
                &&& new == old
                &&& if same_key(old[i], entry) {
                    r == Ok::<bool, StorageError>(false)
                } else {
                    r == Err::<bool, StorageError>(StorageError::HostKeyConflict)
                }
            } else {
                &&& r == Ok::<bool, StorageError>(true)
                &&& new.len() == old.len() + 1
                &&& new.take(old.len() as int) == old
                &&& stored_as(new.last(), entry, h, p)
            }
        },
    }
}

/// `hosts` without the entries stored under `host:port`.
pub open spec fn without_endpoint(hosts: Seq<KnownHostEntry>, host: Seq<char>, port: u16) -> Seq<
    KnownHostEntry,
>
    decreases hosts.len(),
{
    if hosts.len() == 0 {
        hosts
    } else {
        let rest = without_endpoint(hosts.drop_last(), host, port);
        if entry_at(hosts.last(), host, port) {
            rest
        } else {
            rest.push(hosts.last())
        }
    }
}

/// How `KnownHosts::delete` changes the entries and what it returns
/// (`Ok(true)` when something was removed).
pub open spec fn delete_outcome(
    old: Seq<KnownHostEntry>,
    host: Seq<char>,
    port: u16,
    new: Seq<KnownHostEntry>,
    r: Result<bool, StorageError>,
) -> bool {
    match canonical_endpoint_outcome(host, port) {
        None => new == old && r == Err::<bool, StorageError>(StorageError::InvalidEndpoint),
        Some((h, p)) => {
            &&& new == without_endpoint(old, h, p)
            &&& r == Ok::<bool, StorageError>(exists|i: int| 0 <= i < old.len() && entry_at(#[trigger] old[i], h, p))
        },
    }
}

/// Index of the first entry stored under `host:port`, if any.
fn find_entry(hosts: &Vec<KnownHostEntry>, host: &String, port: u16) -> (r: Option<usize>)
    ensures
        match r {
            Some(i) => is_first_match(hosts@, host@, port, i as int) && first_index(hosts@, host@, port) == i,
            None => first_index(hosts@, host@, port) == -1 && forall|j: int|
                0 <= j < hosts@.len() ==> !entry_at(#[trigger] hosts@[j], host@, port),
        },
{
    let mut k: usize = 0;
    while k < hosts.len()
        invariant
            k <= hosts@.len(),
            forall|j: int| 0 <= j < k ==> !entry_at(#[trigger] hosts@[j], host@, port),
        decreases hosts.len() - k,
    {
        if hosts[k].host == *host && hosts[k].port == port {
            proof {
                assert(is_first_match(hosts@, host@, port, k as int));
                let c = choose|i: int| is_first_match(hosts@, host@, port, i);
                if c < k {
                } else if c > k {
                    assert(!entry_at(hosts@[k as int], host@, port));
                }
            }
            return Some(k);
        }
        k = k + 1;
    }
    None
}

impl KnownHosts {
    /// The trusted key for an endpoint, looked up under its canonical form.
    pub fn lookup(&self, endpoint: &Endpoint) -> (r: Result<Option<KnownHostEntry>, StorageError>)
        ensures
            r == lookup_outcome(self.hosts@, endpoint.host@, endpoint.port),
    {
        let canonical = match canonicalize_endpoint(endpoint) {
            Ok(canonical) => canonical,
            Err(e) => {
                return Err(e);
            },
        };
        match find_entry(&self.hosts, &canonical.host, canonical.port) {
            Some(i) => Ok(Some(self.hosts[i].clone())),
            None => Ok(None),
        }
    }

    /// Trusts `entry`'s key for its canonical endpoint. The same key again is
    /// accepted without change; a different key for a trusted endpoint is a
    /// conflict: it must be deleted first. Returns whether the document
    /// changed and must be written back.
    pub fn accept(&mut self, entry: KnownHostEntry) -> (r: Result<bool, StorageError>)
        ensures
            final(self).schema_version == old(self).schema_version,
            accept_outcome(old(self).hosts@, entry, final(self).hosts@, r),
    {
        let canonical = match canonicalize_endpoint(&entry.endpoint()) {
            Ok(canonical) => canonical,
            Err(e) => {
                return Err(e);
            },
        };
        match find_entry(&self.hosts, &canonical.host, canonical.port) {
            Some(i) => {
                let existing = &self.hosts[i];
                if existing.algorithm == entry.algorithm && existing.public_key == entry.public_key
                    && existing.fingerprint_sha256 == entry.fingerprint_sha256 {
                    Ok(false)
                } else {
                    Err(StorageError::HostKeyConflict)
                }
            },
            None => {
                let stored = KnownHostEntry {
                    host: canonical.host,
                    port: canonical.port,
                    algorithm: entry.algorithm,
                    public_key: entry.public_key,
                    fingerprint_sha256: entry.fingerprint_sha256,
                    accepted_at_unix: entry.accepted_at_unix,
                };
                let ghost before = self.hosts@;
                self.hosts.push(stored);
                assert(self.hosts@.take(before.len() as int) =~= before);
                Ok(true)
            },
        }
    }

    /// Forgets every key stored under the canonical form of `endpoint`.
    /// Returns whether anything was removed.
    pub fn delete(&mut self, endpoint: &Endpoint) -> (r: Result<bool, StorageError>)
        ensures
            final(self).schema_version == old(self).schema_version,
            delete_outcome(old(self).hosts@, endpoint.host@, endpoint.port, final(self).hosts@, r),
    {
        let canonical = match canonicalize_endpoint(endpoint) {
            Ok(canonical) => canonical,
            Err(e) => {
                return Err(e);
            },
        };
        let ghost h = canonical.host@;
        let p = canonical.port;
        let mut kept: Vec<KnownHostEntry> = Vec::new();
        let mut removed = false;
        let mut k: usize = 0;
        while k < self.hosts.len()
            invariant
                k <= self.hosts@.len(),
                h == canonical.host@,
                p == canonical.port,
                kept@ == without_endpoint(self.hosts@.take(k as int), h, p),
                removed == exists|i: int| 0 <= i < k && entry_at(#[trigger] self.hosts@[i], h, p),
            decreases self.hosts.len() - k,
        {
            let e = &self.hosts[k];
            proof {
                assert(self.hosts@.take(k + 1).drop_last() =~= self.hosts@.take(k as int));
                assert(self.hosts@.take(k + 1).last() == self.hosts@[k as int]);
            }
            if e.host == canonical.host && e.port == p {
                removed = true;
            } else {
                kept.push(e.clone());
            }
            k = k + 1;
        }
        proof {
            assert(self.hosts@.take(self.hosts@.len() as int) =~= self.hosts@);
        }
        self.hosts = kept;
        Ok(removed)
    }
}


/// Some entry stored under `host:port` makes a first such entry exist.
pub proof fn lemma_first_match_exists(hosts: Seq<KnownHostEntry>, host: Seq<char>, port: u16, i: int)
    requires
        0 <= i < hosts.len(),
        entry_at(hosts[i], host, port),
    ensures
        exists|k: int| is_first_match(hosts, host, port, k),
        0 <= first_index(hosts, host, port) <= i,
        is_first_match(hosts, host, port, first_index(hosts, host, port)),
    decreases i,
{
    if exists|j: int| 0 <= j < i && entry_at(#[trigger] hosts[j], host, port) {
        let j = choose|j: int| 0 <= j < i && entry_at(#[trigger] hosts[j], host, port);
        lemma_first_match_exists(hosts, host, port, j);
    } else {
        assert(is_first_match(hosts, host, port, i));
        lemma_first_match_unique(hosts, host, port, i);
    }
}

/// There is at most one first entry for an endpoint.
pub proof fn lemma_first_match_unique(hosts: Seq<KnownHostEntry>, host: Seq<char>, port: u16, i: int)
    requires
        is_first_match(hosts, host, port, i),
    ensures
        first_index(hosts, host, port) == i,
{
    let c = choose|k: int| is_first_match(hosts, host, port, k);
    assert(is_first_match(hosts, host, port, c));
    if c < i {
        assert(!entry_at(hosts[c], host, port));
    } else if c > i {
        assert(!entry_at(hosts[i], host, port));
    }
}

/// No entry of `without_endpoint(hosts, host, port)` is stored under `host:port`.
pub proof fn lemma_without_endpoint_has_none(hosts: Seq<KnownHostEntry>, host: Seq<char>, port: u16)
    ensures
        forall|j: int|
            0 <= j < without_endpoint(hosts, host, port).len() ==> !entry_at(
                #[trigger] without_endpoint(hosts, host, port)[j],
                host,
                port,
            ),
    decreases hosts.len(),
{
    if hosts.len() > 0 {
        let rest = without_endpoint(hosts.drop_last(), host, port);
        lemma_without_endpoint_has_none(hosts.drop_last(), host, port);
        let w = without_endpoint(hosts, host, port);
        assert forall|j: int| 0 <= j < w.len() implies !entry_at(#[trigger] w[j], host, port) by {
            if j < rest.len() {
                assert(w[j] == rest[j]);
            }
        }
    }
}

/// Read after write: once a key is accepted, looking up the same endpoint
/// returns that key.
pub proof fn law_accepted_key_is_found(
    old: Seq<KnownHostEntry>,
    entry: KnownHostEntry,
    new: Seq<KnownHostEntry>,
    r: Result<bool, StorageError>,
)
    requires
        accept_outcome(old, entry, new, r),
        r is Ok,
    ensures
        lookup_outcome(new, entry.host@, entry.port) matches Ok(Some(found)) && same_key(found, entry),
{
    let (h, p) = canonical_endpoint_outcome(entry.host@, entry.port)->Some_0;
    let i = first_index(old, h, p);
    if i >= 0 {
        assert(is_first_match(old, h, p, i));
    } else {
        let n = old.len() as int;
        assert forall|j: int| 0 <= j < n implies !entry_at(#[trigger] new[j], h, p) by {
            assert(new[j] == new.take(n)[j]);
            if entry_at(old[j], h, p) {
                lemma_first_match_exists(old, h, p, j);
            }
        }
        assert(is_first_match(new, h, p, n));
        lemma_first_match_unique(new, h, p, n);
    }
}

/// Accepting the same key twice changes nothing the second time and asks
/// for no write.
pub proof fn law_accept_is_idempotent(
    old: Seq<KnownHostEntry>,
    entry: KnownHostEntry,
    mid: Seq<KnownHostEntry>,
    first: Result<bool, StorageError>,
    new: Seq<KnownHostEntry>,
    second: Result<bool, StorageError>,
)
    requires
        accept_outcome(old, entry, mid, first),
        first is Ok,
        accept_outcome(mid, entry, new, second),
    ensures
        second == Ok::<bool, StorageError>(false),
        new == mid,
{
    law_accepted_key_is_found(old, entry, mid, first);
    let (h, p) = canonical_endpoint_outcome(entry.host@, entry.port)->Some_0;
    assert(first_index(mid, h, p) >= 0);
}

/// A different key for a trusted endpoint is refused and nothing changes:
/// replacing a trusted key requires deleting it first.
pub proof fn law_changed_key_is_refused(
    old: Seq<KnownHostEntry>,
    entry: KnownHostEntry,
    new: Seq<KnownHostEntry>,
    r: Result<bool, StorageError>,
    trusted: KnownHostEntry,
)
    requires
        accept_outcome(old, entry, new, r),
        lookup_outcome(old, entry.host@, entry.port) == Ok::<Option<KnownHostEntry>, StorageError>(Some(trusted)),
        !same_key(trusted, entry),
    ensures
        r == Err::<bool, StorageError>(StorageError::HostKeyConflict),
        new == old,
{
}

/// After deleting an endpoint, looking it up finds nothing.
pub proof fn law_deleted_endpoint_is_forgotten(
    old: Seq<KnownHostEntry>,
    host: Seq<char>,
    port: u16,
    new: Seq<KnownHostEntry>,
    r: Result<bool, StorageError>,
)
    requires
        delete_outcome(old, host, port, new, r),
        r is Ok,
    ensures
        lookup_outcome(new, host, port) == Ok::<Option<KnownHostEntry>, StorageError>(None),
{
    let (h, p) = canonical_endpoint_outcome(host, port)->Some_0;
    lemma_without_endpoint_has_none(old, h, p);
    if exists|k: int| is_first_match(new, h, p, k) {
        let k = choose|k: int| is_first_match(new, h, p, k);
        assert(entry_at(new[k], h, p));
    }
}

/// Accepting keeps every endpoint stored at most once.
pub proof fn law_accept_keeps_endpoints_unique(
    old: Seq<KnownHostEntry>,
    entry: KnownHostEntry,
    new: Seq<KnownHostEntry>,
    r: Result<bool, StorageError>,
)
    requires
        unique_endpoints(old),
        accept_outcome(old, entry, new, r),
    ensures
        unique_endpoints(new),
{
    if new != old {
        let (h, p) = canonical_endpoint_outcome(entry.host@, entry.port)->Some_0;
        let n = old.len() as int;
        assert forall|i: int, j: int| 0 <= i < j < new.len() implies !entry_at(
            #[trigger] new[j],
            (#[trigger] new[i]).host@,
            new[i].port,
        ) by {
            assert(new[i] == new.take(n)[i]);
            if j < n {
                assert(new[j] == new.take(n)[j]);
            } else {
                if entry_at(new[j], new[i].host@, new[i].port) {
                    assert(entry_at(old[i], h, p));
                    lemma_first_match_exists(old, h, p, i);
                }
            }
        }
    }
}

/// Deleting an endpoint keeps every entry stored under another host or
/// port.
proof fn lemma_delete_keeps_other_endpoints(hosts: Seq<KnownHostEntry>, host: Seq<char>, port: u16, k: int)
    requires
        0 <= k < hosts.len(),
        !(hosts[k].host@ == host && hosts[k].port == port),
    ensures
        without_endpoint(hosts, host, port).contains(hosts[k]),
    decreases hosts.len(),
{
    let rest = without_endpoint(hosts.drop_last(), host, port);
    if k == hosts.len() - 1 {
        assert(rest.push(hosts.last())[rest.len() as int] == hosts[k]);
    } else {
        assert(hosts.drop_last()[k] == hosts[k]);
        lemma_delete_keeps_other_endpoints(hosts.drop_last(), host, port, k);
        let m = choose|m: int| 0 <= m < rest.len() && rest[m] == hosts[k];
        if !entry_at(hosts.last(), host, port) {
            assert(rest.push(hosts.last())[m] == hosts[k]);
        }
    }
}

/// Known-host entries belong to one exact canonical host and port: a
/// lookup only finds an entry of that host and port; accepting a key
/// reports a conflict only against an entry of that host and port, and
/// adds the key when there is none (whatever is stored for other ports);
/// deleting keeps every entry of another host or port.
pub proof fn law_known_hosts_match_exact_endpoint(
    hosts: Seq<KnownHostEntry>,
    host: Seq<char>,
    port: u16,
    entry: KnownHostEntry,
    accepted: Seq<KnownHostEntry>,
    ra: Result<bool, StorageError>,
    deleted: Seq<KnownHostEntry>,
    rd: Result<bool, StorageError>,
)
    requires
        accept_outcome(hosts, entry, accepted, ra),
        delete_outcome(hosts, host, port, deleted, rd),
    ensures
        lookup_outcome(hosts, host, port) matches Ok(Some(e)) ==> (canonical_endpoint_outcome(host, port)
            matches Some((h, p)) && e.host@ == h && e.port == p),
        lookup_outcome(hosts, host, port) == Ok::<Option<KnownHostEntry>, StorageError>(None)
            ==> (canonical_endpoint_outcome(host, port) matches Some((h, p)) && forall|k: int|
            0 <= k < hosts.len() ==> !(#[trigger] hosts[k].host@ == h && hosts[k].port == p)),
        canonical_endpoint_outcome(entry.host@, entry.port) matches Some((h, p)) ==> {
            &&& (forall|k: int| 0 <= k < hosts.len() ==> !(#[trigger] hosts[k].host@ == h && hosts[k].port == p))
                ==> ra == Ok::<bool, StorageError>(true) && accepted.last().host@ == h && accepted.last().port == p
            &&& ra == Err::<bool, StorageError>(StorageError::HostKeyConflict) ==> exists|k: int|
                0 <= k < hosts.len() && #[trigger] hosts[k].host@ == h && hosts[k].port == p
        },
        canonical_endpoint_outcome(host, port) matches Some((h, p)) ==> forall|k: int|
            0 <= k < hosts.len() && !(#[trigger] hosts[k].host@ == h && hosts[k].port == p)
                ==> deleted.contains(hosts[k]),
{
    if let Some((h, p)) = canonical_endpoint_outcome(host, port) {
        let i = first_index(hosts, h, p);
        if i >= 0 {
            let c = choose|c: int| is_first_match(hosts, h, p, c);
        } else {
            assert forall|k: int| 0 <= k < hosts.len() implies !(#[trigger] hosts[k].host@ == h && hosts[k].port == p) by {
                if hosts[k].host@ == h && hosts[k].port == p {
                    if !is_first_match(hosts, h, p, k) {
                        let j = choose|j: int| 0 <= j < k && entry_at(#[trigger] hosts[j], h, p);
                        lemma_some_first_match(hosts, h, p, j);
                    } else {
                        assert(exists|c: int| is_first_match(hosts, h, p, c));
                    }
                }
            }
        }
        assert forall|k: int| 0 <= k < hosts.len() && !(#[trigger] hosts[k].host@ == h && hosts[k].port == p)
            implies deleted.contains(hosts[k]) by {
            lemma_delete_keeps_other_endpoints(hosts, h, p, k);
        }
    }
    if let Some((h, p)) = canonical_endpoint_outcome(entry.host@, entry.port) {
        let i = first_index(hosts, h, p);
        if i >= 0 {
            let c = choose|c: int| is_first_match(hosts, h, p, c);
            assert(hosts[c].host@ == h && hosts[c].port == p);
        } else if exists|k: int| 0 <= k < hosts.len() && #[trigger] hosts[k].host@ == h && hosts[k].port == p {
            let k = choose|k: int| 0 <= k < hosts.len() && #[trigger] hosts[k].host@ == h && hosts[k].port == p;
            lemma_some_first_match(hosts, h, p, k);
        }
    }
}

/// When some entry is stored under `host:port`, a first one is.
proof fn lemma_some_first_match(hosts: Seq<KnownHostEntry>, host: Seq<char>, port: u16, k: int)
    requires
        0 <= k < hosts.len(),
        entry_at(hosts[k], host, port),
    ensures
        first_index(hosts, host, port) >= 0,
    decreases k,
{
    if exists|j: int| 0 <= j < k && entry_at(#[trigger] hosts[j], host, port) {
        let j = choose|j: int| 0 <= j < k && entry_at(#[trigger] hosts[j], host, port);
        lemma_some_first_match(hosts, host, port, j);
    } else {
        assert(is_first_match(hosts, host, port, k));
    }
}

} // verus!
