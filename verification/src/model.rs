//! Connection profiles, endpoints, credential references and settings,
//! together with the profile validation rules.

use vstd::prelude::*;
use vstd::utf8::encode_utf8;

use crate::text::{trim, trim_seq};

verus! {

/// Lower-case hexadecimal digit for a value below 16.
pub open spec fn hex_digit(d: int) -> char {
    if d < 10 {
        (48 + d) as char
    } else {
        (87 + d) as char
    }
}

/// Index, among the 32 hex digits, of the character at position `p` of a
/// hyphenated UUID (the hyphens stand at 8, 13, 18 and 23).
pub open spec fn uuid_digit_index(p: int) -> int {
    if p < 8 {
        p
    } else if p < 13 {
        p - 1
    } else if p < 18 {
        p - 2
    } else if p < 23 {
        p - 3
    } else {
        p - 4
    }
}

/// The hyphenated lower-case form `xxxxxxxx-xxxx-xxxx-xxxx-xxxxxxxxxxxx` of
/// a UUID given as its 128-bit big-endian value.
pub open spec fn hyphenated_uuid(id: u128) -> Seq<char> {
    Seq::new(
        36,
        |p: int|
            if p == 8 || p == 13 || p == 18 || p == 23 {
                '-'
            } else {
                hex_digit(
                    ((id as int) / vstd::arithmetic::power2::pow2(
                        (4 * (31 - uuid_digit_index(p))) as nat,
                    ) as int) % 16,
                )
            },
    )
}

/// Formats a UUID (`uuid::Uuid::from_u128` then its `Display`): the result
/// is the hyphenated lower-case text of the value.
#[verifier::external_body]
fn uuid_text(id: u128) -> (r: String)
    ensures
        r@ == hyphenated_uuid(id),
{
    uuid::Uuid::from_u128(id).to_string()
}

/// A fresh random version-4 UUID (`uuid::Uuid::new_v4`), as its 128-bit
/// value. Nothing is promised of it but the version nibble (4) and the
/// RFC 4122 variant bits (binary 10).
#[verifier::external_body]
pub(crate) fn random_uuid() -> (r: u128)
    ensures
        (r >> 76u128) & 0xfu128 == 4,
        (r >> 62u128) & 0x3u128 == 2,
{
    uuid::Uuid::new_v4().as_u128()
}

/// Identifier of a saved profile.
#[derive(Clone, Copy, Debug, PartialEq, Eq, Hash, Structural)]
pub struct ProfileId(pub u128);

impl ProfileId {
    /// A fresh random identifier.
    pub fn new() -> (r: Self)
        ensures
            (r.0 >> 76u128) & 0xfu128 == 4,
            (r.0 >> 62u128) & 0x3u128 == 2,
    {
        ProfileId(random_uuid())
    }
}

/// Identifier of a live SSH session.
#[derive(Clone, Copy, Debug, PartialEq, Eq, Hash, Structural)]
pub struct SessionId(pub u128);

impl SessionId {
    /// A fresh random identifier.
    pub fn new() -> (r: Self)
        ensures
            (r.0 >> 76u128) & 0xfu128 == 4,
            (r.0 >> 62u128) & 0x3u128 == 2,
    {
        SessionId(random_uuid())
    }
}

/// Reference to a secret kept in the platform credential store.
#[derive(Debug, PartialEq, Eq, Hash)]
pub struct CredentialRef(pub String);

impl Clone for CredentialRef {
    fn clone(&self) -> (r: Self)
        ensures
            r == *self,
    {
        CredentialRef(self.0.clone())
    }
}

/// The reference under which the password of profile `id` is kept.
pub open spec fn password_ref_text(id: ProfileId) -> Seq<char> {
    "profile/"@ + hyphenated_uuid(id.0) + "/password"@
}

/// The reference under which the private-key passphrase of profile `id` is kept.
pub open spec fn passphrase_ref_text(id: ProfileId) -> Seq<char> {
    "profile/"@ + hyphenated_uuid(id.0) + "/private-key-passphrase"@
}

impl CredentialRef {
    pub fn as_str(&self) -> (r: &str)
        ensures
            r@ == self.0@,
    {
        self.0.as_str()
    }

    /// `profile/<id>/password`.
    pub fn password(profile_id: ProfileId) -> (r: Self)
        ensures
            r.0@ == password_ref_text(profile_id),
    {
        let mut text = String::from_str("profile/");
        let id = uuid_text(profile_id.0);
        text.append(id.as_str());
        text.append("/password");
        proof {
            reveal_strlit("profile/");
            reveal_strlit("/password");
        }
        CredentialRef(text)
    }

    /// `profile/<id>/private-key-passphrase`.
    pub fn private_key_passphrase(profile_id: ProfileId) -> (r: Self)
        ensures
            r.0@ == passphrase_ref_text(profile_id),
    {
        let mut text = String::from_str("profile/");
        let id = uuid_text(profile_id.0);
        text.append(id.as_str());
        text.append("/private-key-passphrase");
        proof {
            reveal_strlit("profile/");
            reveal_strlit("/private-key-passphrase");
        }
        CredentialRef(text)
    }
}

/// A `host:port` pair.
#[derive(Debug, PartialEq, Eq, Hash)]
pub struct Endpoint {
    pub host: String,
    pub port: u16,
}

impl Clone for Endpoint {
    fn clone(&self) -> (r: Self)
        ensures
            r == *self,
    {
        Endpoint { host: self.host.clone(), port: self.port }
    }
}

/// How a profile authenticates.
#[derive(Debug, PartialEq, Eq)]
pub enum AuthConfig {
    Password { credential_ref: Option<CredentialRef> },
    PrivateKey { path: String, passphrase_ref: Option<CredentialRef> },
    Agent,
}

impl Clone for AuthConfig {
    fn clone(&self) -> (r: Self)
        ensures
            r == *self,
    {
        match self {
            AuthConfig::Password { credential_ref } => AuthConfig::Password {
                credential_ref: clone_reference(credential_ref),
            },
            AuthConfig::PrivateKey { path, passphrase_ref } => AuthConfig::PrivateKey {
                path: path.clone(),
                passphrase_ref: clone_reference(passphrase_ref),
            },
            AuthConfig::Agent => AuthConfig::Agent,
        }
    }
}

/// A copy of an optional credential reference.
pub fn clone_reference(r: &Option<CredentialRef>) -> (c: Option<CredentialRef>)
    ensures
        c == *r,
{
    match r {
        Some(reference) => Some(reference.clone()),
        None => None,
    }
}

/// A saved SSH connection configuration.
#[derive(Debug, PartialEq, Eq)]
pub struct ConnectionProfile {
    pub id: ProfileId,
    pub name: String,
    pub endpoint: Endpoint,
    pub username: String,
    pub auth: AuthConfig,
}

impl Clone for ConnectionProfile {
    fn clone(&self) -> (r: Self)
        ensures
            r == *self,
    {
        ConnectionProfile {
            id: self.id,
            name: self.name.clone(),
            endpoint: self.endpoint.clone(),
            username: self.username.clone(),
            auth: self.auth.clone(),
        }
    }
}

/// Which field of a profile is invalid.
#[derive(Clone, Copy, Debug, PartialEq, Eq, Structural)]
pub enum ProfileValidationError {
    Name,
    Host,
    Username,
    Port,
    PrivateKeyPath,
}

/// A byte that a host may not contain: non-ASCII, ASCII whitespace, NUL,
/// `/` or `\`.
pub open spec fn forbidden_host_byte(b: u8) -> bool {
    b >= 128 || b == 9 || b == 10 || b == 12 || b == 13 || b == 32 || b == 0 || b == 47 || b
        == 92
}

/// A host is 1 to 253 bytes, none of them forbidden.
pub open spec fn valid_host_bytes(b: Seq<u8>) -> bool {
    1 <= b.len() <= 253 && forall|i: int| 0 <= i < b.len() ==> !forbidden_host_byte(#[trigger] b[i])
}

/// A user name is 1 to 255 bytes, with no NUL, CR or LF.
pub open spec fn valid_username_bytes(b: Seq<u8>) -> bool {
    1 <= b.len() <= 255 && forall|i: int|
        0 <= i < b.len() ==> #[trigger] b[i] != 0 && b[i] != 13 && b[i] != 10
}

/// A name has 1 to 64 characters once trimmed.
pub open spec fn valid_name(s: Seq<char>) -> bool {
    1 <= trim_seq(s).len() <= 64
}

/// The outcome of `ConnectionProfile::validate`: the first rule, in the
/// order name, host, username, port, private-key path, that fails.
pub open spec fn validation_outcome(p: ConnectionProfile) -> Result<(), ProfileValidationError> {
    if !valid_name(p.name@) {
        Err(ProfileValidationError::Name)
    } else if !valid_host_bytes(encode_utf8(p.endpoint.host@)) {
        Err(ProfileValidationError::Host)
    } else if !valid_username_bytes(encode_utf8(p.username@)) {
        Err(ProfileValidationError::Username)
    } else if p.endpoint.port == 0 {
        Err(ProfileValidationError::Port)
    } else if p.auth is PrivateKey && p.auth->path@.len() == 0 {
        Err(ProfileValidationError::PrivateKeyPath)
    } else {
        Ok(())
    }
}

/// Whether the bytes of a host are acceptable.
pub fn host_bytes_ok(host: &str) -> (b: bool)
    ensures
        b == valid_host_bytes(encode_utf8(host@)),
{
    let bytes = host.as_bytes();
    if bytes.len() == 0 || bytes.len() > 253 {
        return false;
    }
    let mut i: usize = 0;
    while i < bytes.len()
        invariant
            i <= bytes@.len(),
            bytes@ == encode_utf8(host@),
            forall|j: int| 0 <= j < i ==> !forbidden_host_byte(#[trigger] bytes@[j]),
        decreases bytes.len() - i,
    {
        let b = bytes[i];
        if b >= 128 || b == 9 || b == 10 || b == 12 || b == 13 || b == 32 || b == 0 || b == 47
            || b == 92 {
            return false;
        }
        i = i + 1;
    }
    true
}

/// Whether the bytes of a user name are acceptable.
pub fn username_bytes_ok(username: &str) -> (b: bool)
    ensures
        b == valid_username_bytes(encode_utf8(username@)),
{
    let bytes = username.as_bytes();
    if bytes.len() == 0 || bytes.len() > 255 {
        return false;
    }
    let mut i: usize = 0;
    while i < bytes.len()
        invariant
            i <= bytes@.len(),
            bytes@ == encode_utf8(username@),
            forall|j: int| 0 <= j < i ==> #[trigger] bytes@[j] != 0 && bytes@[j] != 13 && bytes@[j] != 10,
        decreases bytes.len() - i,
    {
        let b = bytes[i];
        if b == 0 || b == 13 || b == 10 {
            return false;
        }
        i = i + 1;
    }
    true
}

impl ConnectionProfile {
    /// Checks the profile against the rules of a saved connection.
    pub fn validate(&self) -> (r: Result<(), ProfileValidationError>)
        ensures
            r == validation_outcome(*self),
    {
        let name = trim(self.name.as_str());
        let name_len = name.as_str().unicode_len();
        if name_len < 1 || name_len > 64 {
            return Err(ProfileValidationError::Name);
        }
        if !host_bytes_ok(self.endpoint.host.as_str()) {
            return Err(ProfileValidationError::Host);
        }
        if !username_bytes_ok(self.username.as_str()) {
            return Err(ProfileValidationError::Username);
        }
        if self.endpoint.port == 0 {
            return Err(ProfileValidationError::Port);
        }
        if let AuthConfig::PrivateKey { path, .. } = &self.auth {
            if path.as_str().unicode_len() == 0 {
                return Err(ProfileValidationError::PrivateKeyPath);
            }
        }
        Ok(())
    }
}

/// Size of the remote pseudo-terminal.
#[derive(Clone, Copy, Debug, PartialEq, Eq, Structural)]
pub struct TerminalSize {
    pub columns: u32,
    pub rows: u32,
    pub pixel_width: u32,
    pub pixel_height: u32,
}

impl TerminalSize {
    /// A size is usable when it has at least one column and one row.
    pub fn is_valid(self) -> (b: bool)
        ensures
            b == (self.columns > 0 && self.rows > 0),
    {
        self.columns > 0 && self.rows > 0
    }
}

/// The language setting.
#[derive(Clone, Copy, Debug, PartialEq, Eq, Structural)]
pub enum LocaleSetting {
    System,
    EnUs,
    ZhCn,
}

impl Default for LocaleSetting {
    fn default() -> (r: Self)
        ensures
            r == LocaleSetting::System,
    {
        LocaleSetting::System
    }
}

/// The theme setting.
#[derive(Clone, Copy, Debug, PartialEq, Eq, Structural)]
pub enum ThemeSetting {
    System,
    Light,
    Dark,
}

impl Default for ThemeSetting {
    fn default() -> (r: Self)
        ensures
            r == ThemeSetting::System,
    {
        ThemeSetting::System
    }
}

/// User preferences.
#[derive(Clone, Copy, Debug, PartialEq, Eq, Structural)]
pub struct AppSettings {
    pub locale: LocaleSetting,
    pub theme: ThemeSetting,
}

impl Default for AppSettings {
    fn default() -> (r: Self)
        ensures
            r == (AppSettings { locale: LocaleSetting::System, theme: ThemeSetting::System }),
    {
        AppSettings { locale: LocaleSetting::System, theme: ThemeSetting::System }
    }
}

/// A profile whose name and host pass is refused for its user name exactly
/// when the user name's UTF-8 bytes are empty, more than 255, or include a
/// NUL, CR or LF; every other byte (a `-`, a `.`, a space) is accepted.
pub proof fn law_username_refused_only_for_nul_cr_lf_or_length(p: ConnectionProfile)
    requires
        valid_name(p.name@),
        valid_host_bytes(encode_utf8(p.endpoint.host@)),
    ensures
        ({
            let u = encode_utf8(p.username@);
            (validation_outcome(p) == Err::<(), ProfileValidationError>(ProfileValidationError::Username)) <==> !(1
                <= u.len() <= 255 && forall|i: int| 0 <= i < u.len() ==> u[i] != 0u8 && u[i] != 13u8 && u[i] != 10u8)
        }),
{
}

} // verus!
