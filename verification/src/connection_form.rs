//! The add/edit connection form: its fields, the port text, and the save
//! request it produces.

use vstd::prelude::*;
use vstd::utf8::encode_utf8;

use crate::credentials::{SaveProfileRequest, SecretString, secret_text};
use crate::model::{
    clone_reference, valid_host_bytes, valid_name, valid_username_bytes, validation_outcome,
    AuthConfig, ConnectionProfile, CredentialRef, Endpoint, ProfileId, ProfileValidationError,
};
use crate::credentials::auth_reference;
use crate::text::{chars_of, is_whitespace_char, lemma_leading_ws_at, lemma_trailing_ws_at, string_from_chars, trim, trim_seq};

verus! {

/// An ASCII decimal digit.
pub open spec fn is_ascii_digit(c: char) -> bool {
    48 <= (c as u32) <= 57
}

/// Every character is an ASCII decimal digit.
pub open spec fn all_digits(s: Seq<char>) -> bool {
    forall|i: int| 0 <= i < s.len() ==> is_ascii_digit(#[trigger] s[i])
}

/// The value of a string of decimal digits.
pub open spec fn digits_value(s: Seq<char>) -> nat
    decreases s.len(),
{
    if s.len() == 0 {
        0
    } else {
        digits_value(s.drop_last()) * 10 + ((s.last() as u32) - 48) as nat
    }
}

/// The digits of an unsigned number: a leading `+` is allowed.
pub open spec fn unsigned_digits(s: Seq<char>) -> Seq<char> {
    if s.len() > 0 && s[0] == '+' {
        s.drop_first()
    } else {
        s
    }
}

/// What `str::parse::<u16>` gives: an optional `+`, then at least one
/// decimal digit, for a value that fits in 16 bits.
pub open spec fn parsed_u16(s: Seq<char>) -> Option<u16> {
    let d = unsigned_digits(s);
    if d.len() > 0 && all_digits(d) && digits_value(d) <= 65535 {
        Some(digits_value(d) as u16)
    } else {
        None
    }
}

/// The port a form's port text stands for: trimmed, parsed, and not zero.
pub open spec fn port_outcome(text: Seq<char>) -> Option<u16> {
    let parsed = parsed_u16(trim_seq(text));
    if parsed is Some && parsed->0 != 0 {
        parsed
    } else {
        None
    }
}

/// The character of a decimal digit.
pub open spec fn digit_char(d: nat) -> char {
    if d == 0 {
        '0'
    } else if d == 1 {
        '1'
    } else if d == 2 {
        '2'
    } else if d == 3 {
        '3'
    } else if d == 4 {
        '4'
    } else if d == 5 {
        '5'
    } else if d == 6 {
        '6'
    } else if d == 7 {
        '7'
    } else if d == 8 {
        '8'
    } else {
        '9'
    }
}

/// The decimal text of a number, without sign or leading zeros.
pub open spec fn decimal_text(n: nat) -> Seq<char>
    decreases n,
{
    if n < 10 {
        seq![digit_char(n)]
    } else {
        decimal_text(n / 10).push(digit_char(n % 10))
    }
}

/// A prefix of digits is worth no more than the whole.
pub proof fn lemma_digits_prefix_bound(s: Seq<char>, i: int)
    requires
        0 <= i <= s.len(),
        all_digits(s),
    ensures
        digits_value(s.take(i)) <= digits_value(s),
    decreases s.len() - i,
{
    if i < s.len() {
        lemma_digits_prefix_bound(s, i + 1);
        assert(s.take(i + 1).drop_last() =~= s.take(i));
        assert(is_ascii_digit(s[i]));
    } else {
        assert(s.take(i) =~= s);
    }
}

fn digit_of(d: u16) -> (c: char)
    requires
        d < 10,
    ensures
        c == digit_char(d as nat),
{
    if d == 0 {
        '0'
    } else if d == 1 {
        '1'
    } else if d == 2 {
        '2'
    } else if d == 3 {
        '3'
    } else if d == 4 {
        '4'
    } else if d == 5 {
        '5'
    } else if d == 6 {
        '6'
    } else if d == 7 {
        '7'
    } else if d == 8 {
        '8'
    } else {
        '9'
    }
}

fn decimal_chars(n: u16) -> (v: Vec<char>)
    ensures
        v@ == decimal_text(n as nat),
    decreases n,
{
    let digit = digit_of(n % 10);
    if n < 10 {
        let mut v: Vec<char> = Vec::new();
        v.push(digit);
        assert(v@ =~= seq![digit_char(n as nat)]);
        v
    } else {
        let mut v = decimal_chars(n / 10);
        v.push(digit);
        v
    }
}

/// The decimal text of a port (`u16::to_string`).
pub fn port_text(port: u16) -> (r: String)
    ensures
        r@ == decimal_text(port as nat),
{
    let chars = decimal_chars(port);
    string_from_chars(&chars)
}

/// Parses an unsigned 16-bit decimal number as `str::parse::<u16>` does.
pub fn parse_u16(text: &str) -> (r: Option<u16>)
    ensures
        r == parsed_u16(text@),
{
    let chars = chars_of(text);
    let n = chars.len();
    let mut start: usize = 0;
    if n > 0 && chars[0] == '+' {
        start = 1;
    }
    let ghost d = chars@.subrange(start as int, n as int);
    assert(d =~= unsigned_digits(text@));
    if start == n {
        return None;
    }
    let mut i: usize = start;
    let mut value: u32 = 0;
    while i < n
        invariant
            start <= i <= n == chars@.len(),
            chars@ == text@,
            d == chars@.subrange(start as int, n as int),
            d == unsigned_digits(text@),
            d.len() > 0,
            value == digits_value(d.take(i - start)),
            value <= 65535,
            all_digits(d.take(i - start)),
        decreases n - i,
    {
        let x = chars[i] as u32;
        assert(x == chars@[i as int] as u32);
        proof {
            assert(d.take(i - start + 1).drop_last() =~= d.take(i - start));
            assert(d.take(i - start + 1).last() == chars@[i as int]);
        }
        if x < 48 || x > 57 {
            assert(!all_digits(d)) by {
                assert(d[i - start] == chars@[i as int]);
            }
            return None;
        }
        value = value * 10 + (x - 48);
        if value > 65535 {
            proof {
                if all_digits(d) {
                    lemma_digits_prefix_bound(d, i - start + 1);
                }
            }
            return None;
        }
        i = i + 1;
        assert(all_digits(d.take(i - start))) by {
            assert forall|j: int| 0 <= j < i - start implies is_ascii_digit(#[trigger] d.take(i - start)[j]) by {
                if j < i - start - 1 {
                    assert(d.take(i - start)[j] == d.take(i - start - 1)[j]);
                }
            }
        }
    }
    assert(d.take(n - start) =~= d);
    Some(value as u16)
}

/// The port of a form's port text: trimmed, parsed, and not zero.
pub fn parse_port(text: &str) -> (r: Option<u16>)
    ensures
        r == port_outcome(text@),
{
    let trimmed = trim(text);
    match parse_u16(trimmed.as_str()) {
        Some(port) => if port != 0 {
            Some(port)
        } else {
            None
        },
        None => None,
    }
}

/// The character of a digit has the code of that digit.
pub proof fn lemma_digit_char_code(d: nat)
    requires
        d < 10,
    ensures
        digit_char(d) as u32 == 48 + d,
{
    if d == 0 {
        assert('0' as u32 == 48);
    } else if d == 1 {
        assert('1' as u32 == 49);
    } else if d == 2 {
        assert('2' as u32 == 50);
    } else if d == 3 {
        assert('3' as u32 == 51);
    } else if d == 4 {
        assert('4' as u32 == 52);
    } else if d == 5 {
        assert('5' as u32 == 53);
    } else if d == 6 {
        assert('6' as u32 == 54);
    } else if d == 7 {
        assert('7' as u32 == 55);
    } else if d == 8 {
        assert('8' as u32 == 56);
    } else {
        assert('9' as u32 == 57);
    }
}

/// The decimal text of a number reads back as that number.
pub proof fn lemma_decimal_text_value(n: nat)
    ensures
        decimal_text(n).len() > 0,
        all_digits(decimal_text(n)),
        digits_value(decimal_text(n)) == n,
    decreases n,
{
    lemma_digit_char_code(n % 10);
    if n < 10 {
        let s = decimal_text(n);
        assert(s.drop_last() =~= Seq::<char>::empty());
        assert(digits_value(s.drop_last()) == 0);
    } else {
        lemma_decimal_text_value(n / 10);
        let s = decimal_text(n);
        assert(n == (n / 10) * 10 + n % 10) by (nonlinear_arith);
        assert(s.drop_last() =~= decimal_text(n / 10));
        assert forall|i: int| 0 <= i < s.len() implies is_ascii_digit(#[trigger] s[i]) by {
            if i < s.len() - 1 {
                assert(s[i] == decimal_text(n / 10)[i]);
            }
        }
    }
}

/// The port a form shows reads back as the same port.
pub proof fn law_port_text_reads_back(port: u16)
    requires
        port != 0,
    ensures
        port_outcome(decimal_text(port as nat)) == Some(port),
{
    let s = decimal_text(port as nat);
    lemma_decimal_text_value(port as nat);
    assert(is_ascii_digit(s[0]));
    assert(is_ascii_digit(s[s.len() - 1]));
    assert(!is_whitespace_char(s[0]));
    assert(!is_whitespace_char(s[s.len() - 1]));
    lemma_leading_ws_at(s, 0);
    let t = s.subrange(0, s.len() as int);
    assert(t =~= s);
    lemma_trailing_ws_at(t, 0);
    assert(trim_seq(s) =~= s);
    assert(unsigned_digits(s) =~= s);
}


/// How the form authenticates.
#[derive(Clone, Copy, Debug, PartialEq, Eq, Structural)]
pub enum AuthMethod {
    Password,
    PrivateKey,
    Agent,
}

/// Which field of the form is invalid.
#[derive(Clone, Copy, Debug, PartialEq, Eq, Structural)]
pub enum FormError {
    Name,
    Host,
    Username,
    Port,
    PrivateKeyPath,
}

/// The form field a profile validation error points at.
pub open spec fn form_error_of(e: ProfileValidationError) -> FormError {
    match e {
        ProfileValidationError::Name => FormError::Name,
        ProfileValidationError::Host => FormError::Host,
        ProfileValidationError::Username => FormError::Username,
        ProfileValidationError::Port => FormError::Port,
        ProfileValidationError::PrivateKeyPath => FormError::PrivateKeyPath,
    }
}

impl From<ProfileValidationError> for FormError {
    fn from(error: ProfileValidationError) -> (r: Self) {
        match error {
            ProfileValidationError::Name => FormError::Name,
            ProfileValidationError::Host => FormError::Host,
            ProfileValidationError::Username => FormError::Username,
            ProfileValidationError::Port => FormError::Port,
            ProfileValidationError::PrivateKeyPath => FormError::PrivateKeyPath,
        }
    }
}

impl vstd::std_specs::convert::FromSpecImpl<ProfileValidationError> for FormError {
    open spec fn obeys_from_spec() -> bool {
        true
    }

    open spec fn from_spec(error: ProfileValidationError) -> Self {
        form_error_of(error)
    }
}

/// The add/edit connection form. Adding and editing share it; an edit
/// remembers the profile it started from and keeps its id.
pub struct ConnectionForm {
    pub name: String,
    pub host: String,
    pub port: String,
    pub username: String,
    pub auth_method: AuthMethod,
    pub private_key_path: String,
    pub secret: String,
    pub remember: bool,
    previous: Option<ConnectionProfile>,
    profile_id: ProfileId,
}

/// A form by its fields' contents.
pub struct FormView {
    pub name: Seq<char>,
    pub host: Seq<char>,
    pub port: Seq<char>,
    pub username: Seq<char>,
    pub auth_method: AuthMethod,
    pub private_key_path: Seq<char>,
    pub secret: Seq<char>,
    pub remember: bool,
    /// The profile being edited, if this is an edit.
    pub previous: Option<ConnectionProfile>,
    /// The id the saved profile gets.
    pub profile_id: ProfileId,
}

impl View for ConnectionForm {
    type V = FormView;

    closed spec fn view(&self) -> FormView {
        FormView {
            name: self.name@,
            host: self.host@,
            port: self.port@,
            username: self.username@,
            auth_method: self.auth_method,
            private_key_path: self.private_key_path@,
            secret: self.secret@,
            remember: self.remember,
            previous: self.previous,
            profile_id: self.profile_id,
        }
    }
}

impl ConnectionForm {
    /// Sets the connection's name; the rest of the form is unchanged.
    pub fn set_name(&mut self, name: String)
        ensures
            final(self)@ == (FormView { name: name@, ..old(self)@ }),
    {
        self.name = name;
    }

    /// Sets the host; the rest of the form is unchanged.
    pub fn set_host(&mut self, host: String)
        ensures
            final(self)@ == (FormView { host: host@, ..old(self)@ }),
    {
        self.host = host;
    }

    /// Sets the port text; the rest of the form is unchanged.
    pub fn set_port(&mut self, port: String)
        ensures
            final(self)@ == (FormView { port: port@, ..old(self)@ }),
    {
        self.port = port;
    }

    /// Sets the user name; the rest of the form is unchanged.
    pub fn set_username(&mut self, username: String)
        ensures
            final(self)@ == (FormView { username: username@, ..old(self)@ }),
    {
        self.username = username;
    }

    /// Sets the authentication method; the rest of the form is unchanged.
    pub fn set_auth_method(&mut self, auth_method: AuthMethod)
        ensures
            final(self)@ == (FormView { auth_method: auth_method, ..old(self)@ }),
    {
        self.auth_method = auth_method;
    }

    /// Sets the private key path; the rest of the form is unchanged.
    pub fn set_private_key_path(&mut self, private_key_path: String)
        ensures
            final(self)@ == (FormView { private_key_path: private_key_path@, ..old(self)@ }),
    {
        self.private_key_path = private_key_path;
    }

    /// Sets the secret typed in; the rest of the form is unchanged.
    pub fn set_secret(&mut self, secret: String)
        ensures
            final(self)@ == (FormView { secret: secret@, ..old(self)@ }),
    {
        self.secret = secret;
    }

    /// Sets whether to remember the secret; the rest of the form is unchanged.
    pub fn set_remember(&mut self, remember: bool)
        ensures
            final(self)@ == (FormView { remember: remember, ..old(self)@ }),
    {
        self.remember = remember;
    }
}

/// The authentication method of a profile.
pub open spec fn method_of(auth: AuthConfig) -> AuthMethod {
    match auth {
        AuthConfig::Password { .. } => AuthMethod::Password,
        AuthConfig::PrivateKey { .. } => AuthMethod::PrivateKey,
        AuthConfig::Agent => AuthMethod::Agent,
    }
}

/// The password reference the profile being edited stored.
pub open spec fn previous_password_ref(previous: Option<ConnectionProfile>) -> Option<CredentialRef> {
    match previous {
        Some(p) => match p.auth {
            AuthConfig::Password { credential_ref } => credential_ref,
            _ => None,
        },
        None => None,
    }
}

/// The passphrase reference the profile being edited stored.
pub open spec fn previous_passphrase_ref(previous: Option<ConnectionProfile>) -> Option<CredentialRef> {
    match previous {
        Some(p) => match p.auth {
            AuthConfig::PrivateKey { passphrase_ref, .. } => passphrase_ref,
            _ => None,
        },
        None => None,
    }
}

/// Whether `auth` is what a form saves: its method, with the key path, and
/// the reference the edited profile stored for that same method.
pub open spec fn form_auth(f: FormView, auth: AuthConfig) -> bool {
    match f.auth_method {
        AuthMethod::Password => auth == AuthConfig::Password { credential_ref: previous_password_ref(f.previous) },
        AuthMethod::PrivateKey => auth matches AuthConfig::PrivateKey { path, passphrase_ref }
            && path@ == f.private_key_path && passphrase_ref == previous_passphrase_ref(f.previous),
        AuthMethod::Agent => auth == AuthConfig::Agent,
    }
}

/// The rules of `ConnectionProfile::validate`, applied to the profile a
/// form builds: trimmed name, host and user name, the parsed port, and the
/// key path for a private key.
pub open spec fn form_check(f: FormView, port: u16) -> Result<(), ProfileValidationError> {
    if !valid_name(trim_seq(f.name)) {
        Err(ProfileValidationError::Name)
    } else if !valid_host_bytes(encode_utf8(trim_seq(f.host))) {
        Err(ProfileValidationError::Host)
    } else if !valid_username_bytes(encode_utf8(trim_seq(f.username))) {
        Err(ProfileValidationError::Username)
    } else if port == 0 {
        Err(ProfileValidationError::Port)
    } else if f.auth_method == AuthMethod::PrivateKey && f.private_key_path.len() == 0 {
        Err(ProfileValidationError::PrivateKeyPath)
    } else {
        Ok(())
    }
}

/// Whether `req` is the save request of form `f` with port `port`.
pub open spec fn request_from_form(f: FormView, port: u16, req: SaveProfileRequest) -> bool {
    &&& req.profile.id == f.profile_id
    &&& req.profile.name@ == trim_seq(f.name)
    &&& req.profile.endpoint.host@ == trim_seq(f.host)
    &&& req.profile.endpoint.port == port
    &&& req.profile.username@ == trim_seq(f.username)
    &&& form_auth(f, req.profile.auth)
    &&& req.previous == f.previous
    &&& secret_text(req.secret) == (if f.secret.len() == 0 { None } else { Some(f.secret) })
    &&& req.remember == (f.remember && f.auth_method != AuthMethod::Agent)
}

/// What `save_request` gives for form `f`.
pub open spec fn save_request_outcome(f: FormView, r: Result<SaveProfileRequest, FormError>) -> bool {
    match port_outcome(f.port) {
        None => r == Err::<SaveProfileRequest, FormError>(FormError::Port),
        Some(port) => match form_check(f, port) {
            Err(e) => r == Err::<SaveProfileRequest, FormError>(form_error_of(e)),
            Ok(()) => r is Ok && request_from_form(f, port, r->Ok_0),
        },
    }
}

/// Whether `f` is the form `edit` opens on `profile`.
pub open spec fn edit_of(profile: ConnectionProfile, f: FormView) -> bool {
    &&& f.name == profile.name@
    &&& f.host == profile.endpoint.host@
    &&& f.port == decimal_text(profile.endpoint.port as nat)
    &&& f.username == profile.username@
    &&& f.auth_method == method_of(profile.auth)
    &&& match profile.auth {
        AuthConfig::PrivateKey { path, .. } => f.private_key_path == path@,
        _ => f.private_key_path.len() == 0,
    }
    &&& f.secret.len() == 0
    &&& f.remember == (auth_reference(profile.auth) is Some)
    &&& f.previous == Some(profile)
    &&& f.profile_id == profile.id
}

fn clone_profile_option(p: &Option<ConnectionProfile>) -> (r: Option<ConnectionProfile>)
    ensures
        r == *p,
{
    match p {
        Some(profile) => Some(profile.clone()),
        None => None,
    }
}

impl ConnectionForm {
    /// An empty form for a new profile, on port 22, with a fresh id.
    pub fn new() -> (f: Self)
        ensures
            f@.name.len() == 0,
            f@.host.len() == 0,
            f@.port == seq!['2', '2'],
            f@.username.len() == 0,
            f@.auth_method == AuthMethod::Password,
            f@.private_key_path.len() == 0,
            f@.secret.len() == 0,
            !f@.remember,
            f@.previous is None,
    {
        let port = port_text(22);
        proof {
            reveal_with_fuel(decimal_text, 3);
        }
        ConnectionForm {
            name: String::new(),
            host: String::new(),
            port,
            username: String::new(),
            auth_method: AuthMethod::Password,
            private_key_path: String::new(),
            secret: String::new(),
            remember: false,
            previous: None,
            profile_id: ProfileId::new(),
        }
    }

    /// The form opened on an existing profile.
    pub fn edit(profile: ConnectionProfile) -> (f: Self)
        ensures
            edit_of(profile, f@),
    {
        let (auth_method, private_key_path, remember) = match &profile.auth {
            AuthConfig::Password { credential_ref } => (AuthMethod::Password, String::new(), credential_ref.is_some()),
            AuthConfig::PrivateKey { path, passphrase_ref } => (AuthMethod::PrivateKey, path.clone(), passphrase_ref.is_some()),
            AuthConfig::Agent => (AuthMethod::Agent, String::new(), false),
        };
        ConnectionForm {
            name: profile.name.clone(),
            host: profile.endpoint.host.clone(),
            port: port_text(profile.endpoint.port),
            username: profile.username.clone(),
            auth_method,
            private_key_path,
            secret: String::new(),
            remember,
            profile_id: profile.id,
            previous: Some(profile),
        }
    }

    /// Whether the form edits an existing profile.
    pub fn is_editing(&self) -> (b: bool)
        ensures
            b == (self@.previous is Some),
    {
        self.previous.is_some()
    }

    /// The save request of the form, or the first invalid field: the port,
    /// then the profile's own rules on the trimmed fields.
    pub fn save_request(&self) -> (r: Result<SaveProfileRequest, FormError>)
        ensures
            save_request_outcome(self@, r),
    {
        let port = match parse_port(self.port.as_str()) {
            Some(port) => port,
            None => return Err(FormError::Port),
        };
        let auth = match self.auth_method {
            AuthMethod::Password => AuthConfig::Password {
                credential_ref: match &self.previous {
                    Some(profile) => match &profile.auth {
                        AuthConfig::Password { credential_ref } => clone_reference(credential_ref),
                        _ => None,
                    },
                    None => None,
                },
            },
            AuthMethod::PrivateKey => AuthConfig::PrivateKey {
                path: self.private_key_path.clone(),
                passphrase_ref: match &self.previous {
                    Some(profile) => match &profile.auth {
                        AuthConfig::PrivateKey { passphrase_ref, .. } => clone_reference(passphrase_ref),
                        _ => None,
                    },
                    None => None,
                },
            },
            AuthMethod::Agent => AuthConfig::Agent,
        };
        let profile = ConnectionProfile {
            id: self.profile_id,
            name: trim(self.name.as_str()),
            endpoint: Endpoint { host: trim(self.host.as_str()), port },
            username: trim(self.username.as_str()),
            auth,
        };
        match profile.validate() {
            Ok(()) => {},
            Err(e) => return Err(FormError::from(e)),
        }
        let secret = if self.secret.as_str().unicode_len() == 0 {
            None
        } else {
            Some(SecretString::new(self.secret.clone()))
        };
        Ok(SaveProfileRequest {
            profile,
            previous: clone_profile_option(&self.previous),
            secret,
            remember: self.remember && self.auth_method != AuthMethod::Agent,
        })
    }
}

impl Default for ConnectionForm {
    fn default() -> (f: Self)
        ensures
            f@.name.len() == 0,
            f@.host.len() == 0,
            f@.port == seq!['2', '2'],
            f@.username.len() == 0,
            f@.auth_method == AuthMethod::Password,
            f@.private_key_path.len() == 0,
            f@.secret.len() == 0,
            !f@.remember,
            f@.previous is None,
    {
        ConnectionForm::new()
    }
}

/// A form opened on a valid profile whose name, host and user name carry
/// no surrounding whitespace saves back that same profile, as an edit of it,
/// remembering its secret exactly when the profile stored a reference.
pub proof fn law_edit_saves_back(profile: ConnectionProfile, f: FormView)
    requires
        edit_of(profile, f),
        validation_outcome(profile) is Ok,
        trim_seq(profile.name@) == profile.name@,
        trim_seq(profile.endpoint.host@) == profile.endpoint.host@,
        trim_seq(profile.username@) == profile.username@,
    ensures
        port_outcome(f.port) == Some(profile.endpoint.port),
        form_check(f, profile.endpoint.port) is Ok,
        forall|req: SaveProfileRequest| request_from_form(f, profile.endpoint.port, req) ==> {
            &&& req.profile.id == profile.id
            &&& req.profile.name@ == profile.name@
            &&& req.profile.endpoint.host@ == profile.endpoint.host@
            &&& req.profile.endpoint.port == profile.endpoint.port
            &&& req.profile.username@ == profile.username@
            &&& method_of(req.profile.auth) == method_of(profile.auth)
            &&& auth_reference(req.profile.auth) == auth_reference(profile.auth)
            &&& (profile.auth is PrivateKey ==> req.profile.auth->path@ == profile.auth->path@)
            &&& req.previous == Some(profile)
            &&& req.remember == (auth_reference(profile.auth) is Some)
        },
{
    law_port_text_reads_back(profile.endpoint.port);
}

} // verus!
