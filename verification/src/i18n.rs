//! User-facing text: message identifiers, locale resolution, the English
//! and Simplified Chinese catalogs, and which message describes each error
//! and state.

use vstd::prelude::*;

use crate::model::{LocaleSetting, AuthConfig, ConnectionProfile, CredentialRef};
use crate::session::SessionError;
use crate::tabs::{DisconnectReason, TabLocalError, TabState};
use crate::text::{ascii_lowercase_seq, chars_of, string_push};

verus! {

/// A piece of user-facing text.
#[derive(Clone, Copy, Debug, PartialEq, Eq, Hash, Structural)]
pub enum MessageId {
    AppName,
    SearchConnections,
    AddConnection,
    NoConnections,
    NoSearchResults,
    SelectConnection,
    Settings,
    Sessions,
    Language,
    Theme,
    TrustedHosts,
    System,
    Light,
    English,
    SimplifiedChinese,
    Dark,
    Delete,
    Retry,
    Quit,
    OpenConfigDirectory,
    StorageCorrupt,
    NoTrustedHosts,
    Close,
    Copy,
    Name,
    Host,
    Port,
    Username,
    AuthMethod,
    Password,
    PrivateKey,
    Agent,
    Remember,
    Passphrase,
    Browse,
    Cancel,
    Save,
    AgentDescription,
    CredentialRequired,
    Connect,
    ConnectOnce,
    Edit,
    ConfirmDeleteProfile,
    ConfirmDeleteHost,
    ConfirmCloseTab,
    ConfirmQuit,
    Connecting,
    VerifyingHostKey,
    Authenticating,
    OpeningShell,
    Connected,
    Disconnected,
    AwaitingHostKey,
    AwaitingSecret,
    UnknownHostKey,
    ChangedHostKey,
    ExpectedFingerprint,
    PresentedFingerprint,
    Reject,
    AcceptAndStore,
    OpenTrustedHosts,
    Bell,
    InputQueueFull,
    PasteTooLarge,
    CredentialUnavailable,
    CredentialAccessDenied,
    CredentialInvalidReference,
    CredentialCorrupt,
    CredentialAmbiguous,
    CredentialUnsupported,
    InvalidProfile,
    ConnectTimeout,
    ConnectFailed,
    HostKeyRejected,
    HostKeyChanged,
    HostKeyStoreFailed,
    PrivateKeyUnreadable,
    PrivateKeyPassphraseRejected,
    AgentUnavailable,
    AgentEmpty,
    AuthenticationRejected,
    PtyRejected,
    SessionClosed,
    ShellRejected,
}

/// Number of messages.
pub const MESSAGE_COUNT: usize = 84;

/// The position of a message in `MessageId::all`.
pub open spec fn message_position(id: MessageId) -> int {
    match id {
        MessageId::AppName => 0,
        MessageId::SearchConnections => 1,
        MessageId::AddConnection => 2,
        MessageId::NoConnections => 3,
        MessageId::NoSearchResults => 4,
        MessageId::SelectConnection => 5,
        MessageId::Settings => 6,
        MessageId::Sessions => 7,
        MessageId::Language => 8,
        MessageId::Theme => 9,
        MessageId::TrustedHosts => 10,
        MessageId::System => 11,
        MessageId::Light => 12,
        MessageId::English => 13,
        MessageId::SimplifiedChinese => 14,
        MessageId::Dark => 15,
        MessageId::Delete => 16,
        MessageId::Retry => 17,
        MessageId::OpenConfigDirectory => 18,
        MessageId::StorageCorrupt => 19,
        MessageId::Quit => 20,
        MessageId::Name => 21,
        MessageId::NoTrustedHosts => 22,
        MessageId::Close => 23,
        MessageId::Copy => 24,
        MessageId::Host => 25,
        MessageId::Port => 26,
        MessageId::Username => 27,
        MessageId::AuthMethod => 28,
        MessageId::Password => 29,
        MessageId::PrivateKey => 30,
        MessageId::Agent => 31,
        MessageId::Remember => 32,
        MessageId::Passphrase => 33,
        MessageId::Browse => 34,
        MessageId::Cancel => 35,
        MessageId::Save => 36,
        MessageId::AgentDescription => 37,
        MessageId::CredentialRequired => 38,
        MessageId::Connect => 39,
        MessageId::ConnectOnce => 40,
        MessageId::Edit => 41,
        MessageId::ConfirmDeleteProfile => 42,
        MessageId::ConfirmDeleteHost => 43,
        MessageId::ConfirmCloseTab => 44,
        MessageId::ConfirmQuit => 45,
        MessageId::Connecting => 46,
        MessageId::VerifyingHostKey => 47,
        MessageId::Authenticating => 48,
        MessageId::OpeningShell => 49,
        MessageId::Connected => 50,
        MessageId::Disconnected => 51,
        MessageId::AwaitingHostKey => 52,
        MessageId::AwaitingSecret => 53,
        MessageId::UnknownHostKey => 54,
        MessageId::ChangedHostKey => 55,
        MessageId::ExpectedFingerprint => 56,
        MessageId::PresentedFingerprint => 57,
        MessageId::Reject => 58,
        MessageId::AcceptAndStore => 59,
        MessageId::OpenTrustedHosts => 60,
        MessageId::Bell => 61,
        MessageId::InputQueueFull => 62,
        MessageId::PasteTooLarge => 63,
        MessageId::CredentialUnavailable => 64,
        MessageId::CredentialAccessDenied => 65,
        MessageId::CredentialInvalidReference => 66,
        MessageId::CredentialCorrupt => 67,
        MessageId::CredentialAmbiguous => 68,
        MessageId::CredentialUnsupported => 69,
        MessageId::InvalidProfile => 70,
        MessageId::ConnectTimeout => 71,
        MessageId::ConnectFailed => 72,
        MessageId::HostKeyRejected => 73,
        MessageId::HostKeyChanged => 74,
        MessageId::HostKeyStoreFailed => 75,
        MessageId::PrivateKeyUnreadable => 76,
        MessageId::PrivateKeyPassphraseRejected => 77,
        MessageId::AgentUnavailable => 78,
        MessageId::AgentEmpty => 79,
        MessageId::AuthenticationRejected => 80,
        MessageId::PtyRejected => 81,
        MessageId::SessionClosed => 82,
        MessageId::ShellRejected => 83,
    }
}

impl MessageId {
    /// Every message, once each.
    pub fn all() -> (r: Vec<MessageId>)
        ensures
            r@.len() == MESSAGE_COUNT,
            forall|i: int| 0 <= i < MESSAGE_COUNT ==> message_position(#[trigger] r@[i]) == i,
    {
        let r = vec![
            MessageId::AppName,
            MessageId::SearchConnections,
            MessageId::AddConnection,
            MessageId::NoConnections,
            MessageId::NoSearchResults,
            MessageId::SelectConnection,
            MessageId::Settings,
            MessageId::Sessions,
            MessageId::Language,
            MessageId::Theme,
            MessageId::TrustedHosts,
            MessageId::System,
            MessageId::Light,
            MessageId::English,
            MessageId::SimplifiedChinese,
            MessageId::Dark,
            MessageId::Delete,
            MessageId::Retry,
            MessageId::OpenConfigDirectory,
            MessageId::StorageCorrupt,
            MessageId::Quit,
            MessageId::Name,
            MessageId::NoTrustedHosts,
            MessageId::Close,
            MessageId::Copy,
            MessageId::Host,
            MessageId::Port,
            MessageId::Username,
            MessageId::AuthMethod,
            MessageId::Password,
            MessageId::PrivateKey,
            MessageId::Agent,
            MessageId::Remember,
            MessageId::Passphrase,
            MessageId::Browse,
            MessageId::Cancel,
            MessageId::Save,
            MessageId::AgentDescription,
            MessageId::CredentialRequired,
            MessageId::Connect,
            MessageId::ConnectOnce,
            MessageId::Edit,
            MessageId::ConfirmDeleteProfile,
            MessageId::ConfirmDeleteHost,
            MessageId::ConfirmCloseTab,
            MessageId::ConfirmQuit,
            MessageId::Connecting,
            MessageId::VerifyingHostKey,
            MessageId::Authenticating,
            MessageId::OpeningShell,
            MessageId::Connected,
            MessageId::Disconnected,
            MessageId::AwaitingHostKey,
            MessageId::AwaitingSecret,
            MessageId::UnknownHostKey,
            MessageId::ChangedHostKey,
            MessageId::ExpectedFingerprint,
            MessageId::PresentedFingerprint,
            MessageId::Reject,
            MessageId::AcceptAndStore,
            MessageId::OpenTrustedHosts,
            MessageId::Bell,
            MessageId::InputQueueFull,
            MessageId::PasteTooLarge,
            MessageId::CredentialUnavailable,
            MessageId::CredentialAccessDenied,
            MessageId::CredentialInvalidReference,
            MessageId::CredentialCorrupt,
            MessageId::CredentialAmbiguous,
            MessageId::CredentialUnsupported,
            MessageId::InvalidProfile,
            MessageId::ConnectTimeout,
            MessageId::ConnectFailed,
            MessageId::HostKeyRejected,
            MessageId::HostKeyChanged,
            MessageId::HostKeyStoreFailed,
            MessageId::PrivateKeyUnreadable,
            MessageId::PrivateKeyPassphraseRejected,
            MessageId::AgentUnavailable,
            MessageId::AgentEmpty,
            MessageId::AuthenticationRejected,
            MessageId::PtyRejected,
            MessageId::SessionClosed,
            MessageId::ShellRejected,
        ];
        r
    }
}

/// The language text is shown in.
#[derive(Clone, Copy, Debug, PartialEq, Eq, Structural)]
pub enum ResolvedLocale {
    EnUs,
    ZhCn,
}

/// `s` with every `_` replaced by `-`.
pub open spec fn underscores_to_hyphens(s: Seq<char>) -> Seq<char> {
    Seq::new(s.len(), |i: int| if s[i] == '_' { '-' } else { s[i] })
}

/// A system locale names Chinese when, with `_` read as `-` and ASCII
/// letters lower-cased, it is `zh` or starts with `zh-`.
pub open spec fn is_chinese_locale(s: Seq<char>) -> bool {
    let l = ascii_lowercase_seq(underscores_to_hyphens(s));
    l == seq!['z', 'h'] || (l.len() >= 3 && l[0] == 'z' && l[1] == 'h' && l[2] == '-')
}

/// The locale a setting resolves to, given the system locale.
pub open spec fn resolved_locale(setting: LocaleSetting, system: Option<Seq<char>>) -> ResolvedLocale {
    match setting {
        LocaleSetting::EnUs => ResolvedLocale::EnUs,
        LocaleSetting::ZhCn => ResolvedLocale::ZhCn,
        LocaleSetting::System => match system {
            Some(s) => if is_chinese_locale(s) {
                ResolvedLocale::ZhCn
            } else {
                ResolvedLocale::EnUs
            },
            None => ResolvedLocale::EnUs,
        },
    }
}

/// Whether a system locale names Chinese.
fn chinese_locale(s: &str) -> (b: bool)
    ensures
        b == is_chinese_locale(s@),
{
    let chars = chars_of(s);
    let ghost l = ascii_lowercase_seq(underscores_to_hyphens(s@));
    let n = chars.len();
    let mut folded: Vec<char> = Vec::new();
    let mut i: usize = 0;
    while i < n
        invariant
            n == chars@.len(),
            chars@ == s@,
            i <= n,
            l == ascii_lowercase_seq(underscores_to_hyphens(s@)),
            folded@ == l.take(i as int),
        decreases n - i,
    {
        let c = chars[i];
        let d = if c == '_' {
            '-'
        } else if 'A' <= c && c <= 'Z' {
            let b = (c as u32 + 32) as u8;
            b as char
        } else {
            c
        };
        folded.push(d);
        i = i + 1;
        assert(folded@ =~= l.take(i as int));
    }
    assert(l.take(n as int) =~= l);
    if n == 2 {
        let b = folded[0] == 'z' && folded[1] == 'h';
        assert(b ==> folded@ =~= seq!['z', 'h']);
        b
    } else if n >= 3 {
        folded[0] == 'z' && folded[1] == 'h' && folded[2] == '-'
    } else {
        assert(folded@.len() != 2);
        false
    }
}

impl ResolvedLocale {
    /// Resolves a setting: the system setting follows the system locale,
    /// Chinese only for Chinese locales, English otherwise.
    pub fn resolve(setting: LocaleSetting, system_locale: Option<&str>) -> (r: Self)
        ensures
            r == resolved_locale(setting, match system_locale {
                Some(s) => Some(s@),
                None => None,
            }),
    {
        match setting {
            LocaleSetting::EnUs => ResolvedLocale::EnUs,
            LocaleSetting::ZhCn => ResolvedLocale::ZhCn,
            LocaleSetting::System => match system_locale {
                Some(s) => if chinese_locale(s) {
                    ResolvedLocale::ZhCn
                } else {
                    ResolvedLocale::EnUs
                },
                None => ResolvedLocale::EnUs,
            },
        }
    }
}

/// The English text of a message.
pub open spec fn english_text(id: MessageId) -> Seq<char> {
    match id {
        MessageId::AppName => "OxideSSH"@,
        MessageId::SearchConnections => "Search connections"@,
        MessageId::AddConnection => "Add connection"@,
        MessageId::NoConnections => "No saved connections yet"@,
        MessageId::NoSearchResults => "No connections match the search"@,
        MessageId::SelectConnection => "Select a connection"@,
        MessageId::Settings => "Settings"@,
        MessageId::Sessions => "Sessions"@,
        MessageId::Language => "Language"@,
        MessageId::Theme => "Theme"@,
        MessageId::TrustedHosts => "Trusted hosts"@,
        MessageId::System => "System"@,
        MessageId::Light => "Light"@,
        MessageId::English => "English"@,
        MessageId::SimplifiedChinese => "简体中文"@,
        MessageId::Dark => "Dark"@,
        MessageId::Delete => "Delete"@,
        MessageId::Retry => "Retry"@,
        MessageId::Quit => "Quit"@,
        MessageId::OpenConfigDirectory => "Open configuration folder"@,
        MessageId::StorageCorrupt => "The configuration could not be read; it was left untouched"@,
        MessageId::NoTrustedHosts => "No trusted hosts"@,
        MessageId::Close => "Close"@,
        MessageId::Copy => "Copy"@,
        MessageId::Name => "Name"@,
        MessageId::Host => "Host"@,
        MessageId::Port => "Port"@,
        MessageId::Username => "Username"@,
        MessageId::AuthMethod => "Authentication"@,
        MessageId::Password => "Password"@,
        MessageId::PrivateKey => "Private key"@,
        MessageId::Agent => "SSH agent"@,
        MessageId::Remember => "Remember in the system keychain"@,
        MessageId::Passphrase => "Passphrase"@,
        MessageId::Browse => "Browse…"@,
        MessageId::Cancel => "Cancel"@,
        MessageId::Save => "Save"@,
        MessageId::AgentDescription => "Keys are offered by the running SSH agent"@,
        MessageId::CredentialRequired => "A password or passphrase is required"@,
        MessageId::Connect => "Connect"@,
        MessageId::ConnectOnce => "Connect once"@,
        MessageId::Edit => "Edit"@,
        MessageId::ConfirmDeleteProfile => "Delete this connection and its saved secret?"@,
        MessageId::ConfirmDeleteHost => "Forget this trusted host key?"@,
        MessageId::ConfirmCloseTab => "Close this tab and end its session?"@,
        MessageId::ConfirmQuit => "Quit and end all sessions?"@,
        MessageId::Connecting => "Connecting"@,
        MessageId::VerifyingHostKey => "Verifying host key"@,
        MessageId::Authenticating => "Authenticating"@,
        MessageId::OpeningShell => "Opening shell"@,
        MessageId::Connected => "Connected"@,
        MessageId::Disconnected => "Disconnected"@,
        MessageId::AwaitingHostKey => "Waiting for host key decision"@,
        MessageId::AwaitingSecret => "Waiting for credentials"@,
        MessageId::UnknownHostKey => "Unknown host key"@,
        MessageId::ChangedHostKey => "Host key changed"@,
        MessageId::ExpectedFingerprint => "Expected fingerprint"@,
        MessageId::PresentedFingerprint => "Presented fingerprint"@,
        MessageId::Reject => "Reject"@,
        MessageId::AcceptAndStore => "Accept and remember"@,
        MessageId::OpenTrustedHosts => "Open trusted hosts"@,
        MessageId::Bell => "Bell"@,
        MessageId::InputQueueFull => "Input is paused while the connection catches up"@,
        MessageId::PasteTooLarge => "Paste exceeds 1 MiB"@,
        MessageId::CredentialUnavailable => "The credential store is unavailable"@,
        MessageId::CredentialAccessDenied => "Access to the credential store was denied"@,
        MessageId::CredentialInvalidReference => "The credential reference is invalid"@,
        MessageId::CredentialCorrupt => "The stored credential is corrupt"@,
        MessageId::CredentialAmbiguous => "The credential reference is ambiguous"@,
        MessageId::CredentialUnsupported => "The credential store does not support this operation"@,
        MessageId::InvalidProfile => "The connection settings are invalid"@,
        MessageId::ConnectTimeout => "The connection timed out"@,
        MessageId::ConnectFailed => "The connection failed"@,
        MessageId::HostKeyRejected => "The host key was rejected"@,
        MessageId::HostKeyChanged => "The host key has changed"@,
        MessageId::HostKeyStoreFailed => "The host key could not be stored"@,
        MessageId::PrivateKeyUnreadable => "The private key cannot be read"@,
        MessageId::PrivateKeyPassphraseRejected => "The private key passphrase was rejected"@,
        MessageId::AgentUnavailable => "The SSH agent is unavailable"@,
        MessageId::AgentEmpty => "The SSH agent has no keys"@,
        MessageId::AuthenticationRejected => "Authentication was rejected"@,
        MessageId::PtyRejected => "The server refused a terminal"@,
        MessageId::SessionClosed => "The session is closed"@,
        MessageId::ShellRejected => "The server refused a shell"@,
    }
}

/// The Simplified Chinese text of a message.
pub open spec fn chinese_text(id: MessageId) -> Seq<char> {
    match id {
        MessageId::AppName => "OxideSSH"@,
        MessageId::SearchConnections => "搜索连接"@,
        MessageId::AddConnection => "添加连接"@,
        MessageId::NoConnections => "还没有保存的连接"@,
        MessageId::NoSearchResults => "没有匹配的连接"@,
        MessageId::SelectConnection => "选择一个连接"@,
        MessageId::Settings => "设置"@,
        MessageId::Sessions => "会话"@,
        MessageId::Language => "语言"@,
        MessageId::Theme => "主题"@,
        MessageId::TrustedHosts => "受信任的主机"@,
        MessageId::System => "跟随系统"@,
        MessageId::Light => "浅色"@,
        MessageId::English => "English"@,
        MessageId::SimplifiedChinese => "简体中文"@,
        MessageId::Dark => "深色"@,
        MessageId::Delete => "删除"@,
        MessageId::Retry => "重试"@,
        MessageId::Quit => "退出"@,
        MessageId::OpenConfigDirectory => "打开配置文件夹"@,
        MessageId::StorageCorrupt => "无法读取配置，文件保持原样"@,
        MessageId::NoTrustedHosts => "没有受信任的主机"@,
        MessageId::Close => "关闭"@,
        MessageId::Copy => "复制"@,
        MessageId::Name => "名称"@,
        MessageId::Host => "主机"@,
        MessageId::Port => "端口"@,
        MessageId::Username => "用户名"@,
        MessageId::AuthMethod => "认证方式"@,
        MessageId::Password => "密码"@,
        MessageId::PrivateKey => "私钥"@,
        MessageId::Agent => "SSH 代理"@,
        MessageId::Remember => "保存到系统钥匙串"@,
        MessageId::Passphrase => "私钥口令"@,
        MessageId::Browse => "浏览…"@,
        MessageId::Cancel => "取消"@,
        MessageId::Save => "保存"@,
        MessageId::AgentDescription => "由正在运行的 SSH 代理提供密钥"@,
        MessageId::CredentialRequired => "需要密码或私钥口令"@,
        MessageId::Connect => "连接"@,
        MessageId::ConnectOnce => "仅本次连接"@,
        MessageId::Edit => "编辑"@,
        MessageId::ConfirmDeleteProfile => "删除此连接及其保存的凭据？"@,
        MessageId::ConfirmDeleteHost => "移除此受信任的主机密钥？"@,
        MessageId::ConfirmCloseTab => "关闭此标签页并结束会话？"@,
        MessageId::ConfirmQuit => "退出并结束所有会话？"@,
        MessageId::Connecting => "正在连接"@,
        MessageId::VerifyingHostKey => "正在验证主机密钥"@,
        MessageId::Authenticating => "正在认证"@,
        MessageId::OpeningShell => "正在打开终端"@,
        MessageId::Connected => "已连接"@,
        MessageId::Disconnected => "已断开"@,
        MessageId::AwaitingHostKey => "等待确认主机密钥"@,
        MessageId::AwaitingSecret => "等待输入凭据"@,
        MessageId::UnknownHostKey => "未知的主机密钥"@,
        MessageId::ChangedHostKey => "主机密钥已变更"@,
        MessageId::ExpectedFingerprint => "预期指纹"@,
        MessageId::PresentedFingerprint => "当前指纹"@,
        MessageId::Reject => "拒绝"@,
        MessageId::AcceptAndStore => "接受并保存"@,
        MessageId::OpenTrustedHosts => "打开受信任的主机"@,
        MessageId::Bell => "响铃"@,
        MessageId::InputQueueFull => "输入已暂停，正在等待连接"@,
        MessageId::PasteTooLarge => "粘贴内容超过 1 MiB"@,
        MessageId::CredentialUnavailable => "凭据存储不可用"@,
        MessageId::CredentialAccessDenied => "凭据存储拒绝访问"@,
        MessageId::CredentialInvalidReference => "凭据引用无效"@,
        MessageId::CredentialCorrupt => "保存的凭据已损坏"@,
        MessageId::CredentialAmbiguous => "凭据引用不唯一"@,
        MessageId::CredentialUnsupported => "凭据存储不支持此操作"@,
        MessageId::InvalidProfile => "连接配置无效"@,
        MessageId::ConnectTimeout => "连接超时"@,
        MessageId::ConnectFailed => "连接失败"@,
        MessageId::HostKeyRejected => "主机密钥已被拒绝"@,
        MessageId::HostKeyChanged => "主机密钥已变更"@,
        MessageId::HostKeyStoreFailed => "无法保存主机密钥"@,
        MessageId::PrivateKeyUnreadable => "无法读取私钥"@,
        MessageId::PrivateKeyPassphraseRejected => "私钥口令错误"@,
        MessageId::AgentUnavailable => "SSH 代理不可用"@,
        MessageId::AgentEmpty => "SSH 代理中没有密钥"@,
        MessageId::AuthenticationRejected => "认证被拒绝"@,
        MessageId::PtyRejected => "服务器拒绝分配终端"@,
        MessageId::SessionClosed => "会话已关闭"@,
        MessageId::ShellRejected => "服务器拒绝启动 shell"@,
    }
}

/// The text of a message in a locale.
pub open spec fn catalog_text(locale: ResolvedLocale, id: MessageId) -> Seq<char> {
    match locale {
        ResolvedLocale::EnUs => english_text(id),
        ResolvedLocale::ZhCn => chinese_text(id),
    }
}

/// English texts.
fn english(id: MessageId) -> (r: &'static str)
    ensures
        r@ == english_text(id),
{
    match id {
        MessageId::AppName => "OxideSSH",
        MessageId::SearchConnections => "Search connections",
        MessageId::AddConnection => "Add connection",
        MessageId::NoConnections => "No saved connections yet",
        MessageId::NoSearchResults => "No connections match the search",
        MessageId::SelectConnection => "Select a connection",
        MessageId::Settings => "Settings",
        MessageId::Sessions => "Sessions",
        MessageId::Language => "Language",
        MessageId::Theme => "Theme",
        MessageId::TrustedHosts => "Trusted hosts",
        MessageId::System => "System",
        MessageId::Light => "Light",
        MessageId::English => "English",
        MessageId::SimplifiedChinese => "简体中文",
        MessageId::Dark => "Dark",
        MessageId::Delete => "Delete",
        MessageId::Retry => "Retry",
        MessageId::Quit => "Quit",
        MessageId::OpenConfigDirectory => "Open configuration folder",
        MessageId::StorageCorrupt => "The configuration could not be read; it was left untouched",
        MessageId::NoTrustedHosts => "No trusted hosts",
        MessageId::Close => "Close",
        MessageId::Copy => "Copy",
        MessageId::Name => "Name",
        MessageId::Host => "Host",
        MessageId::Port => "Port",
        MessageId::Username => "Username",
        MessageId::AuthMethod => "Authentication",
        MessageId::Password => "Password",
        MessageId::PrivateKey => "Private key",
        MessageId::Agent => "SSH agent",
        MessageId::Remember => "Remember in the system keychain",
        MessageId::Passphrase => "Passphrase",
        MessageId::Browse => "Browse…",
        MessageId::Cancel => "Cancel",
        MessageId::Save => "Save",
        MessageId::AgentDescription => "Keys are offered by the running SSH agent",
        MessageId::CredentialRequired => "A password or passphrase is required",
        MessageId::Connect => "Connect",
        MessageId::ConnectOnce => "Connect once",
        MessageId::Edit => "Edit",
        MessageId::ConfirmDeleteProfile => "Delete this connection and its saved secret?",
        MessageId::ConfirmDeleteHost => "Forget this trusted host key?",
        MessageId::ConfirmCloseTab => "Close this tab and end its session?",
        MessageId::ConfirmQuit => "Quit and end all sessions?",
        MessageId::Connecting => "Connecting",
        MessageId::VerifyingHostKey => "Verifying host key",
        MessageId::Authenticating => "Authenticating",
        MessageId::OpeningShell => "Opening shell",
        MessageId::Connected => "Connected",
        MessageId::Disconnected => "Disconnected",
        MessageId::AwaitingHostKey => "Waiting for host key decision",
        MessageId::AwaitingSecret => "Waiting for credentials",
        MessageId::UnknownHostKey => "Unknown host key",
        MessageId::ChangedHostKey => "Host key changed",
        MessageId::ExpectedFingerprint => "Expected fingerprint",
        MessageId::PresentedFingerprint => "Presented fingerprint",
        MessageId::Reject => "Reject",
        MessageId::AcceptAndStore => "Accept and remember",
        MessageId::OpenTrustedHosts => "Open trusted hosts",
        MessageId::Bell => "Bell",
        MessageId::InputQueueFull => "Input is paused while the connection catches up",
        MessageId::PasteTooLarge => "Paste exceeds 1 MiB",
        MessageId::CredentialUnavailable => "The credential store is unavailable",
        MessageId::CredentialAccessDenied => "Access to the credential store was denied",
        MessageId::CredentialInvalidReference => "The credential reference is invalid",
        MessageId::CredentialCorrupt => "The stored credential is corrupt",
        MessageId::CredentialAmbiguous => "The credential reference is ambiguous",
        MessageId::CredentialUnsupported => "The credential store does not support this operation",
        MessageId::InvalidProfile => "The connection settings are invalid",
        MessageId::ConnectTimeout => "The connection timed out",
        MessageId::ConnectFailed => "The connection failed",
        MessageId::HostKeyRejected => "The host key was rejected",
        MessageId::HostKeyChanged => "The host key has changed",
        MessageId::HostKeyStoreFailed => "The host key could not be stored",
        MessageId::PrivateKeyUnreadable => "The private key cannot be read",
        MessageId::PrivateKeyPassphraseRejected => "The private key passphrase was rejected",
        MessageId::AgentUnavailable => "The SSH agent is unavailable",
        MessageId::AgentEmpty => "The SSH agent has no keys",
        MessageId::AuthenticationRejected => "Authentication was rejected",
        MessageId::PtyRejected => "The server refused a terminal",
        MessageId::SessionClosed => "The session is closed",
        MessageId::ShellRejected => "The server refused a shell",
    }
}

/// Simplified Chinese texts.
fn chinese(id: MessageId) -> (r: &'static str)
    ensures
        r@ == chinese_text(id),
{
    match id {
        MessageId::AppName => "OxideSSH",
        MessageId::SearchConnections => "搜索连接",
        MessageId::AddConnection => "添加连接",
        MessageId::NoConnections => "还没有保存的连接",
        MessageId::NoSearchResults => "没有匹配的连接",
        MessageId::SelectConnection => "选择一个连接",
        MessageId::Settings => "设置",
        MessageId::Sessions => "会话",
        MessageId::Language => "语言",
        MessageId::Theme => "主题",
        MessageId::TrustedHosts => "受信任的主机",
        MessageId::System => "跟随系统",
        MessageId::Light => "浅色",
        MessageId::English => "English",
        MessageId::SimplifiedChinese => "简体中文",
        MessageId::Dark => "深色",
        MessageId::Delete => "删除",
        MessageId::Retry => "重试",
        MessageId::Quit => "退出",
        MessageId::OpenConfigDirectory => "打开配置文件夹",
        MessageId::StorageCorrupt => "无法读取配置，文件保持原样",
        MessageId::NoTrustedHosts => "没有受信任的主机",
        MessageId::Close => "关闭",
        MessageId::Copy => "复制",
        MessageId::Name => "名称",
        MessageId::Host => "主机",
        MessageId::Port => "端口",
        MessageId::Username => "用户名",
        MessageId::AuthMethod => "认证方式",
        MessageId::Password => "密码",
        MessageId::PrivateKey => "私钥",
        MessageId::Agent => "SSH 代理",
        MessageId::Remember => "保存到系统钥匙串",
        MessageId::Passphrase => "私钥口令",
        MessageId::Browse => "浏览…",
        MessageId::Cancel => "取消",
        MessageId::Save => "保存",
        MessageId::AgentDescription => "由正在运行的 SSH 代理提供密钥",
        MessageId::CredentialRequired => "需要密码或私钥口令",
        MessageId::Connect => "连接",
        MessageId::ConnectOnce => "仅本次连接",
        MessageId::Edit => "编辑",
        MessageId::ConfirmDeleteProfile => "删除此连接及其保存的凭据？",
        MessageId::ConfirmDeleteHost => "移除此受信任的主机密钥？",
        MessageId::ConfirmCloseTab => "关闭此标签页并结束会话？",
        MessageId::ConfirmQuit => "退出并结束所有会话？",
        MessageId::Connecting => "正在连接",
        MessageId::VerifyingHostKey => "正在验证主机密钥",
        MessageId::Authenticating => "正在认证",
        MessageId::OpeningShell => "正在打开终端",
        MessageId::Connected => "已连接",
        MessageId::Disconnected => "已断开",
        MessageId::AwaitingHostKey => "等待确认主机密钥",
        MessageId::AwaitingSecret => "等待输入凭据",
        MessageId::UnknownHostKey => "未知的主机密钥",
        MessageId::ChangedHostKey => "主机密钥已变更",
        MessageId::ExpectedFingerprint => "预期指纹",
        MessageId::PresentedFingerprint => "当前指纹",
        MessageId::Reject => "拒绝",
        MessageId::AcceptAndStore => "接受并保存",
        MessageId::OpenTrustedHosts => "打开受信任的主机",
        MessageId::Bell => "响铃",
        MessageId::InputQueueFull => "输入已暂停，正在等待连接",
        MessageId::PasteTooLarge => "粘贴内容超过 1 MiB",
        MessageId::CredentialUnavailable => "凭据存储不可用",
        MessageId::CredentialAccessDenied => "凭据存储拒绝访问",
        MessageId::CredentialInvalidReference => "凭据引用无效",
        MessageId::CredentialCorrupt => "保存的凭据已损坏",
        MessageId::CredentialAmbiguous => "凭据引用不唯一",
        MessageId::CredentialUnsupported => "凭据存储不支持此操作",
        MessageId::InvalidProfile => "连接配置无效",
        MessageId::ConnectTimeout => "连接超时",
        MessageId::ConnectFailed => "连接失败",
        MessageId::HostKeyRejected => "主机密钥已被拒绝",
        MessageId::HostKeyChanged => "主机密钥已变更",
        MessageId::HostKeyStoreFailed => "无法保存主机密钥",
        MessageId::PrivateKeyUnreadable => "无法读取私钥",
        MessageId::PrivateKeyPassphraseRejected => "私钥口令错误",
        MessageId::AgentUnavailable => "SSH 代理不可用",
        MessageId::AgentEmpty => "SSH 代理中没有密钥",
        MessageId::AuthenticationRejected => "认证被拒绝",
        MessageId::PtyRejected => "服务器拒绝分配终端",
        MessageId::SessionClosed => "会话已关闭",
        MessageId::ShellRejected => "服务器拒绝启动 shell",
    }
}

/// The message catalogs.
pub struct Catalog;

impl Catalog {
    /// The text of a message in a locale.
    pub fn text(locale: ResolvedLocale, id: MessageId) -> (r: &'static str)
        ensures
            r@ == catalog_text(locale, id),
    {
        match locale {
            ResolvedLocale::EnUs => english(id),
            ResolvedLocale::ZhCn => chinese(id),
        }
    }
}

} // verus!
