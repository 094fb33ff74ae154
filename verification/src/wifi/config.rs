//! WiFi credentials, their wire form, and the status and commands that are
//! exchanged with the configuring device.
//!
//! The wire form of a configuration is the SSID and the password, each as
//! UTF-8 behind one byte that gives its length.

use crate::text::chars_of;
use crate::text::decimal;
use crate::text::has_prefix;
use crate::text::lower;
use crate::text::push_decimal;
use crate::text::push_text;
use crate::text::same_text;
use crate::text::skip_leading_space;
use crate::text::skip_trailing_space;
use crate::text::spells;
use crate::text::string_from_utf8;
use crate::text::string_of;
use crate::text::trim;
use vstd::prelude::*;
use vstd::slice::slice_subrange;
use vstd::string::*;
use vstd::utf8::decode_utf8;
use vstd::utf8::encode_utf8;
use vstd::utf8::valid_utf8;

verus! {

/// Maximum SSID length in bytes.
pub const MAX_SSID_LEN: usize = 32;

/// Maximum password length in bytes.
pub const MAX_PASSWORD_LEN: usize = 64;

/// Minimum length in bytes of a password that is not empty.
pub const MIN_PASSWORD_LEN: usize = 8;

/// Seconds after which a connection attempt is given up.
pub const CONNECTION_TIMEOUT_SECS: u64 = 30;

/// WiFi credentials.
#[derive(Debug, Clone, PartialEq, Eq)]
pub struct WifiConfig {
    /// Network name.
    pub ssid: String,
    /// Password; empty for an open network.
    pub password: String,
}

/// Errors of the WiFi configuration.
#[derive(Debug, Clone, PartialEq, Eq)]
pub enum ConfigError {
    /// The SSID is empty.
    SsidEmpty,
    /// The SSID is longer than allowed.
    SsidTooLong {
        /// Length of the SSID in bytes.
        len: usize,
        /// Maximum length.
        max: usize,
    },
    /// The password is neither empty nor long enough.
    PasswordTooShort {
        /// Length of the password in bytes.
        len: usize,
        /// Minimum length.
        min: usize,
    },
    /// The password is longer than allowed.
    PasswordTooLong {
        /// Length of the password in bytes.
        len: usize,
        /// Maximum length.
        max: usize,
    },
    /// The data is not in the expected form; the text says why.
    InvalidFormat(String),
    /// The command is not known; the text is the command.
    UnknownCommand(String),
}

/// An error as plain values.
pub enum ConfigErrorModel {
    /// The SSID is empty.
    SsidEmpty,
    /// The SSID is longer than allowed.
    SsidTooLong { len: usize, max: usize },
    /// The password is neither empty nor long enough.
    PasswordTooShort { len: usize, min: usize },
    /// The password is longer than allowed.
    PasswordTooLong { len: usize, max: usize },
    /// The data is not in the expected form.
    InvalidFormat(Seq<char>),
    /// The command is not known.
    UnknownCommand(Seq<char>),
}

impl View for ConfigError {
    type V = ConfigErrorModel;

    open spec fn view(&self) -> ConfigErrorModel {
        match *self {
            ConfigError::SsidEmpty => ConfigErrorModel::SsidEmpty,
            ConfigError::SsidTooLong { len, max } => ConfigErrorModel::SsidTooLong { len, max },
            ConfigError::PasswordTooShort { len, min } => ConfigErrorModel::PasswordTooShort {
                len,
                min,
            },
            ConfigError::PasswordTooLong { len, max } => ConfigErrorModel::PasswordTooLong {
                len,
                max,
            },
            ConfigError::InvalidFormat(why) => ConfigErrorModel::InvalidFormat(why@),
            ConfigError::UnknownCommand(command) => ConfigErrorModel::UnknownCommand(command@),
        }
    }
}

/// The sentence that describes an error.
pub open spec fn error_text(error: ConfigErrorModel) -> Seq<char> {
    match error {
        ConfigErrorModel::SsidEmpty => "SSID cannot be empty"@,
        ConfigErrorModel::SsidTooLong { len, max } => "SSID too long: "@ + decimal(len as nat)
            + " bytes (max "@ + decimal(max as nat) + ")"@,
        ConfigErrorModel::PasswordTooShort { len, min } => "password too short: "@ + decimal(
            len as nat,
        ) + " bytes (min "@ + decimal(min as nat) + ")"@,
        ConfigErrorModel::PasswordTooLong { len, max } => "password too long: "@ + decimal(
            len as nat,
        ) + " bytes (max "@ + decimal(max as nat) + ")"@,
        ConfigErrorModel::InvalidFormat(why) => "invalid format: "@ + why,
        ConfigErrorModel::UnknownCommand(command) => "unknown command: "@ + command,
    }
}

/// Formats `lead`, a length, `middle`, a limit and a closing bracket.
fn length_complaint(lead: &str, len: usize, middle: &str, limit: usize) -> (s: String)
    ensures
        s@ == lead@ + decimal(len as nat) + middle@ + decimal(limit as nat) + ")"@,
{
    let mut s = String::from_str(lead);
    push_decimal(&mut s, len as u64);
    push_text(&mut s, middle);
    push_decimal(&mut s, limit as u64);
    push_text(&mut s, ")");
    s
}

impl ConfigError {
    /// A sentence that describes the error.
    pub fn describe(&self) -> (s: String)
        ensures
            s@ == error_text(self@),
    {
        match self {
            ConfigError::SsidEmpty => String::from_str("SSID cannot be empty"),
            ConfigError::SsidTooLong { len, max } => length_complaint(
                "SSID too long: ",
                *len,
                " bytes (max ",
                *max,
            ),
            ConfigError::PasswordTooShort { len, min } => length_complaint(
                "password too short: ",
                *len,
                " bytes (min ",
                *min,
            ),
            ConfigError::PasswordTooLong { len, max } => length_complaint(
                "password too long: ",
                *len,
                " bytes (max ",
                *max,
            ),
            ConfigError::InvalidFormat(why) => {
                let mut s = String::from_str("invalid format: ");
                push_text(&mut s, why.as_str());
                s
            },
            ConfigError::UnknownCommand(command) => {
                let mut s = String::from_str("unknown command: ");
                push_text(&mut s, command.as_str());
                s
            },
        }
    }
}

/// What is wrong with a pair of SSID and password, if anything: the SSID
/// must have between 1 and 32 bytes, the password must be empty or have
/// between 8 and 64 bytes.
pub open spec fn complaint(ssid: Seq<char>, password: Seq<char>) -> Option<ConfigErrorModel> {
    let ssid_len = encode_utf8(ssid).len();
    let password_len = encode_utf8(password).len();
    if ssid_len == 0 {
        Some(ConfigErrorModel::SsidEmpty)
    } else if ssid_len > MAX_SSID_LEN {
        Some(ConfigErrorModel::SsidTooLong { len: ssid_len as usize, max: MAX_SSID_LEN })
    } else if password_len != 0 && password_len < MIN_PASSWORD_LEN {
        Some(
            ConfigErrorModel::PasswordTooShort {
                len: password_len as usize,
                min: MIN_PASSWORD_LEN,
            },
        )
    } else if password_len > MAX_PASSWORD_LEN {
        Some(
            ConfigErrorModel::PasswordTooLong {
                len: password_len as usize,
                max: MAX_PASSWORD_LEN,
            },
        )
    } else {
        None
    }
}

/// The wire form of SSID and password. A length that does not fit one byte
/// is reduced modulo 256.
pub open spec fn encoded(ssid: Seq<char>, password: Seq<char>) -> Seq<u8> {
    seq![(encode_utf8(ssid).len() % 256) as u8] + encode_utf8(ssid) + seq![
        (encode_utf8(password).len() % 256) as u8,
    ] + encode_utf8(password)
}

/// What the wire form holds: SSID and password, or the reason why it cannot
/// be read. What follows the password is ignored.
pub open spec fn decoded(bytes: Seq<u8>) -> Result<(Seq<char>, Seq<char>), ConfigErrorModel> {
    if bytes.len() == 0 {
        Err(ConfigErrorModel::InvalidFormat("empty data"@))
    } else {
        let ssid_len = bytes[0] as int;
        if bytes.len() < 1 + ssid_len + 1 {
            Err(ConfigErrorModel::InvalidFormat("truncated SSID"@))
        } else if !valid_utf8(bytes.subrange(1, 1 + ssid_len)) {
            Err(ConfigErrorModel::InvalidFormat("invalid SSID UTF-8"@))
        } else {
            let password_len = bytes[1 + ssid_len] as int;
            let start = 2 + ssid_len;
            if bytes.len() < start + password_len {
                Err(ConfigErrorModel::InvalidFormat("truncated password"@))
            } else if !valid_utf8(bytes.subrange(start, start + password_len)) {
                Err(ConfigErrorModel::InvalidFormat("invalid password UTF-8"@))
            } else {
                let ssid = decode_utf8(bytes.subrange(1, 1 + ssid_len));
                let password = decode_utf8(bytes.subrange(start, start + password_len));
                match complaint(ssid, password) {
                    Some(e) => Err(e),
                    None => Ok((ssid, password)),
                }
            }
        }
    }
}

/// The wire form of valid credentials reads back as the same credentials.
pub proof fn lemma_wire_round_trip(ssid: Seq<char>, password: Seq<char>)
    requires
        complaint(ssid, password) is None,
    ensures
        decoded(encoded(ssid, password)) == Ok::<(Seq<char>, Seq<char>), ConfigErrorModel>(
            (ssid, password),
        ),
{
    broadcast use vstd::utf8::encode_utf8_valid_utf8;
    broadcast use vstd::utf8::encode_utf8_decode_utf8;

    let s = encode_utf8(ssid);
    let p = encode_utf8(password);
    let bytes = encoded(ssid, password);
    let sn = s.len() as int;
    let pn = p.len() as int;
    assert(bytes[0] == sn);
    assert(bytes.subrange(1, 1 + sn) =~= s);
    assert(bytes[1 + sn] == pn);
    assert(bytes.subrange(2 + sn, 2 + sn + pn) =~= p);
    assert(valid_utf8(s));
    assert(valid_utf8(p));
    assert(decode_utf8(s) == ssid);
    assert(decode_utf8(p) == password);
}

impl WifiConfig {
    /// Credentials that pass validation, or the first complaint.
    pub fn new(ssid: &str, password: &str) -> (r: Result<Self, ConfigError>)
        ensures
            match complaint(ssid@, password@) {
                Some(e) => r is Err && r->Err_0@ == e,
                None => r is Ok && r->Ok_0.ssid@ == ssid@ && r->Ok_0.password@ == password@,
            },
    {
        let config = WifiConfig { ssid: ssid.to_owned(), password: password.to_owned() };
        match config.validate() {
            Err(e) => Err(e),
            Ok(()) => Ok(config),
        }
    }

    /// Credentials of an open network: no password.
    pub fn open(ssid: &str) -> (r: Result<Self, ConfigError>)
        ensures
            match complaint(ssid@, Seq::<char>::empty()) {
                Some(e) => r is Err && r->Err_0@ == e,
                None => r is Ok && r->Ok_0.ssid@ == ssid@ && r->Ok_0.password@
                    == Seq::<char>::empty(),
            },
    {
        let config = WifiConfig { ssid: ssid.to_owned(), password: String::new() };
        match config.validate() {
            Err(e) => Err(e),
            Ok(()) => Ok(config),
        }
    }

    /// Checks the lengths of SSID and password; reports the first complaint.
    pub fn validate(&self) -> (r: Result<(), ConfigError>)
        ensures
            match complaint(self.ssid@, self.password@) {
                Some(e) => r is Err && r->Err_0@ == e,
                None => r is Ok,
            },
    {
        let ssid_len = self.ssid.as_str().as_bytes().len();
        let password_len = self.password.as_str().as_bytes().len();
        if ssid_len == 0 {
            return Err(ConfigError::SsidEmpty);
        }
        if ssid_len > MAX_SSID_LEN {
            return Err(ConfigError::SsidTooLong { len: ssid_len, max: MAX_SSID_LEN });
        }
        if password_len != 0 && password_len < MIN_PASSWORD_LEN {
            return Err(ConfigError::PasswordTooShort { len: password_len, min: MIN_PASSWORD_LEN });
        }
        if password_len > MAX_PASSWORD_LEN {
            return Err(ConfigError::PasswordTooLong { len: password_len, max: MAX_PASSWORD_LEN });
        }
        Ok(())
    }

    /// Whether the network is open: the password is empty.
    pub fn is_open(&self) -> (r: bool)
        ensures
            r == (encode_utf8(self.password@).len() == 0),
    {
        self.password.as_str().as_bytes().len() == 0
    }

    /// The wire form of the credentials.
    pub fn to_bytes(&self) -> (bytes: Vec<u8>)
        ensures
            bytes@ == encoded(self.ssid@, self.password@),
    {
        let ssid = self.ssid.as_str().as_bytes();
        let password = self.password.as_str().as_bytes();
        let mut bytes: Vec<u8> = Vec::new();
        bytes.push((ssid.len() % 256) as u8);
        bytes.extend_from_slice(ssid);
        bytes.push((password.len() % 256) as u8);
        bytes.extend_from_slice(password);
        assert(bytes@ =~= encoded(self.ssid@, self.password@));
        bytes
    }

    /// Reads credentials from their wire form and validates them.
    pub fn from_bytes(bytes: &[u8]) -> (r: Result<Self, ConfigError>)
        ensures
            match decoded(bytes@) {
                Ok(pair) => r is Ok && r->Ok_0.ssid@ == pair.0 && r->Ok_0.password@ == pair.1,
                Err(e) => r is Err && r->Err_0@ == e,
            },
    {
        if bytes.len() == 0 {
            return Err(ConfigError::InvalidFormat(String::from_str("empty data")));
        }
        let ssid_len = bytes[0] as usize;
        if bytes.len() < 1 + ssid_len + 1 {
            return Err(ConfigError::InvalidFormat(String::from_str("truncated SSID")));
        }
        let ssid = match string_from_utf8(slice_subrange(bytes, 1, 1 + ssid_len)) {
            Some(s) => s,
            None => {
                return Err(ConfigError::InvalidFormat(String::from_str("invalid SSID UTF-8")));
            },
        };
        let password_len = bytes[1 + ssid_len] as usize;
        let start = 2 + ssid_len;
        if bytes.len() < start + password_len {
            return Err(ConfigError::InvalidFormat(String::from_str("truncated password")));
        }
        let password = match string_from_utf8(slice_subrange(bytes, start, start + password_len)) {
            Some(s) => s,
            None => {
                return Err(ConfigError::InvalidFormat(String::from_str("invalid password UTF-8")));
            },
        };
        WifiConfig::new(ssid.as_str(), password.as_str())
    }
}

/// State of the WiFi connection.
#[derive(Debug, Clone, PartialEq, Eq)]
pub enum WifiStatus {
    /// No credentials are stored.
    Unconfigured,
    /// A connection attempt is under way.
    Connecting,
    /// Connected, with this address.
    Connected {
        /// The address that was assigned.
        ip: String,
    },
    /// The connection attempt failed.
    Failed {
        /// Why it failed.
        reason: String,
    },
}

/// A status as plain values.
pub enum WifiStatusModel {
    /// No credentials are stored.
    Unconfigured,
    /// A connection attempt is under way.
    Connecting,
    /// Connected, with this address.
    Connected { ip: Seq<char> },
    /// The connection attempt failed.
    Failed { reason: Seq<char> },
}

impl View for WifiStatus {
    type V = WifiStatusModel;

    open spec fn view(&self) -> WifiStatusModel {
        match *self {
            WifiStatus::Unconfigured => WifiStatusModel::Unconfigured,
            WifiStatus::Connecting => WifiStatusModel::Connecting,
            WifiStatus::Connected { ip } => WifiStatusModel::Connected { ip: ip@ },
            WifiStatus::Failed { reason } => WifiStatusModel::Failed { reason: reason@ },
        }
    }
}

/// The text that stands for a status.
pub open spec fn status_text(status: WifiStatusModel) -> Seq<char> {
    match status {
        WifiStatusModel::Unconfigured => "unconfigured"@,
        WifiStatusModel::Connecting => "connecting"@,
        WifiStatusModel::Connected { ip } => "connected:"@ + ip,
        WifiStatusModel::Failed { reason } => "failed:"@ + reason,
    }
}

/// The status that a text stands for, if any.
pub open spec fn status_of(text: Seq<char>) -> Option<WifiStatusModel> {
    if text == "unconfigured"@ {
        Some(WifiStatusModel::Unconfigured)
    } else if text == "connecting"@ {
        Some(WifiStatusModel::Connecting)
    } else if "connected:"@.is_prefix_of(text) {
        Some(WifiStatusModel::Connected { ip: text.skip("connected:"@.len() as int) })
    } else if "failed:"@.is_prefix_of(text) {
        Some(WifiStatusModel::Failed { reason: text.skip("failed:"@.len() as int) })
    } else {
        None
    }
}

/// The text of a status reads back as the same status.
pub proof fn lemma_status_round_trip(status: WifiStatusModel)
    ensures
        status_of(status_text(status)) == Some(status),
{
    reveal_strlit("unconfigured");
    reveal_strlit("connecting");
    reveal_strlit("connected:");
    reveal_strlit("failed:");
    let text = status_text(status);
    match status {
        WifiStatusModel::Unconfigured => {},
        WifiStatusModel::Connecting => {},
        WifiStatusModel::Connected { ip } => {
            assert(text[1] == 'o');
            assert(text[9] == ':');
            assert(text.subrange(0, 10) =~= "connected:"@);
            assert(text.skip(10) =~= ip);
        },
        WifiStatusModel::Failed { reason } => {
            assert(text[0] == 'f');
            assert(text.subrange(0, 7) =~= "failed:"@);
            assert(text.skip(7) =~= reason);
        },
    }
}

impl WifiStatus {
    /// The text that stands for the status.
    pub fn to_ble_string(&self) -> (s: String)
        ensures
            s@ == status_text(self@),
    {
        match self {
            WifiStatus::Unconfigured => String::from_str("unconfigured"),
            WifiStatus::Connecting => String::from_str("connecting"),
            WifiStatus::Connected { ip } => {
                let mut s = String::from_str("connected:");
                push_text(&mut s, ip.as_str());
                s
            },
            WifiStatus::Failed { reason } => {
                let mut s = String::from_str("failed:");
                push_text(&mut s, reason.as_str());
                s
            },
        }
    }

    /// The status that a text stands for; any other text is refused as
    /// `InvalidFormat`.
    pub fn from_ble_string(s: &str) -> (r: Result<Self, ConfigError>)
        ensures
            match status_of(s@) {
                Some(status) => r is Ok && r->Ok_0@ == status,
                None => r is Err && r->Err_0@ == ConfigErrorModel::InvalidFormat(
                    "unknown status: "@ + s@,
                ),
            },
    {
        if same_text(s, "unconfigured") {
            return Ok(WifiStatus::Unconfigured);
        }
        if same_text(s, "connecting") {
            return Ok(WifiStatus::Connecting);
        }
        let chars = chars_of(s);
        if has_prefix(&chars, "connected:") {
            let n = "connected:".unicode_len();
            let ip = string_of(&chars, n, chars.len());
            assert(ip@ =~= s@.skip(n as int));
            return Ok(WifiStatus::Connected { ip });
        }
        if has_prefix(&chars, "failed:") {
            let n = "failed:".unicode_len();
            let reason = string_of(&chars, n, chars.len());
            assert(reason@ =~= s@.skip(n as int));
            return Ok(WifiStatus::Failed { reason });
        }
        let mut why = String::from_str("unknown status: ");
        push_text(&mut why, s);
        Err(ConfigError::InvalidFormat(why))
    }
}

/// A command from the configuring device.
#[derive(Debug, Clone, Copy, PartialEq, Eq, Structural)]
pub enum ConfigCommand {
    /// Connect with the pending credentials.
    Connect,
    /// Disconnect.
    Disconnect,
    /// Forget the stored credentials.
    Clear,
}

/// The command that a text stands for, without regard to case and to white
/// space around it.
pub open spec fn command_of(text: Seq<char>) -> Option<ConfigCommand> {
    let word = lower(trim(text));
    if word == "connect"@ {
        Some(ConfigCommand::Connect)
    } else if word == "disconnect"@ {
        Some(ConfigCommand::Disconnect)
    } else if word == "clear"@ {
        Some(ConfigCommand::Clear)
    } else {
        None
    }
}

impl ConfigCommand {
    /// The word that stands for the command.
    pub fn as_str(&self) -> (s: &'static str)
        ensures
            s@ == match *self {
                ConfigCommand::Connect => "connect"@,
                ConfigCommand::Disconnect => "disconnect"@,
                ConfigCommand::Clear => "clear"@,
            },
    {
        match self {
            ConfigCommand::Connect => "connect",
            ConfigCommand::Disconnect => "disconnect",
            ConfigCommand::Clear => "clear",
        }
    }

    /// The command that a text stands for; any other text is refused as
    /// `UnknownCommand`.
    pub fn parse(s: &str) -> (r: Result<Self, ConfigError>)
        ensures
            match command_of(s@) {
                Some(command) => r == Ok::<Self, ConfigError>(command),
                None => r is Err && r->Err_0@ == ConfigErrorModel::UnknownCommand(s@),
            },
    {
        let chars = chars_of(s);
        assert(chars@.subrange(0, chars@.len() as int) =~= chars@);
        let from = skip_leading_space(&chars, 0, chars.len());
        let to = skip_trailing_space(&chars, from, chars.len());
        if spells(&chars, from, to, "connect") {
            Ok(ConfigCommand::Connect)
        } else if spells(&chars, from, to, "disconnect") {
            Ok(ConfigCommand::Disconnect)
        } else if spells(&chars, from, to, "clear") {
            Ok(ConfigCommand::Clear)
        } else {
            Err(ConfigError::UnknownCommand(s.to_owned()))
        }
    }
}

impl std::str::FromStr for ConfigCommand {
    type Err = ConfigError;

    /// The command that a text stands for; see [`ConfigCommand::parse`].
    fn from_str(s: &str) -> (r: Result<Self, ConfigError>)
        ensures
            match command_of(s@) {
                Some(command) => r == Ok::<Self, ConfigError>(command),
                None => r is Err && r->Err_0@ == ConfigErrorModel::UnknownCommand(s@),
            },
    {
        ConfigCommand::parse(s)
    }
}

} // verus!
