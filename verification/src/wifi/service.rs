//! The state behind the configuration service that a phone talks to.
//!
//! The phone writes SSID, password and a command, and reads the status.
//! Writes that are too long or not UTF-8 are ignored.

use crate::text::string_from_utf8;
use crate::wifi::config::command_of;
use crate::wifi::config::complaint;
use crate::wifi::config::ConfigCommand;
use crate::wifi::config::WifiConfig;
use crate::wifi::config::WifiStatus;
use crate::wifi::config::WifiStatusModel;
use crate::wifi::config::MAX_PASSWORD_LEN;
use crate::wifi::config::MAX_SSID_LEN;
use vstd::prelude::*;
use vstd::string::*;
use vstd::utf8::decode_utf8;
use vstd::utf8::valid_utf8;

verus! {

/// Name under which an unconfigured device advertises itself.
pub const DEVICE_NAME_UNCONFIGURED: &'static str = "Reticulum-Unconfigured";

/// Name under which a configured device advertises itself.
pub const DEVICE_NAME_CONFIGURED: &'static str = "Reticulum-Node";

/// `zeroize::Zeroize::zeroize` for `String`: overwrites the bytes of the
/// string with zeros and leaves the string empty.
#[verifier::external_body]
fn zeroize_string(s: &mut String)
    ensures
        final(s)@ == Seq::<char>::empty(),
{
    zeroize::Zeroize::zeroize(s);
}

/// `alloc::string::String::clear`: leaves the string empty.
pub assume_specification[ String::clear ](s: &mut String)
    ensures
        final(s)@ == Seq::<char>::empty(),
;

/// What the configuring device has written, and the status it can read.
pub struct WifiConfigService {
    status: WifiStatus,
    pending_ssid: String,
    pending_password: String,
    pending_command: Option<ConfigCommand>,
}

/// The service as plain values.
pub struct ServiceModel {
    /// The status that the device can read.
    pub status: WifiStatusModel,
    /// The SSID written last.
    pub ssid: Seq<char>,
    /// The password written last.
    pub password: Seq<char>,
    /// The command written last and not yet taken.
    pub command: Option<ConfigCommand>,
}

impl View for WifiConfigService {
    type V = ServiceModel;

    closed spec fn view(&self) -> ServiceModel {
        ServiceModel {
            status: self.status@,
            ssid: self.pending_ssid@,
            password: self.pending_password@,
            command: self.pending_command,
        }
    }
}

impl WifiConfigService {
    /// A service with nothing written and the status `Unconfigured`.
    pub fn new() -> (s: Self)
        ensures
            s@ == (ServiceModel {
                status: WifiStatusModel::Unconfigured,
                ssid: Seq::empty(),
                password: Seq::empty(),
                command: None,
            }),
    {
        WifiConfigService {
            status: WifiStatus::Unconfigured,
            pending_ssid: String::new(),
            pending_password: String::new(),
            pending_command: None,
        }
    }

    /// The name under which the device advertises itself.
    pub fn advertised_name(configured: bool) -> (name: &'static str)
        ensures
            name@ == if configured {
                DEVICE_NAME_CONFIGURED@
            } else {
                DEVICE_NAME_UNCONFIGURED@
            },
    {
        if configured {
            DEVICE_NAME_CONFIGURED
        } else {
            DEVICE_NAME_UNCONFIGURED
        }
    }

    /// The current status.
    pub fn get_status(&self) -> (status: WifiStatus)
        ensures
            status@ == self@.status,
    {
        match &self.status {
            WifiStatus::Unconfigured => WifiStatus::Unconfigured,
            WifiStatus::Connecting => WifiStatus::Connecting,
            WifiStatus::Connected { ip } => WifiStatus::Connected { ip: ip.clone() },
            WifiStatus::Failed { reason } => WifiStatus::Failed { reason: reason.clone() },
        }
    }

    /// Sets the status.
    pub fn set_status(&mut self, new_status: WifiStatus)
        ensures
            final(self)@ == (ServiceModel { status: new_status@, ..old(self)@ }),
    {
        self.status = new_status;
    }

    /// The SSID written last.
    pub fn pending_ssid(&self) -> (ssid: &str)
        ensures
            ssid@ == self@.ssid,
    {
        self.pending_ssid.as_str()
    }

    /// Takes in a write to the SSID: kept if it has at most 32 bytes of
    /// valid UTF-8, ignored otherwise.
    pub fn write_ssid(&mut self, data: &[u8])
        ensures
            data@.len() <= MAX_SSID_LEN && valid_utf8(data@) ==> final(self)@ == (ServiceModel {
                ssid: decode_utf8(data@),
                ..old(self)@
            }),
            !(data@.len() <= MAX_SSID_LEN && valid_utf8(data@)) ==> final(self)@ == old(self)@,
    {
        if data.len() > MAX_SSID_LEN {
            return ;
        }
        match string_from_utf8(data) {
            Some(s) => {
                self.pending_ssid = s;
            },
            None => {},
        }
    }

    /// Takes in a write to the password: kept if it has at most 64 bytes of
    /// valid UTF-8, ignored otherwise.
    pub fn write_password(&mut self, data: &[u8])
        ensures
            data@.len() <= MAX_PASSWORD_LEN && valid_utf8(data@) ==> final(self)@ == (ServiceModel {
                password: decode_utf8(data@),
                ..old(self)@
            }),
            !(data@.len() <= MAX_PASSWORD_LEN && valid_utf8(data@)) ==> final(self)@ == old(self)@,
    {
        if data.len() > MAX_PASSWORD_LEN {
            return ;
        }
        match string_from_utf8(data) {
            Some(s) => {
                self.pending_password = s;
            },
            None => {},
        }
    }

    /// Takes in a write to the command: kept if it is valid UTF-8 that
    /// spells a command, ignored otherwise.
    pub fn write_command(&mut self, data: &[u8])
        ensures
            valid_utf8(data@) && command_of(decode_utf8(data@)) is Some ==> final(self)@ == (
            ServiceModel { command: command_of(decode_utf8(data@)), ..old(self)@ }),
            !(valid_utf8(data@) && command_of(decode_utf8(data@)) is Some) ==> final(self)@ == old(self)@,
    {
        match string_from_utf8(data) {
            Some(s) => match ConfigCommand::parse(s.as_str()) {
                Ok(command) => {
                    self.pending_command = Some(command);
                },
                Err(_) => {},
            },
            None => {},
        }
    }

    /// Takes the pending command, if there is one.
    pub fn take_pending_command(&mut self) -> (command: Option<ConfigCommand>)
        ensures
            command == old(self)@.command,
            final(self)@ == (ServiceModel { command: None, ..old(self)@ }),
    {
        let command = self.pending_command;
        self.pending_command = None;
        command
    }

    /// The pending credentials, if an SSID was written and the credentials
    /// pass validation.
    pub fn get_pending_config(&self) -> (config: Option<WifiConfig>)
        ensures
            config is Some <==> complaint(self@.ssid, self@.password) is None,
            config is Some ==> config->Some_0.ssid@ == self@.ssid && config->Some_0.password@
                == self@.password,
    {
        match WifiConfig::new(self.pending_ssid.as_str(), self.pending_password.as_str()) {
            Ok(config) => Some(config),
            Err(_) => None,
        }
    }

    /// Forgets the pending credentials; the password is overwritten with
    /// zeros before it is released.
    pub fn clear_pending(&mut self)
        ensures
            final(self)@ == (ServiceModel {
                ssid: Seq::empty(),
                password: Seq::empty(),
                ..old(self)@
            }),
    {
        zeroize_string(&mut self.pending_password);
        self.pending_ssid.clear();
    }
}

} // verus!
