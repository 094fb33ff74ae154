//! The backbone hubs of the test network.

use crate::text::decimal;
use crate::text::push_decimal;
use crate::text::push_text;
use vstd::prelude::*;
use vstd::string::*;

verus! {

/// Seconds after which a connection attempt is given up.
pub const CONNECT_TIMEOUT_SECS: u64 = 10;

/// Seconds after which a read is given up.
pub const READ_TIMEOUT_SECS: u64 = 30;

/// A hub of the test network.
#[derive(Debug, Clone, Copy)]
pub struct TestnetServer {
    /// Name of the hub.
    pub name: &'static str,
    /// Host name.
    pub host: &'static str,
    /// TCP port.
    pub port: u16,
}

impl TestnetServer {
    /// A hub.
    pub fn new(name: &'static str, host: &'static str, port: u16) -> (s: Self)
        ensures
            s.name@ == name@,
            s.host@ == host@,
            s.port == port,
    {
        TestnetServer { name, host, port }
    }

    /// The address of the hub: host and port, with a colon between.
    pub fn address(&self) -> (a: String)
        ensures
            a@ == self.host@ + ":"@ + decimal(self.port as nat),
    {
        let mut a = String::from_str(self.host);
        push_text(&mut a, ":");
        push_decimal(&mut a, self.port as u64);
        a
    }
}

/// The hub in Dublin.
pub fn dublin() -> (s: TestnetServer)
    ensures
        s.name@ == "Dublin"@,
        s.host@ == "dublin.connect.reticulum.network"@,
        s.port == 4965,
{
    TestnetServer::new("Dublin", "dublin.connect.reticulum.network", 4965)
}

/// The hub in Frankfurt.
pub fn frankfurt() -> (s: TestnetServer)
    ensures
        s.name@ == "Frankfurt"@,
        s.host@ == "frankfurt.connect.reticulum.network"@,
        s.port == 5377,
{
    TestnetServer::new("Frankfurt", "frankfurt.connect.reticulum.network", 5377)
}

/// The hub of BetweenTheBorders.
pub fn between_the_borders() -> (s: TestnetServer)
    ensures
        s.name@ == "BetweenTheBorders"@,
        s.host@ == "reticulum.betweentheborders.com"@,
        s.port == 4242,
{
    TestnetServer::new("BetweenTheBorders", "reticulum.betweentheborders.com", 4242)
}

/// The hub that is tried first.
pub fn default_server() -> (s: TestnetServer)
    ensures
        s.name@ == "Dublin"@,
        s.port == 4965,
{
    dublin()
}

/// All hubs, in the order in which they are tried.
pub fn servers() -> (all: Vec<TestnetServer>)
    ensures
        all@.len() == 3,
        all@[0].name@ == "Dublin"@,
        all@[1].name@ == "Frankfurt"@,
        all@[2].name@ == "BetweenTheBorders"@,
{
    let mut all: Vec<TestnetServer> = Vec::new();
    all.push(dublin());
    all.push(frankfurt());
    all.push(between_the_borders());
    all
}

/// Errors of the connection to a hub. Where the operating system reported
/// the error, its text is kept.
#[derive(Debug, Clone, PartialEq, Eq)]
pub enum TransportError {
    /// The host name could not be resolved.
    DnsResolution(String),
    /// The host name resolved to no address.
    NoAddresses,
    /// The connection could not be made.
    Connection(String),
    /// Reading or writing failed.
    Io(String),
    /// There was no hub to try.
    NoServers,
}

impl TransportError {
    /// A sentence that describes the error.
    pub fn describe(&self) -> (s: String)
        ensures
            s@ == match *self {
                TransportError::DnsResolution(e) => "DNS resolution failed: "@ + e@,
                TransportError::NoAddresses => "no addresses found for hostname"@,
                TransportError::Connection(e) => "connection failed: "@ + e@,
                TransportError::Io(e) => "I/O error: "@ + e@,
                TransportError::NoServers => "no servers provided"@,
            },
    {
        match self {
            TransportError::DnsResolution(e) => {
                let mut s = String::from_str("DNS resolution failed: ");
                push_text(&mut s, e.as_str());
                s
            },
            TransportError::NoAddresses => String::from_str("no addresses found for hostname"),
            TransportError::Connection(e) => {
                let mut s = String::from_str("connection failed: ");
                push_text(&mut s, e.as_str());
                s
            },
            TransportError::Io(e) => {
                let mut s = String::from_str("I/O error: ");
                push_text(&mut s, e.as_str());
                s
            },
            TransportError::NoServers => String::from_str("no servers provided"),
        }
    }
}

/// What to report after every hub was tried without success: the error of
/// the last attempt, or `NoServers` if there was no hub to try.
pub fn last_failure(failures: Vec<TransportError>) -> (e: TransportError)
    ensures
        failures@.len() == 0 ==> e == TransportError::NoServers,
        failures@.len() > 0 ==> e == failures@.last(),
{
    let mut failures = failures;
    match failures.pop() {
        Some(e) => e,
        None => TransportError::NoServers,
    }
}

} // verus!
