//! Process configuration: the two server ports and the storage directory.
//! Settings are built once at startup from the command line and the
//! environment, and passed by reference from then on; the defaults and the
//! command-line overlay are fixed here.

use vstd::prelude::*;
use vstd::string::StringExecFns;

verus! {

/// The command-line surface: each setting optional, overriding its
/// default when given.
#[derive(Clone, Debug)]
pub struct Cli {
    pub port_sink: Option<u16>,
    pub port_dashboard: Option<u16>,
    pub requests_folder: Option<String>,
}

/// The resolved process settings.
#[derive(Clone, Debug)]
pub struct Settings {
    pub port_sink: u16,
    pub port_dashboard: u16,
    pub requests_folder: String,
}

/// Default port for the sink server.
pub fn default_port_sink() -> (p: u16)
    ensures
        p == 5000,
{
    5000
}

/// Default port for the dashboard server.
pub fn default_port_dashboard() -> (p: u16)
    ensures
        p == 5001,
{
    5001
}

/// Default storage directory for received requests.
pub fn default_requests_folder() -> (r: String)
    ensures
        r@ == "00_requests"@,
{
    String::from_str("00_requests")
}

impl Settings {
    /// Resolves the settings from the command line: each value given there
    /// wins, each missing one falls back to its default.
    pub fn from_cli(cli: Cli) -> (r: Settings)
        ensures
            r.port_sink == (match cli.port_sink {
                Some(p) => p,
                None => 5000u16,
            }),
            r.port_dashboard == (match cli.port_dashboard {
                Some(p) => p,
                None => 5001u16,
            }),
            (match cli.requests_folder {
                Some(f) => r.requests_folder@ == f@,
                None => r.requests_folder@ == "00_requests"@,
            }),
    {
        let port_sink = match cli.port_sink {
            Some(p) => p,
            None => default_port_sink(),
        };
        let port_dashboard = match cli.port_dashboard {
            Some(p) => p,
            None => default_port_dashboard(),
        };
        let requests_folder = match cli.requests_folder {
            Some(f) => f,
            None => default_requests_folder(),
        };
        Settings { port_sink, port_dashboard, requests_folder }
    }
}

} // verus!
