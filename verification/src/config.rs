//! Configuration: what the operator wrote down, and what the sink makes of it.

use crate::text::{decimal, push_decimal_nat};
use vstd::prelude::*;
use vstd::string::StringExecFns;

verus! {

/// The settings file, as the operator wrote it. Every entry may be left out.
#[derive(Debug, PartialEq)]
pub struct Args {
    /// The backend's host name, used where `influx_url` is left out.
    pub influx_host: Option<String>,
    /// The backend's port, used where `influx_url` is left out.
    pub influx_port: Option<u16>,
    pub influx_username: Option<String>,
    pub influx_password: Option<String>,
    /// The backend's base URL; takes the place of host and port.
    pub influx_url: Option<String>,
    /// The database that the measurements are written to.
    pub influx_database: Option<String>,
}

/// Where the measurements go and under whose name. Made once from the
/// settings and never changed afterwards. Timestamps are always written in
/// seconds.
pub struct SinkConfig {
    pub base_url: String,
    pub database: String,
    pub username: String,
    pub password: String,
}

/// The plain values of a `SinkConfig`.
pub struct SinkModel {
    pub base_url: Seq<char>,
    pub database: Seq<char>,
    pub username: Seq<char>,
    pub password: Seq<char>,
}

impl View for SinkConfig {
    type V = SinkModel;

    open spec fn view(&self) -> SinkModel {
        SinkModel {
            base_url: self.base_url@,
            database: self.database@,
            username: self.username@,
            password: self.password@,
        }
    }
}

/// The text of `value`, or `default` where there is none.
pub open spec fn text_or(value: Option<String>, default: Seq<char>) -> Seq<char> {
    match value {
        Some(text) => text@,
        None => default,
    }
}

/// The port to use where the settings name none.
pub const DEFAULT_PORT: u16 = 8086;

/// The backend's base URL: the one given, else `http://<host>:<port>` with
/// `localhost` and the default port for what is left out.
pub open spec fn base_url_of(args: Args) -> Seq<char> {
    match args.influx_url {
        Some(url) => url@,
        None => "http://"@ + text_or(args.influx_host, "localhost"@) + ":"@ + decimal(
            match args.influx_port {
                Some(port) => port as int,
                None => DEFAULT_PORT as int,
            },
        ),
    }
}

/// The sink that the settings describe: the database defaults to
/// `glusterfs`, the user name and the password to the empty text.
pub open spec fn sink_of(args: Args) -> SinkModel {
    SinkModel {
        base_url: base_url_of(args),
        database: text_or(args.influx_database, "glusterfs"@),
        username: text_or(args.influx_username, ""@),
        password: text_or(args.influx_password, ""@),
    }
}

fn owned_or(value: Option<String>, default: &str) -> (r: String)
    ensures
        r@ == text_or(value, default@),
{
    match value {
        Some(text) => text,
        None => default.to_owned(),
    }
}

impl SinkConfig {
    /// Resolves the settings into a sink, filling in the defaults.
    pub fn from_args(args: Args) -> (r: SinkConfig)
        ensures
            r@ == sink_of(args),
    {
        let Args {
            influx_host,
            influx_port,
            influx_username,
            influx_password,
            influx_url,
            influx_database,
        } = args;
        let base_url = match influx_url {
            Some(url) => url,
            None => {
                let mut url = "http://".to_owned();
                let host = owned_or(influx_host, "localhost");
                url.append(host.as_str());
                url.append(":");
                let port: u16 = match influx_port {
                    Some(port) => port,
                    None => DEFAULT_PORT,
                };
                push_decimal_nat(&mut url, port as u64);
                url
            },
        };
        SinkConfig {
            base_url,
            database: owned_or(influx_database, "glusterfs"),
            username: owned_or(influx_username, ""),
            password: owned_or(influx_password, ""),
        }
    }
}

} // verus!
