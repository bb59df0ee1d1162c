//! The configuration, and what the proxy is started with.

use crate::proxy::Proxy;
use crate::route::Route;
use crate::text::{self, decimal};
use vstd::prelude::*;

verus! {

/// A span of time.
#[derive(Debug, Clone, Copy)]
pub struct Span {
    pub secs: u64,
    pub nanos: u32,
}

/// The settings as a configuration file gives them; those that may be missing are
/// optional.
#[derive(Debug)]
pub struct ConfigFile {
    pub routes: Vec<Route>,
    pub port: u16,
    pub max_body_bytes: Option<u64>,
    pub connection_pool_size: Option<usize>,
    pub gateway_expectation: Option<Span>,
    pub gateway_timeout: Option<Span>,
}

#[derive(Debug, Clone)]
pub struct Config {
    pub routes: Vec<Route>,
    /// The port to listen on.
    pub port: u16,
    /// The largest request body to accept.
    pub max_body_bytes: u64,
    /// How many idle connections to keep per upstream host.
    pub connection_pool_size: usize,
    pub gateway_expectation: Span,
    /// How long to wait for a reply of an upstream service.
    pub gateway_timeout: Span,
}

/// The set value, or the default where none is set.
pub open spec fn set_or<T>(setting: Option<T>, default: T) -> T {
    match setting {
        Some(value) => value,
        None => default,
    }
}

/// A value that is set stays, and one that is not is the default.
pub proof fn law_set_values_stay<T>(value: T, default: T)
    ensures
        set_or(Some(value), default) == value,
        set_or(None, default) == default,
{
}

impl Config {
    pub fn default_max_body() -> (bytes: u64)
        ensures
            bytes == 1048576,
    {
        1024 * 1024
    }

    /// Two connections per processor core.
    pub fn default_pool_size(cores: usize) -> (connections: usize)
        requires
            2 * cores <= usize::MAX,
        ensures
            connections == 2 * cores,
    {
        2 * cores
    }

    pub fn default_timeout() -> (span: Span)
        ensures
            span == (Span { secs: 5, nanos: 0 }),
    {
        Span { secs: 5, nanos: 0 }
    }

    pub fn default_expectation() -> (span: Span)
        ensures
            span == (Span { secs: 1, nanos: 0 }),
    {
        Span { secs: 1, nanos: 0 }
    }

    /// Fills in the settings that are missing. `cores` counts the processor cores,
    /// and matters where the file gives no pool size.
    pub fn from_file(file: ConfigFile, cores: usize) -> (config: Config)
        requires
            file.connection_pool_size is None ==> 2 * cores <= usize::MAX,
        ensures
            config.routes == file.routes,
            config.port == file.port,
            config.max_body_bytes == set_or(file.max_body_bytes, 1048576),
            config.connection_pool_size == set_or(
                file.connection_pool_size,
                (2 * cores) as usize,
            ),
            config.gateway_expectation == set_or(
                file.gateway_expectation,
                (Span { secs: 1, nanos: 0 }),
            ),
            config.gateway_timeout == set_or(file.gateway_timeout, (Span { secs: 5, nanos: 0 })),
            match file.max_body_bytes {
                Some(bytes) => config.max_body_bytes == bytes,
                None => config.max_body_bytes == 1048576,
            },
            match file.connection_pool_size {
                Some(connections) => config.connection_pool_size == connections,
                None => config.connection_pool_size == 2 * cores,
            },
            match file.gateway_expectation {
                Some(span) => config.gateway_expectation == span,
                None => config.gateway_expectation.secs == 1 && config.gateway_expectation.nanos
                    == 0,
            },
            match file.gateway_timeout {
                Some(span) => config.gateway_timeout == span,
                None => config.gateway_timeout.secs == 5 && config.gateway_timeout.nanos == 0,
            },
    {
        Config {
            routes: file.routes,
            port: file.port,
            max_body_bytes: match file.max_body_bytes {
                Some(bytes) => bytes,
                None => Self::default_max_body(),
            },
            connection_pool_size: match file.connection_pool_size {
                Some(connections) => connections,
                None => Self::default_pool_size(cores),
            },
            gateway_expectation: match file.gateway_expectation {
                Some(span) => span,
                None => Self::default_expectation(),
            },
            gateway_timeout: match file.gateway_timeout {
                Some(span) => span,
                None => Self::default_timeout(),
            },
        }
    }
}

/// How to set up the client that talks to the upstream services.
pub struct ClientSettings {
    pub pool_max_idle_per_host: usize,
    pub pool_idle_timeout: Span,
    pub timeout: Span,
    pub tcp_keepalive: Span,
    pub http2_adaptive_window: bool,
}

/// All that it takes to start.
pub struct Launch {
    pub client: ClientSettings,
    pub proxy: Proxy,
    /// The address to listen on.
    pub address: String,
    /// What to tell once the proxy listens.
    pub greeting: String,
}

impl Launch {
    /// What to start for a configuration: the proxy listens on every interface, at
    /// the configured port.
    pub fn new(config: Config) -> (launch: Launch)
        ensures
            launch.client == (ClientSettings {
                pool_max_idle_per_host: config.connection_pool_size,
                pool_idle_timeout: Span { secs: 90, nanos: 0 },
                timeout: config.gateway_timeout,
                tcp_keepalive: Span { secs: 60, nanos: 0 },
                http2_adaptive_window: true,
            }),
            launch.proxy == (Proxy {
                routes: config.routes,
                max_body_bytes: config.max_body_bytes,
                gateway_expectation: config.gateway_expectation,
                gateway_timeout: config.gateway_timeout,
            }),
            launch.address@ == "0.0.0.0:"@ + text::decimal_text(config.port as nat),
            launch.greeting@ == "\nProxy server running on http://"@ + launch.address@
                + "\nPress Ctrl+C to stop\n"@,
    {
        let mut address = String::from_str("0.0.0.0:");
        address.append(decimal(config.port).as_str());
        let mut greeting = String::from_str("\nProxy server running on http://");
        greeting.append(address.as_str());
        greeting.append("\nPress Ctrl+C to stop\n");
        Launch {
            client: ClientSettings {
                pool_max_idle_per_host: config.connection_pool_size,
                pool_idle_timeout: Span { secs: 90, nanos: 0 },
                timeout: config.gateway_timeout,
                tcp_keepalive: Span { secs: 60, nanos: 0 },
                http2_adaptive_window: true,
            },
            proxy: Proxy {
                routes: config.routes,
                max_body_bytes: config.max_body_bytes,
                gateway_expectation: config.gateway_expectation,
                gateway_timeout: config.gateway_timeout,
            },
            address,
            greeting,
        }
    }
}

} // verus!
