//! Server configuration and error taxonomy.
//!
//! The network runtime around the library lives outside it; these are
//! the plain-value pieces it is configured and answered with.

use vstd::prelude::*;
use crate::connection::ConnectionConfig;

verus! {

/// Limits and timeouts of the server driver.
#[derive(Clone, Copy, Debug, PartialEq, Eq, Structural)]
pub struct DriverConfig {
    /// Most concurrent connections accepted.
    pub max_connections: usize,
    /// Session timeouts applied to every connection.
    pub connection: ConnectionConfig,
}

impl Default for DriverConfig {
    /// Defaults: ten thousand connections, five-second handshake,
    /// ten-second idle limit, three-second heartbeat.
    fn default() -> (r: DriverConfig)
        ensures
            r.max_connections == 10000,
            r.connection.handshake_timeout_ms == 5000,
            r.connection.idle_timeout_ms == 10000,
            r.connection.heartbeat_interval_ms == 3000,
    {
        DriverConfig {
            max_connections: 10000,
            connection: ConnectionConfig {
                handshake_timeout_ms: 5000,
                idle_timeout_ms: 10000,
                heartbeat_interval_ms: 3000,
            },
        }
    }
}

/// Configuration of the production server runtime.
#[derive(Clone, Debug)]
pub struct ServerRuntimeConfig {
    /// Address to bind, such as an interface and port.
    pub bind_address: String,
    /// Path to a TLS certificate; a self-signed one is used if absent.
    pub cert_path: Option<String>,
    /// Path to the TLS private key.
    pub key_path: Option<String>,
    /// Driver limits and timeouts.
    pub driver: DriverConfig,
}

impl Default for ServerRuntimeConfig {
    /// Defaults to all interfaces on port 4433 with no certificate.
    fn default() -> (r: ServerRuntimeConfig)
        ensures
            r.bind_address@ == "0.0.0.0:4433"@,
            r.cert_path is None,
            r.key_path is None,
            r.driver == (DriverConfig {
                max_connections: 10000,
                connection: crate::connection::ConnectionConfig {
                    handshake_timeout_ms: 5000,
                    idle_timeout_ms: 10000,
                    heartbeat_interval_ms: 3000,
                },
            }),
    {
        ServerRuntimeConfig {
            bind_address: String::from_str("0.0.0.0:4433"),
            cert_path: None,
            key_path: None,
            driver: DriverConfig::default(),
        }
    }
}

/// Errors of the server runtime.
#[derive(Debug)]
pub enum ServerError {
    /// The configuration is unusable.
    Config(String),
    /// The transport failed.
    Transport(String),
    /// A peer broke the protocol.
    Protocol(String),
    /// An internal invariant failed.
    Internal(String),
}

impl ServerError {
    /// A short category name for logs.
    pub fn category(&self) -> (r: &'static str)
        ensures
            match self {
                ServerError::Config(_) => r@ == "configuration error"@,
                ServerError::Transport(_) => r@ == "transport error"@,
                ServerError::Protocol(_) => r@ == "protocol error"@,
                ServerError::Internal(_) => r@ == "internal error"@,
            },
    {
        match self {
            ServerError::Config(_) => "configuration error",
            ServerError::Transport(_) => "transport error",
            ServerError::Protocol(_) => "protocol error",
            ServerError::Internal(_) => "internal error",
        }
    }
}

} // verus!
