//! The plain settings of a connection to a Ubidium.

use vstd::prelude::*;
use crate::authority::{endpoint_url, spec_endpoint_url};

verus! {

/// Seconds between two HTTP/2 keep-alive pings.
pub const KEEP_ALIVE_INTERVAL_SECS: u64 = 20;

/// Seconds to wait for the answer to an HTTP/2 keep-alive ping.
pub const KEEP_ALIVE_TIMEOUT_SECS: u64 = 2;

/// Seconds to wait for the connection to be established.
pub const CONNECT_TIMEOUT_SECS: u64 = 10;

/// Everything a gRPC channel to a Ubidium is configured with.
pub struct ConnectSettings {
    /// The `https://host:port` URL that is dialled.
    pub url: String,
    /// The name the server certificate must carry: the device ID.
    pub domain_name: String,
    /// The PEM of the CA certificate that is pinned.
    pub ca_certificate_pem: Vec<u8>,
    /// Whether HTTP/2 keep-alive pings are sent while the channel is idle.
    pub keep_alive_while_idle: bool,
    /// Seconds between two HTTP/2 keep-alive pings.
    pub http2_keep_alive_interval_secs: u64,
    /// Seconds to wait for a keep-alive answer.
    pub keep_alive_timeout_secs: u64,
    /// Seconds to wait for the connection.
    pub connect_timeout_secs: u64,
}

/// The settings of a connection to the Ubidium at `host` (an IP or host name,
/// optionally with `:port`) whose device ID is `device_id` (e.g. `U-40153`).
///
/// The server certificate of a Ubidium names its device ID, not the address
/// that is dialled, so the device ID is the TLS server name, and the CA
/// certificate `ca_certificate_pem` is pinned.
pub fn connect_settings(host: &str, device_id: &str, ca_certificate_pem: &[u8]) -> (res:
    ConnectSettings)
    ensures
        res.url@ == spec_endpoint_url(host@),
        res.domain_name@ == device_id@,
        res.ca_certificate_pem@ == ca_certificate_pem@,
        res.keep_alive_while_idle,
        res.http2_keep_alive_interval_secs == KEEP_ALIVE_INTERVAL_SECS,
        res.keep_alive_timeout_secs == KEEP_ALIVE_TIMEOUT_SECS,
        res.connect_timeout_secs == CONNECT_TIMEOUT_SECS,
{
    ConnectSettings {
        url: endpoint_url(host),
        domain_name: String::from_str(device_id),
        ca_certificate_pem: vstd::slice::slice_to_vec(ca_certificate_pem),
        keep_alive_while_idle: true,
        http2_keep_alive_interval_secs: KEEP_ALIVE_INTERVAL_SECS,
        keep_alive_timeout_secs: KEEP_ALIVE_TIMEOUT_SECS,
        connect_timeout_secs: CONNECT_TIMEOUT_SECS,
    }
}

} // verus!
