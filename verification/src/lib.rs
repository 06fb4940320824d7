//! Connection settings for a Race Result Ubidium timing decoder's gRPC
//! `TimingSystem` server.
//!
//! The library turns the address a user gives (an IP or host name, with or
//! without a `:port` suffix) and the decoder's device ID into the endpoint
//! that a TLS gRPC channel dials: the authority, the `https://` URL, the
//! pinned CA certificate, the TLS server name and the HTTP/2 keep-alive
//! options.

pub mod authority;
pub mod ipv6;

pub mod settings;
pub mod endpoint;
