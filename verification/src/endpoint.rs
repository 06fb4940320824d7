//! Building the tonic endpoint of a connection from its settings.
//!
//! Dialling the endpoint (`Endpoint::connect`, an await on the network) is left
//! to the caller; everything before it is done here.

use vstd::prelude::*;
use tonic::codegen::http::uri::InvalidUri;
use tonic::transport::{Certificate, Channel, ClientTlsConfig, Endpoint};
use crate::authority::{
    lemma_default_port_written_out, spec_endpoint_url, spec_host_shape, HostShape,
};
use crate::settings::{
    connect_settings, ConnectSettings, CONNECT_TIMEOUT_SECS, KEEP_ALIVE_INTERVAL_SECS,
    KEEP_ALIVE_TIMEOUT_SECS,
};

verus! {

#[verifier::external_type_specification]
#[verifier::external_body]
pub struct ExEndpoint(tonic::transport::Endpoint);

#[verifier::external_type_specification]
#[verifier::external_body]
pub struct ExTransportError(tonic::transport::Error);

#[verifier::external_type_specification]
#[verifier::external_body]
pub struct ExInvalidUri(tonic::codegen::http::uri::InvalidUri);

/// The URI that the `http` URI parser (used by tonic) makes of `text`, written
/// as that URI displays itself; `None` when the parser refuses the text.
pub uninterp spec fn parsed_uri(text: Seq<char>) -> Option<Seq<char>>;

/// Whether tonic can build a TLS connector that trusts the certificates in
/// `ca_pem` and expects the server name `server_name`: the PEM must parse and
/// the name must be a valid DNS name or IP address.
pub uninterp spec fn tls_accepted(ca_pem: Seq<u8>, server_name: Seq<char>) -> bool;

/// The URI an endpoint dials, written as `Endpoint::uri` displays it; `None`
/// for an endpoint on a Unix socket.
pub uninterp spec fn uri_of(endpoint: Endpoint) -> Option<Seq<char>>;

/// The server name the endpoint's TLS connector expects, `None` without TLS.
pub uninterp spec fn server_name_of(endpoint: Endpoint) -> Option<Seq<char>>;

/// The PEM texts whose certificates the endpoint's TLS connector trusts.
pub uninterp spec fn pinned_ca_of(endpoint: Endpoint) -> Seq<Seq<u8>>;

/// The endpoint's HTTP/2 keep-alive-while-idle option, `None` when unset.
pub uninterp spec fn keep_alive_while_idle_of(endpoint: Endpoint) -> Option<bool>;

/// The endpoint's HTTP/2 keep-alive interval in whole seconds, `None` when unset.
pub uninterp spec fn keep_alive_interval_of(endpoint: Endpoint) -> Option<u64>;

/// The endpoint's HTTP/2 keep-alive timeout in whole seconds, `None` when unset.
pub uninterp spec fn keep_alive_timeout_of(endpoint: Endpoint) -> Option<u64>;

/// The endpoint's connect timeout in whole seconds, `None` when unset.
pub uninterp spec fn connect_timeout_of(endpoint: Endpoint) -> Option<u64>;

/// `a` and `b` have the same TLS configuration.
pub open spec fn same_tls(a: Endpoint, b: Endpoint) -> bool {
    &&& server_name_of(a) == server_name_of(b)
    &&& pinned_ca_of(a) == pinned_ca_of(b)
}

/// `a` and `b` have the same keep-alive and timeout options.
pub open spec fn same_options(a: Endpoint, b: Endpoint) -> bool {
    &&& keep_alive_while_idle_of(a) == keep_alive_while_idle_of(b)
    &&& keep_alive_interval_of(a) == keep_alive_interval_of(b)
    &&& keep_alive_timeout_of(a) == keep_alive_timeout_of(b)
    &&& connect_timeout_of(a) == connect_timeout_of(b)
}

/// The endpoint expects the server name of `settings` and trusts its CA
/// certificate only.
pub open spec fn carries_tls(endpoint: Endpoint, settings: ConnectSettings) -> bool {
    &&& server_name_of(endpoint) == Some(settings.domain_name@)
    &&& pinned_ca_of(endpoint) == seq![settings.ca_certificate_pem@]
}

/// The endpoint has the keep-alive and timeout options of `settings`.
pub open spec fn carries_options(endpoint: Endpoint, settings: ConnectSettings) -> bool {
    &&& keep_alive_while_idle_of(endpoint) == Some(settings.keep_alive_while_idle)
    &&& keep_alive_interval_of(endpoint) == Some(settings.http2_keep_alive_interval_secs)
    &&& keep_alive_timeout_of(endpoint) == Some(settings.keep_alive_timeout_secs)
    &&& connect_timeout_of(endpoint) == Some(settings.connect_timeout_secs)
}

/// The endpoint is the one `settings` describe: it dials the URI parsed from
/// their URL, with their TLS configuration and options.
pub open spec fn endpoint_matches(endpoint: Endpoint, settings: ConnectSettings) -> bool {
    &&& uri_of(endpoint) == parsed_uri(settings.url@)
    &&& carries_tls(endpoint, settings)
    &&& carries_options(endpoint, settings)
}

/// Why an endpoint could not be built.
#[derive(Debug)]
pub enum ConnectError {
    /// The endpoint URL is not a valid URI.
    InvalidUri(InvalidUri),
    /// The TLS configuration could not be applied to the endpoint (the CA PEM
    /// does not parse, or the server name is not a valid name).
    Tls(tonic::transport::Error),
}

/// `tonic::transport::Channel::from_shared`: parses `url` as a URI and makes an
/// endpoint for it. Claimed: it succeeds exactly when the URI parser accepts
/// the text (a function of the text alone), and the new endpoint dials the
/// parsed URI, without TLS and with no keep-alive or timeout option set.
#[verifier::external_body]
fn channel_from_shared(url: String) -> (res: Result<Endpoint, InvalidUri>)
    ensures
        res is Ok <==> parsed_uri(url@) is Some,
        res matches Ok(e) ==> {
            &&& uri_of(e) == parsed_uri(url@)
            &&& server_name_of(e) == None::<Seq<char>>
            &&& pinned_ca_of(e) == Seq::<Seq<u8>>::empty()
            &&& keep_alive_while_idle_of(e) == None::<bool>
            &&& keep_alive_interval_of(e) == None::<u64>
            &&& keep_alive_timeout_of(e) == None::<u64>
            &&& connect_timeout_of(e) == None::<u64>
        },
{
    Channel::from_shared(url)
}

/// `Endpoint::tls_config`, with the `ClientTlsConfig` made of plain values: the
/// CA certificate `Certificate::from_pem(ca_pem)` and the domain name
/// `server_name`. Claimed: an endpoint on a Unix socket is refused; otherwise
/// it succeeds exactly when the PEM parses and the name is valid
/// (`tls_accepted`, a function of those two alone), and the new endpoint
/// trusts that CA, expects that name and keeps its URI and options. It panics
/// only if some other part of the process installed a default rustls crypto
/// provider without safe protocol versions, which this library never does.
#[verifier::external_body]
fn endpoint_with_tls(endpoint: Endpoint, ca_pem: &[u8], server_name: &str) -> (res: Result<
    Endpoint,
    tonic::transport::Error,
>)
    ensures
        uri_of(endpoint) is None ==> res is Err,
        uri_of(endpoint) is Some ==> (res is Ok <==> tls_accepted(ca_pem@, server_name@)),
        res matches Ok(e) ==> {
            &&& uri_of(e) == uri_of(endpoint)
            &&& server_name_of(e) == Some(server_name@)
            &&& pinned_ca_of(e) == seq![ca_pem@]
            &&& same_options(e, endpoint)
        },
{
    let config = ClientTlsConfig::new().ca_certificate(Certificate::from_pem(ca_pem)).domain_name(
        server_name.to_string(),
    );
    endpoint.tls_config(config)
}

/// `Endpoint::keep_alive_while_idle`: sets that option, keeps the rest.
#[verifier::external_body]
fn set_keep_alive_while_idle(endpoint: Endpoint, enabled: bool) -> (res: Endpoint)
    ensures
        keep_alive_while_idle_of(res) == Some(enabled),
        keep_alive_interval_of(res) == keep_alive_interval_of(endpoint),
        keep_alive_timeout_of(res) == keep_alive_timeout_of(endpoint),
        connect_timeout_of(res) == connect_timeout_of(endpoint),
        uri_of(res) == uri_of(endpoint),
        same_tls(res, endpoint),
{
    endpoint.keep_alive_while_idle(enabled)
}

/// `Endpoint::http2_keep_alive_interval`, with the interval given in seconds:
/// sets that option, keeps the rest.
#[verifier::external_body]
fn set_keep_alive_interval(endpoint: Endpoint, secs: u64) -> (res: Endpoint)
    ensures
        keep_alive_interval_of(res) == Some(secs),
        keep_alive_while_idle_of(res) == keep_alive_while_idle_of(endpoint),
        keep_alive_timeout_of(res) == keep_alive_timeout_of(endpoint),
        connect_timeout_of(res) == connect_timeout_of(endpoint),
        uri_of(res) == uri_of(endpoint),
        same_tls(res, endpoint),
{
    endpoint.http2_keep_alive_interval(std::time::Duration::from_secs(secs))
}

/// `Endpoint::keep_alive_timeout`, with the timeout given in seconds: sets that
/// option, keeps the rest.
#[verifier::external_body]
fn set_keep_alive_timeout(endpoint: Endpoint, secs: u64) -> (res: Endpoint)
    ensures
        keep_alive_timeout_of(res) == Some(secs),
        keep_alive_while_idle_of(res) == keep_alive_while_idle_of(endpoint),
        keep_alive_interval_of(res) == keep_alive_interval_of(endpoint),
        connect_timeout_of(res) == connect_timeout_of(endpoint),
        uri_of(res) == uri_of(endpoint),
        same_tls(res, endpoint),
{
    endpoint.keep_alive_timeout(std::time::Duration::from_secs(secs))
}

/// `Endpoint::connect_timeout`, with the timeout given in seconds: sets that
/// option, keeps the rest.
#[verifier::external_body]
fn set_connect_timeout(endpoint: Endpoint, secs: u64) -> (res: Endpoint)
    ensures
        connect_timeout_of(res) == Some(secs),
        keep_alive_while_idle_of(res) == keep_alive_while_idle_of(endpoint),
        keep_alive_interval_of(res) == keep_alive_interval_of(endpoint),
        keep_alive_timeout_of(res) == keep_alive_timeout_of(endpoint),
        uri_of(res) == uri_of(endpoint),
        same_tls(res, endpoint),
{
    endpoint.connect_timeout(std::time::Duration::from_secs(secs))
}

/// The last step: a TLS-configured endpoint gets the keep-alive and timeout
/// options of `settings`; a failed TLS configuration is reported as
/// [`ConnectError::Tls`].
pub fn finish_endpoint(
    configured: Result<Endpoint, tonic::transport::Error>,
    settings: &ConnectSettings,
) -> (res: Result<Endpoint, ConnectError>)
    ensures
        res is Ok <==> configured is Ok,
        configured matches Err(e) ==> res == Err::<Endpoint, ConnectError>(ConnectError::Tls(e)),
        configured matches Ok(e) ==> res matches Ok(r) && uri_of(r) == uri_of(e) && same_tls(r, e)
            && carries_options(r, *settings),
{
    match configured {
        Err(e) => Err(ConnectError::Tls(e)),
        Ok(endpoint) => {
            let endpoint = set_keep_alive_while_idle(endpoint, settings.keep_alive_while_idle);
            let endpoint = set_keep_alive_interval(
                endpoint,
                settings.http2_keep_alive_interval_secs,
            );
            let endpoint = set_keep_alive_timeout(endpoint, settings.keep_alive_timeout_secs);
            let endpoint = set_connect_timeout(endpoint, settings.connect_timeout_secs);
            Ok(endpoint)
        },
    }
}

/// The step after the URL was parsed: a URL the parser refused is reported as
/// [`ConnectError::InvalidUri`]; an endpoint gets the pinned CA certificate and
/// the TLS server name of `settings` (a refused TLS configuration is reported
/// as [`ConnectError::Tls`]), and then [`finish_endpoint`].
pub fn secure_endpoint(parsed: Result<Endpoint, InvalidUri>, settings: &ConnectSettings) -> (res:
    Result<Endpoint, ConnectError>)
    ensures
        parsed matches Err(e) ==> res == Err::<Endpoint, ConnectError>(ConnectError::InvalidUri(e)),
        parsed matches Ok(e) ==> !(res matches Err(ConnectError::InvalidUri(_))),
        parsed matches Ok(e) && uri_of(e) is None ==> res matches Err(ConnectError::Tls(_)),
        parsed matches Ok(e) && uri_of(e) is Some ==> (res is Ok <==> tls_accepted(
            settings.ca_certificate_pem@,
            settings.domain_name@,
        )),
        parsed matches Ok(e) ==> (res matches Ok(r) ==> uri_of(r) == uri_of(e) && carries_tls(
            r,
            *settings,
        ) && carries_options(r, *settings)),
{
    match parsed {
        Err(e) => Err(ConnectError::InvalidUri(e)),
        Ok(endpoint) => {
            let configured = endpoint_with_tls(
                endpoint,
                settings.ca_certificate_pem.as_slice(),
                settings.domain_name.as_str(),
            );
            finish_endpoint(configured, settings)
        },
    }
}

/// The endpoint described by `settings`, ready to be dialled.
///
/// Fails with [`ConnectError::InvalidUri`] exactly when the URL is not a valid
/// URI, and otherwise with [`ConnectError::Tls`] exactly when the CA PEM or the
/// server name is refused; the endpoint it returns dials the parsed URL with
/// the TLS configuration and options of `settings`.
pub fn configure_endpoint(settings: &ConnectSettings) -> (res: Result<Endpoint, ConnectError>)
    ensures
        (res matches Err(ConnectError::InvalidUri(_))) <==> parsed_uri(settings.url@) is None,
        res is Ok <==> parsed_uri(settings.url@) is Some && tls_accepted(
            settings.ca_certificate_pem@,
            settings.domain_name@,
        ),
        res matches Ok(r) ==> endpoint_matches(r, *settings),
{
    secure_endpoint(channel_from_shared(settings.url.clone()), settings)
}

/// The endpoint of the Ubidium at `host` (an IP or host name, optionally with
/// `:port`; port 443 when none) whose device ID is `device_id`, pinning the CA
/// certificate `ca_certificate_pem` and using the device ID as the TLS server
/// name, with HTTP/2 keep-alive while idle every 20 s (2 s timeout) and a 10 s
/// connect timeout.
pub fn prepare_endpoint(host: &str, device_id: &str, ca_certificate_pem: &[u8]) -> (res: Result<
    Endpoint,
    ConnectError,
>)
    ensures
        (res matches Err(ConnectError::InvalidUri(_))) <==> parsed_uri(spec_endpoint_url(host@)) is None,
        res is Ok <==> parsed_uri(spec_endpoint_url(host@)) is Some && tls_accepted(
            ca_certificate_pem@,
            device_id@,
        ),
        res matches Ok(r) ==> {
            &&& uri_of(r) == parsed_uri(spec_endpoint_url(host@))
            &&& server_name_of(r) == Some(device_id@)
            &&& pinned_ca_of(r) == seq![ca_certificate_pem@]
            &&& keep_alive_while_idle_of(r) == Some(true)
            &&& keep_alive_interval_of(r) == Some(KEEP_ALIVE_INTERVAL_SECS)
            &&& keep_alive_timeout_of(r) == Some(KEEP_ALIVE_TIMEOUT_SECS)
            &&& connect_timeout_of(r) == Some(CONNECT_TIMEOUT_SECS)
        },
{
    let settings = connect_settings(host, device_id, ca_certificate_pem);
    configure_endpoint(&settings)
}

/// A host without a port and the same host followed by `:443` give endpoints
/// for the same URI, so [`prepare_endpoint`] has the same contract for both.
pub proof fn lemma_default_port_same_endpoint(host: Seq<char>)
    requires
        spec_host_shape(host) == HostShape::NoPort,
    ensures
        parsed_uri(spec_endpoint_url(host + seq![':', '4', '4', '3'])) == parsed_uri(
            spec_endpoint_url(host),
        ),
{
    lemma_default_port_written_out(host);
}

} // verus!
