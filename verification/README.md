# ubidium

Verified connection settings for the gRPC `TimingSystem` server of a Race
Result Ubidium timing decoder, built on `tonic`.

- `src/authority.rs`: the shape of a host (with a port, without one, or a
  bare IPv6 address), the `host:port` authority (port 443 when the host names
  none; a bare IPv6 address is bracketed), the `https://` endpoint URL, the
  decimal text of a port, and the laws about them.
- `src/ipv6.rs`: recognising a textual IPv6 address (groups of hex digits,
  one `::` compression, an optional dotted IPv4 tail), so that only real
  bare IPv6 addresses are bracketed; any other host holding a `:` is used as
  given.
- `src/settings.rs`: `ConnectSettings`, the plain values a channel is
  configured with (URL, pinned CA certificate, the device ID as TLS server
  name, keep-alive and timeout options).
- `src/endpoint.rs`: the tonic `Endpoint` built from those settings, behind
  small trusted wrappers of the tonic builder calls.
- `app/lib.rs`: the async `connect`, which dials the endpoint.

The CA certificate (`RACE RESULT TD proxy`) is passed in by the caller as PEM:
`connect(host, device_id, ca_certificate_pem)` takes it as a third argument,
and no certificate is bundled. The generated protobuf module (`pb`, with the
`TimingSystem` / `TimingServer` clients) is not part of this crate, so
programs written against `ubidium::connect(host, device_id)` and `ubidium::pb`
need the CA PEM passed in and their own generated client code.
