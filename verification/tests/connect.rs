use ubidium::authority::{authority, endpoint_url, host_shape, port_text, HostShape, DEFAULT_PORT};
use ubidium::ipv6::is_ipv6_address;
use ubidium::endpoint::{configure_endpoint, prepare_endpoint, ConnectError};
use ubidium::settings::{
    connect_settings, ConnectSettings, CONNECT_TIMEOUT_SECS, KEEP_ALIVE_INTERVAL_SECS,
    KEEP_ALIVE_TIMEOUT_SECS,
};

#[test]
fn default_port_is_443() {
    assert_eq!(DEFAULT_PORT, 443);
}

#[test]
fn port_text_writes_decimal() {
    assert_eq!(port_text(443), "443");
    assert_eq!(port_text(0), "0");
    assert_eq!(port_text(9), "9");
    assert_eq!(port_text(10), "10");
    assert_eq!(port_text(8443), "8443");
    assert_eq!(port_text(65535), "65535");
}

#[test]
fn host_shape_finds_the_port() {
    assert_eq!(host_shape("192.168.1.112:443"), HostShape::WithPort);
    assert_eq!(host_shape("ubidium.local:50051"), HostShape::WithPort);
    assert_eq!(host_shape(":"), HostShape::WithPort);
    assert_eq!(host_shape("[::1]:8443"), HostShape::WithPort);
    assert_eq!(host_shape("[::1]"), HostShape::NoPort);
    assert_eq!(host_shape("192.168.1.112"), HostShape::NoPort);
    assert_eq!(host_shape("ubidium.local"), HostShape::NoPort);
    assert_eq!(host_shape(""), HostShape::NoPort);
    assert_eq!(host_shape("fe80::1"), HostShape::BareIpv6);
    assert_eq!(host_shape("::1"), HostShape::BareIpv6);
    assert_eq!(host_shape("::ffff:192.168.1.1"), HostShape::BareIpv6);
    assert_eq!(host_shape("192.168.1.112:443:443"), HostShape::WithPort);
    assert_eq!(host_shape("localhost:8080:3030"), HostShape::WithPort);
    assert_eq!(host_shape("a:b:c"), HostShape::WithPort);
    assert_eq!(host_shape("[a"), HostShape::NoPort);
    assert_eq!(host_shape("[a:443"), HostShape::WithPort);
}

#[test]
fn ipv6_addresses_are_recognised() {
    for text in [
        "::",
        "::1",
        "fe80::1",
        "1:2:3:4:5:6:7:8",
        "1:2:3:4:5:6:7::",
        "::2:3:4:5:6:7:8",
        "2001:db8::ff00:42:8329",
        "FE80::abcd",
        "::ffff:192.168.1.1",
        "64:ff9b::192.0.2.33",
        "1:2:3:4:5:6:1.2.3.4",
    ] {
        assert!(is_ipv6_address(text), "{text}");
    }
    for text in [
        "",
        ":",
        ":::",
        "1",
        "a:b:c",
        "192.168.1.112:443:443",
        "localhost:8080:3030",
        "1:2:3:4:5:6:7",
        "1:2:3:4:5:6:7:8:9",
        "1::2::3",
        ":1::2",
        "1::2:",
        "12345::1",
        "g::1",
        "::1:2:3:4:5:6:7:8",
        "::256.1.1.1",
        "::1.2.3",
        "1.2.3.4::",
        "[::1]",
    ] {
        assert!(!is_ipv6_address(text), "{text}");
    }
}

#[test]
fn authority_keeps_a_host_with_several_ports() {
    assert_eq!(authority("192.168.1.112:443:443"), "192.168.1.112:443:443");
    assert_eq!(authority("localhost:8080:3030"), "localhost:8080:3030");
}

#[test]
fn prepare_endpoint_refuses_a_doubled_port() {
    let res = prepare_endpoint("192.168.1.112:443:443", "U-40153", b"");
    assert!(matches!(res, Err(ConnectError::InvalidUri(_))));
    let res = prepare_endpoint("localhost:8080:3030", "U-40153", b"");
    assert!(matches!(res, Err(ConnectError::InvalidUri(_))));
}

#[test]
fn authority_brackets_a_bare_ipv6_address() {
    assert_eq!(authority("fe80::1"), "[fe80::1]:443");
    assert_eq!(authority("::1"), "[::1]:443");
    assert_eq!(authority("[fe80::1]"), "[fe80::1]:443");
    assert_eq!(authority("[fe80::1]:50051"), "[fe80::1]:50051");
}

#[test]
fn authority_adds_default_port() {
    assert_eq!(authority("192.168.1.112"), "192.168.1.112:443");
    assert_eq!(authority("ubidium.local"), "ubidium.local:443");
    assert_eq!(authority(""), ":443");
}

#[test]
fn authority_keeps_explicit_port() {
    assert_eq!(authority("192.168.1.112:443"), "192.168.1.112:443");
    assert_eq!(authority("192.168.1.112:8443"), "192.168.1.112:8443");
    assert_eq!(authority("host:"), "host:");
}

#[test]
fn authority_is_idempotent() {
    for host in ["192.168.1.112", "192.168.1.112:50051", "ubidium.local", "", "fe80::1", "[::1]"] {
        let once = authority(host);
        assert_eq!(authority(&once), once);
        assert!(once.contains(host));
        assert_eq!(host_shape(&once), HostShape::WithPort);
    }
}

#[test]
fn endpoint_url_is_https_authority() {
    assert_eq!(endpoint_url("192.168.1.112"), "https://192.168.1.112:443");
    assert_eq!(endpoint_url("192.168.1.112:443"), "https://192.168.1.112:443");
    assert_eq!(endpoint_url("ubidium.local:8443"), "https://ubidium.local:8443");
}

#[test]
fn settings_use_device_id_as_server_name() {
    let pem = b"-----BEGIN CERTIFICATE-----\n-----END CERTIFICATE-----\n";
    let s = connect_settings("192.168.1.112", "U-40153", pem);
    assert_eq!(s.url, "https://192.168.1.112:443");
    assert_eq!(s.domain_name, "U-40153");
    assert_eq!(s.ca_certificate_pem, pem.to_vec());
    assert!(s.keep_alive_while_idle);
    assert_eq!(s.http2_keep_alive_interval_secs, 20);
    assert_eq!(s.keep_alive_timeout_secs, 2);
    assert_eq!(s.connect_timeout_secs, 10);
    assert_eq!(KEEP_ALIVE_INTERVAL_SECS, 20);
    assert_eq!(KEEP_ALIVE_TIMEOUT_SECS, 2);
    assert_eq!(CONNECT_TIMEOUT_SECS, 10);
}

#[test]
fn prepare_endpoint_accepts_an_ip() {
    let res = prepare_endpoint("192.168.1.112", "U-40153", b"");
    assert!(res.is_ok());
    let endpoint = res.unwrap();
    assert_eq!(endpoint.uri().to_string(), "https://192.168.1.112:443/");
}

#[test]
fn prepare_endpoint_accepts_a_host_with_port() {
    let endpoint = prepare_endpoint("ubidium.local:8443", "U-40153", b"").unwrap();
    assert_eq!(endpoint.uri().port_u16(), Some(8443));
}

#[test]
fn prepare_endpoint_rejects_an_invalid_uri() {
    let res = prepare_endpoint("bad host", "U-40153", b"");
    assert!(matches!(res, Err(ConnectError::InvalidUri(_))));
}

#[test]
fn configure_endpoint_reports_an_unparsable_certificate() {
    let settings = ConnectSettings {
        url: "https://192.168.1.112:443".to_string(),
        domain_name: "U-40153".to_string(),
        ca_certificate_pem: b"-----BEGIN CERTIFICATE-----\n!!!!\n-----END CERTIFICATE-----\n"
            .to_vec(),
        keep_alive_while_idle: true,
        http2_keep_alive_interval_secs: 20,
        keep_alive_timeout_secs: 2,
        connect_timeout_secs: 10,
    };
    let res = configure_endpoint(&settings);
    assert!(matches!(res, Err(ConnectError::Tls(_))));
}

#[test]
fn configure_endpoint_rejects_an_invalid_url() {
    let settings = ConnectSettings {
        url: "https://exa mple:443".to_string(),
        domain_name: "U-40153".to_string(),
        ca_certificate_pem: Vec::new(),
        keep_alive_while_idle: true,
        http2_keep_alive_interval_secs: 20,
        keep_alive_timeout_secs: 2,
        connect_timeout_secs: 10,
    };
    assert!(matches!(configure_endpoint(&settings), Err(ConnectError::InvalidUri(_))));
}

#[test]
fn default_port_written_out_gives_the_same_url() {
    for host in ["192.168.1.112", "ubidium.local", "[fe80::1]", "[a", "[a]b"] {
        let explicit = format!("{host}:443");
        assert_eq!(endpoint_url(host), endpoint_url(&explicit));
    }
}

#[test]
fn prepare_endpoint_brackets_a_bare_ipv6_address() {
    let endpoint = prepare_endpoint("fe80::1", "U-40153", b"").unwrap();
    assert_eq!(endpoint.uri().to_string(), "https://[fe80::1]:443/");
}

#[test]
fn prepare_endpoint_refuses_an_empty_device_id() {
    let res = prepare_endpoint("192.168.1.112", "", b"");
    assert!(matches!(res, Err(ConnectError::Tls(_))));
}

#[test]
fn prepare_endpoint_refuses_an_unparsable_ca() {
    let pem = b"-----BEGIN CERTIFICATE-----\n!!!!\n-----END CERTIFICATE-----\n";
    let res = prepare_endpoint("192.168.1.112", "U-40153", pem);
    assert!(matches!(res, Err(ConnectError::Tls(_))));
}
