use time868::config::{
    clamp_to_positive, default_endpoint, parse_endpoint, ClientConfig, Endpoint, ServerConfig,
};

#[test]
fn parse_default_endpoint_text() {
    assert_eq!(
        parse_endpoint(b"127.0.0.1:37000"),
        Some(Endpoint { a: 127, b: 0, c: 0, d: 1, port: 37000 })
    );
}

#[test]
fn parse_endpoint_extremes() {
    assert_eq!(
        parse_endpoint(b"0.0.0.0:0"),
        Some(Endpoint { a: 0, b: 0, c: 0, d: 0, port: 0 })
    );
    assert_eq!(
        parse_endpoint(b"255.255.255.255:65535"),
        Some(Endpoint { a: 255, b: 255, c: 255, d: 255, port: 65535 })
    );
}

#[test]
fn parse_endpoint_rejects_malformed_text() {
    assert_eq!(parse_endpoint(b""), None);
    assert_eq!(parse_endpoint(b"127.0.0.1"), None); // no port
    assert_eq!(parse_endpoint(b"127.0.1:37000"), None); // three octets
    assert_eq!(parse_endpoint(b"127.0.0.0.1:37000"), None); // five octets
    assert_eq!(parse_endpoint(b"127.0.0.1:"), None); // empty port
    assert_eq!(parse_endpoint(b".0.0.1:37000"), None); // empty octet
    assert_eq!(parse_endpoint(b"127.0.0.01:37000"), None); // leading zero
    assert_eq!(parse_endpoint(b"256.0.0.1:37000"), None); // octet too large
    assert_eq!(parse_endpoint(b"127.0.0.1:65536"), None); // port too large
    assert_eq!(parse_endpoint(b"127.0.0.1:37000 "), None); // trailing byte
    assert_eq!(parse_endpoint(b"localhost:37000"), None); // not numeric
}

#[test]
fn default_is_local_37000() {
    let e = default_endpoint();
    assert_eq!((e.a, e.b, e.c, e.d, e.port), (127, 0, 0, 1, 37000));
}

#[test]
fn clamp_lifts_zero_only() {
    assert_eq!(clamp_to_positive(0), 1);
    assert_eq!(clamp_to_positive(1), 1);
    assert_eq!(clamp_to_positive(5), 5);
    assert_eq!(clamp_to_positive(u32::MAX), u32::MAX);
}

#[test]
fn server_zero_workers_as_one() {
    let e = default_endpoint();
    assert_eq!(ServerConfig::new(e, 0), ServerConfig::new(e, 1));
    assert_eq!(ServerConfig::new(e, 0).workers, 1);
}

#[test]
fn server_keeps_positive_workers() {
    let e = default_endpoint();
    assert_eq!(ServerConfig::new(e, 8).workers, 8);
    assert_eq!(ServerConfig::new(e, 8).bind, e);
}

#[test]
fn client_zero_counts_as_one() {
    let e = Endpoint { a: 10, b: 0, c: 0, d: 2, port: 8037 };
    assert_eq!(ClientConfig::new(e, 0, 1000), ClientConfig::new(e, 1, 1000));
    assert_eq!(ClientConfig::new(e, 4, 0), ClientConfig::new(e, 4, 1));
    let cfg = ClientConfig::new(e, 0, 0);
    assert_eq!((cfg.workers, cfg.requests), (1, 1));
    assert_eq!(cfg.target, e);
}
