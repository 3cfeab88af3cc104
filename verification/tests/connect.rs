use monoio_ws::connect::{
    accept_key, ends_head, http_request, judge_response, plain_target, tls_target, tls_target_if,
    verify_response, Handshake,
};
use monoio_ws::{ConnectError, Endpoint};

fn endpoint(text: &str) -> Endpoint {
    Endpoint::parse(text).unwrap()
}

#[test]
fn test_http_request() {
    let output = http_request(
        &endpoint("ws://localhost:9001/runCase?case=1&agent=monoio-ws"),
        "dGhlIHNhbXBsZSBub25jZQ==",
    );
    assert_eq!(
        output,
        "GET /runCase?case=1&agent=monoio-ws HTTP/1.1\r\n\
        Host: localhost:9001\r\n\
        Upgrade: websocket\r\n\
        Connection: Upgrade\r\n\
        Sec-WebSocket-Key: dGhlIHNhbXBsZSBub25jZQ==\r\n\
        Sec-WebSocket-Version: 13\r\n\
        \r\n"
    )
}

#[test]
fn uris_are_taken_apart() {
    let uri = endpoint("wss://user@example.org:65535/a/b?c=d");
    assert_eq!(uri.scheme.as_deref(), Some("wss"));
    assert_eq!(uri.host.as_deref(), Some("example.org"));
    assert_eq!(uri.port, Some(65535));
    assert_eq!(uri.path_and_query.as_deref(), Some("/a/b?c=d"));

    let uri = endpoint("ws://localhost");
    assert_eq!(uri.port, None);
    assert_eq!(uri.path_and_query.as_deref(), Some("/"));

    let uri = endpoint("/only/a/path");
    assert!(uri.scheme.is_none() && uri.host.is_none() && uri.port.is_none());

    assert!(Endpoint::parse("").is_err());
    assert!(Endpoint::parse("ws://a b").is_err());
}

#[test]
fn request_names_no_port_that_the_uri_does_not_name() {
    let output = http_request(&endpoint("ws://example.org"), "k");
    assert!(output.starts_with("GET / HTTP/1.1\r\nHost: example.org\r\nUpgrade"));
}

#[test]
fn request_for_an_empty_endpoint_is_empty_there() {
    let uri = Endpoint { scheme: None, host: None, port: Some(0), path_and_query: None };
    assert!(http_request(&uri, "").starts_with("GET  HTTP/1.1\r\nHost: :0\r\n"));
}

#[test]
fn plain_connections_need_the_plain_scheme() {
    assert_eq!(plain_target(&endpoint("ws://localhost")).unwrap(), "localhost:80");
    assert_eq!(plain_target(&endpoint("ws://localhost:9001/x")).unwrap(), "localhost:9001");
    for text in ["wss://localhost", "http://localhost", "localhost:80"] {
        assert!(matches!(
            plain_target(&endpoint(text)),
            Err(ConnectError::InvalidUriScheme)
        ));
    }
}

#[test]
fn tls_connections_need_the_tls_scheme_and_a_server_name() {
    let target = tls_target(&endpoint("wss://echo.websocket.org")).unwrap();
    assert_eq!(target.server_name, "echo.websocket.org");
    assert_eq!(target.address, "echo.websocket.org:443");
    let target = tls_target(&endpoint("wss://127.0.0.1:8443/")).unwrap();
    assert_eq!(target.address, "127.0.0.1:8443");

    assert!(matches!(
        tls_target(&endpoint("ws://echo.websocket.org")),
        Err(ConnectError::InvalidUriScheme)
    ));
    let mut uri = endpoint("wss://echo.websocket.org");
    uri.host = Some("not a name".to_string());
    assert!(matches!(tls_target(&uri), Err(ConnectError::InvalidDnsName)));
    uri.host = None;
    assert!(matches!(tls_target(&uri), Err(ConnectError::InvalidDnsName)));
    assert_eq!(tls_target_if(&uri, true).unwrap().address, ":443");
}

#[test]
fn accept_key_of_the_sample_nonce() {
    assert_eq!(accept_key("dGhlIHNhbXBsZSBub25jZQ=="), "s3pPLMBiTxaQ9kYGzzhZRbK+xOo=");
}

#[test]
fn handshake_key_stands_for_the_nonce() {
    let uri = endpoint("ws://localhost/");
    let handshake = Handshake::with_nonce(&uri, *b"the sample nonce");
    assert_eq!(handshake.key, "dGhlIHNhbXBsZSBub25jZQ==");
    assert_eq!(handshake.request, http_request(&uri, "dGhlIHNhbXBsZSBub25jZQ=="));
}

#[test]
fn handshakes_have_keys_of_their_own() {
    let uri = endpoint("ws://localhost/");
    let one = Handshake::new(&uri);
    let other = Handshake::new(&uri);
    assert_eq!(one.key.len(), 24);
    assert_ne!(one.key, other.key);
    assert_eq!(one.request, http_request(&uri, &one.key));
}

#[test]
fn empty_lines_end_the_head() {
    assert!(ends_head(0));
    assert!(ends_head(2));
    assert!(!ends_head(3));
}

const KEY: &str = "dGhlIHNhbXBsZSBub25jZQ==";

#[test]
fn right_response_is_accepted_in_any_case() {
    for header in [
        "Sec-WebSocket-Accept: s3pPLMBiTxaQ9kYGzzhZRbK+xOo=",
        "sec-websocket-accept: s3pPLMBiTxaQ9kYGzzhZRbK+xOo=",
        "SEC-WEBSOCKET-ACCEPT: S3PPLMBITXAQ9KYGZZHZRBK+XOO=",
    ] {
        let response =
            format!("HTTP/1.1 101 Switching Protocols\r\nUpgrade: websocket\r\n{header}\r\n\r\n");
        assert!(verify_response(response, KEY).is_ok());
    }
}

#[test]
fn response_that_does_not_switch_is_refused_with_what_it_says() {
    let response = "HTTP/1.1 404 Not Found\r\n\r\n".to_string();
    match verify_response(response.clone(), KEY) {
        Err(ConnectError::InvalidHandshakeResponse(said)) => assert_eq!(said, response),
        other => panic!("not refused: {other:?}"),
    }
}

#[test]
fn response_to_another_key_is_refused() {
    for header in [
        "",
        "Sec-WebSocket-Accept: AAAA",
        "Sec-WebSocket-Accept:s3pPLMBiTxaQ9kYGzzhZRbK+xOo=",
    ] {
        let response = format!("HTTP/1.1 101 Switching Protocols\r\n{header}\r\n\r\n");
        assert!(matches!(
            verify_response(response, KEY),
            Err(ConnectError::InvalidWebSocketAcceptHeader)
        ));
    }
}

#[test]
fn judgement_goes_by_the_lowered_texts() {
    let response = "HTTP/1.1 101 X".to_string();
    assert!(judge_response(response.clone(), "abc", "b").is_ok());
    assert!(judge_response(response.clone(), "abc", "").is_ok());
    assert!(matches!(
        judge_response(response, "abc", "d"),
        Err(ConnectError::InvalidWebSocketAcceptHeader)
    ));
    assert!(matches!(
        judge_response("HTTP/1.0 101".to_string(), "abc", "b"),
        Err(ConnectError::InvalidHandshakeResponse(_))
    ));
}
