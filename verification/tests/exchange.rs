use codex_plus_core::relay_proxy::exchange::{
    answer, answer_routed, record, route, ProxyAction, UpstreamMethod, LOCAL_RELAY_PROXY_PORT,
};
use codex_plus_core::relay_proxy::request::{
    content_length, find_header_end, parse_head, parse_headers, ParsedHttpRequest, ReadError, ReadStep,
    RequestReader,
};
use codex_plus_core::relay_proxy::response::{
    failure_json, failure_response, header_text, json_response, method_not_allowed_response,
    preflight_response, relayed_response, relayed_with_reason, RawResponse,
};
use codex_plus_core::relay_proxy::{RelayProxyConfig, RelayRoute, RoutedRequest};

fn pair(name: &str, value: &str) -> (String, String) {
    (name.to_string(), value.to_string())
}

fn request(method: &str, body: &[u8]) -> ParsedHttpRequest {
    ParsedHttpRequest {
        method: method.to_string(),
        path: "/v1/responses?x=1".to_string(),
        headers: vec![
            pair("Host", "localhost"),
            pair("Authorization", "Bearer client"),
            pair("Content-Type", "application/json"),
            pair("content-length", "2"),
            pair("CONNECTION", "close"),
        ],
        body: body.to_vec(),
    }
}

fn config(image: bool) -> RelayProxyConfig {
    RelayProxyConfig {
        text_base_url: "https://text.example/v1".to_string(),
        text_api_key: "text-key".to_string(),
        image_base_url: if image { Some("https://image.example/v1".to_string()) } else { None },
        image_api_key: if image { Some("image-key".to_string()) } else { None },
    }
}

fn complete(step: ReadStep) -> ParsedHttpRequest {
    match step {
        ReadStep::Complete(request) => request,
        _ => panic!("the request is complete"),
    }
}

#[test]
fn port_of_the_proxy() {
    assert_eq!(LOCAL_RELAY_PROXY_PORT, 57321);
}

#[test]
fn request_is_read_in_one_piece() {
    let mut reader = RequestReader::new();
    let request = complete(reader.receive(
        b"POST /v1/responses HTTP/1.1\r\nHost: localhost\r\nContent-Length: 5\r\n\r\nhello, world",
    ));
    assert_eq!(request.method, "POST");
    assert_eq!(request.path, "/v1/responses");
    assert_eq!(request.headers, vec![pair("Host", "localhost"), pair("Content-Length", "5")]);
    assert_eq!(request.body, b"hello");
}

#[test]
fn request_does_not_depend_on_chunks() {
    let bytes: &[u8] = b"POST /a HTTP/1.1\r\ncontent-length: 3\r\n\r\nabc";
    let mut reader = RequestReader::new();
    let mut i = 0;
    while i + 1 < bytes.len() {
        assert!(matches!(reader.receive(&bytes[i..i + 1]), ReadStep::ReadMore));
        i += 1;
    }
    let request = complete(reader.receive(&bytes[i..]));
    assert_eq!(request.path, "/a");
    assert_eq!(request.body, b"abc");
}

#[test]
fn closed_connection_ends_the_body() {
    let mut reader = RequestReader::new();
    let step = reader.receive(b"POST / HTTP/1.1\r\nContent-Length: 9\r\n\r\nabc");
    assert!(matches!(step, ReadStep::ReadMore));
    assert_eq!(complete(reader.receive(b"")).body, b"abc");
}

#[test]
fn closed_connection_before_the_head_is_an_error() {
    let mut reader = RequestReader::new();
    assert!(matches!(reader.receive(b""), ReadStep::Failed(ReadError::Empty)));
    let mut reader = RequestReader::new();
    assert!(matches!(reader.receive(b"POST / HTTP"), ReadStep::ReadMore));
    assert!(matches!(reader.receive(b""), ReadStep::Failed(ReadError::Empty)));
    assert_eq!(ReadError::Empty.message(), "empty relay proxy request");
}

#[test]
fn head_that_is_too_long_is_an_error() {
    let mut reader = RequestReader::new();
    assert!(matches!(reader.receive(&vec![b'a'; 1024 * 1024]), ReadStep::ReadMore));
    assert!(matches!(reader.receive(b"a"), ReadStep::Failed(ReadError::HeadTooLarge)));
    assert_eq!(
        ReadError::HeadTooLarge.message(),
        "relay proxy request headers are too large"
    );
}

#[test]
fn request_line_without_words() {
    let mut reader = RequestReader::new();
    let request = complete(reader.receive(b"\r\n\r\n"));
    assert_eq!(request.method, "");
    assert_eq!(request.path, "/");
    assert_eq!(request.body, b"");
}

#[test]
fn bytes_that_are_not_text_are_replaced_in_the_head() {
    let mut reader = RequestReader::new();
    let request = complete(reader.receive(b"GET /\xff HTTP/1.1\r\n\r\n"));
    assert_eq!(request.path, "/\u{fffd}");
}

#[test]
fn later_header_line_replaces_an_earlier_one() {
    let lines = vec![
        "a: 1".to_string(),
        "no colon".to_string(),
        " b : 2:3 ".to_string(),
        "a:4".to_string(),
        "A: 5".to_string(),
    ];
    assert_eq!(
        parse_headers(&lines),
        vec![pair("a", "4"), pair("b", "2:3"), pair("A", "5")]
    );
}

#[test]
fn end_of_the_head() {
    assert_eq!(find_header_end(b"ab\r\n\r\ncd\r\n\r\n"), Some(2));
    assert_eq!(find_header_end(b"\r\n\r\n"), Some(0));
    assert_eq!(find_header_end(b"\r\n\r"), None);
    assert_eq!(find_header_end(b""), None);
}

#[test]
fn length_of_the_body() {
    assert_eq!(content_length(&vec![pair("content-length", " 12 ")]), 12);
    assert_eq!(content_length(&vec![pair("Content-Length", "+7")]), 7);
    assert_eq!(
        content_length(&vec![pair("Content-Length", "1"), pair("content-length", "2")]),
        2
    );
    assert_eq!(content_length(&vec![pair("CONTENT-LENGTH", "9")]), 0);
    assert_eq!(content_length(&vec![pair("content-length", "-1")]), 0);
    assert_eq!(content_length(&vec![pair("content-length", "99999999999999999999999")]), 0);
    assert_eq!(content_length(&vec![]), 0);
}

#[test]
fn headers_that_are_passed_to_the_service() {
    assert_eq!(
        request("GET", b"").forward_headers(),
        vec![pair("Content-Type", "application/json")]
    );
}

#[test]
fn request_for_the_methods_is_answered() {
    let action = answer(&config(true), &request("OPTIONS", b"{}"));
    assert_eq!(action, ProxyAction::Respond(preflight_response()));
    let response = preflight_response();
    assert_eq!(response.status, 204);
    assert_eq!(response.reason, "No Content");
}

#[test]
fn method_that_is_not_allowed_is_refused() {
    let action = answer(&config(true), &request("DELETE", b"{}"));
    assert_eq!(action, ProxyAction::Respond(method_not_allowed_response()));
    let response = method_not_allowed_response();
    assert_eq!(response.status, 405);
    assert_eq!(response.reason, "Method Not Allowed");
    assert_eq!(response.headers, vec![pair("content-type", "application/json")]);
    assert_eq!(response.body, b"{\"error\":{\"message\":\"Method not allowed\"}}");
}

#[test]
fn text_request_goes_to_the_text_service() {
    let action = answer(&config(true), &request("POST", b"{\"input\":\"hi\", \"tools\":[]}"));
    match action {
        ProxyAction::Forward(sent) => {
            assert_eq!(sent.method, UpstreamMethod::Post);
            assert_eq!(sent.url, "https://text.example/v1/responses");
            assert_eq!(sent.api_key, "text-key");
            assert_eq!(sent.headers, vec![pair("Content-Type", "application/json")]);
            assert_eq!(sent.body.unwrap(), b"{\"input\":\"hi\",\"tools\":[]}");
        }
        ProxyAction::Respond(_) => panic!("the request is sent on"),
    }
}

#[test]
fn image_request_goes_to_the_image_service() {
    let action = answer(&config(true), &request("POST", b"{\"input\": \"draw it\"}"));
    match action {
        ProxyAction::Forward(sent) => {
            assert_eq!(sent.url, "https://image.example/v1/responses");
            assert_eq!(sent.api_key, "image-key");
            assert_eq!(sent.body.unwrap(), b"{\"input\": \"draw it\"}");
        }
        ProxyAction::Respond(_) => panic!("the request is sent on"),
    }
}

#[test]
fn image_request_without_image_service_goes_to_the_text_service() {
    let action = answer(&config(false), &request("POST", b"{\"input\": \"draw it\"}"));
    match action {
        ProxyAction::Forward(sent) => {
            assert_eq!(sent.url, "https://text.example/v1/responses");
            assert_eq!(sent.api_key, "text-key");
            assert_eq!(sent.body.unwrap(), b"{\"input\":\"draw it\"}");
        }
        ProxyAction::Respond(_) => panic!("the request is sent on"),
    }
}

#[test]
fn get_request_is_sent_on_without_its_body() {
    let routed = RoutedRequest { route: RelayRoute::Image, body: b"x".to_vec() };
    match answer_routed(&config(true), &request("GET", b"x"), routed) {
        ProxyAction::Forward(sent) => {
            assert_eq!(sent.method, UpstreamMethod::Get);
            assert_eq!(sent.body, None);
            assert_eq!(sent.api_key, "image-key");
        }
        ProxyAction::Respond(_) => panic!("the request is sent on"),
    }
}

#[test]
fn head_of_a_response() {
    let response = RawResponse {
        status: 200,
        reason: "OK".to_string(),
        headers: vec![pair("content-type", "text/plain")],
        body: b"abc".to_vec(),
    };
    assert_eq!(
        response.head(),
        "HTTP/1.1 200 OK\r\nAccess-Control-Allow-Origin: *\r\nAccess-Control-Allow-Methods: GET, POST, OPTIONS\r\nAccess-Control-Allow-Headers: Content-Type, Authorization\r\nContent-Length: 3\r\nConnection: close\r\ncontent-type: text/plain\r\n\r\n"
    );
}

#[test]
fn response_head_is_read_back_as_headers() {
    let response = json_response(200, "OK", b"{}".to_vec());
    let lines: Vec<String> = response.head().lines().skip(1).map(|line| line.to_string()).collect();
    let headers = parse_headers(&lines);
    assert_eq!(content_length(&headers), 2);
    assert!(headers.contains(&pair("content-type", "application/json")));
    assert!(headers.contains(&pair("Connection", "close")));
}

#[test]
fn failure_is_told_in_json() {
    let response = failure_response("timed \"out\"\n");
    assert_eq!(response.status, 502);
    assert_eq!(response.reason, "Bad Gateway");
    let value: serde_json::Value = serde_json::from_slice(&response.body).unwrap();
    assert_eq!(
        value["error"]["message"],
        "Codex++ relay proxy request failed: timed \"out\"\n"
    );
}

#[test]
fn response_of_a_service_is_passed_on() {
    let headers = vec![
        ("Content-Type".to_string(), b"application/json".to_vec()),
        ("set-cookie".to_string(), b"a=b".to_vec()),
        ("x-request-id".to_string(), b"r\xc3\xa9".to_vec()),
        ("OpenAI-Request-Id".to_string(), b"id\t1".to_vec()),
        ("cache-control".to_string(), b"no-cache".to_vec()),
    ];
    let response = relayed_response(404, &headers, b"body".to_vec());
    assert_eq!(response.status, 404);
    assert_eq!(response.reason, "Not Found");
    assert_eq!(
        response.headers,
        vec![
            pair("content-type", "application/json"),
            pair("openai-request-id", "id\t1"),
            pair("cache-control", "no-cache"),
        ]
    );
    assert_eq!(response.body, b"body");
    assert_eq!(relayed_response(299, &vec![], vec![]).reason, "OK");
    assert_eq!(relayed_response(200, &vec![], vec![]).reason, "OK");
    assert_eq!(relayed_response(503, &vec![], vec![]).reason, "Service Unavailable");
}

#[test]
fn header_values_that_are_text() {
    assert_eq!(header_text(b"a b\tc"), Some("a b\tc".to_string()));
    assert_eq!(header_text(b""), Some(String::new()));
    assert_eq!(header_text(b"a\nb"), None);
    assert_eq!(header_text(&[0x7f]), None);
    assert_eq!(header_text(&[0x80]), None);
}

#[test]
fn head_is_parsed_line_by_line() {
    let request = parse_head("  PUT\t/a?b  x\r\n\r\nA: 1\nB:2\r\n");
    assert_eq!(request.method, "PUT");
    assert_eq!(request.path, "/a?b");
    assert_eq!(request.headers, vec![pair("A", "1"), pair("B", "2")]);
    assert_eq!(request.body, b"");
}

#[test]
fn reason_is_passed_on_or_replaced() {
    let headers = vec![("cache-control".to_string(), b"x".to_vec())];
    let response = relayed_with_reason(299, Some("Fine".to_string()), &headers, b"b".to_vec());
    assert_eq!(response.reason, "Fine");
    assert_eq!(response.headers, vec![pair("cache-control", "x")]);
    assert_eq!(relayed_with_reason(404, None, &headers, vec![]).reason, "OK");
}

#[test]
fn failure_document_names_the_error() {
    let message = match failure_json("refused").get("error").and_then(|error| error.get("message")) {
        Some(codex_plus_core::json::Json::Text(message)) => message.clone(),
        _ => panic!("the message is a text"),
    };
    assert_eq!(message, "Codex++ relay proxy request failed: refused");
}

#[test]
fn closed_connection_after_pieces() {
    let mut reader = RequestReader::new();
    for piece in ["POST /a HT", "TP/1.1\r\nContent-Length: 9\r\n", "\r\nab", "c"] {
        assert!(matches!(reader.receive(piece.as_bytes()), ReadStep::ReadMore));
    }
    let request = complete(reader.receive(b""));
    assert_eq!(request.path, "/a");
    assert_eq!(request.body, b"abc");
}

#[test]
fn record_of_a_request() {
    let body = b"{\"input\": \"draw it\"}";
    let routed = route(&config(true), &request("POST", body));
    assert_eq!(routed.route, RelayRoute::Image);
    let entry = record(&request("POST", body), routed.route);
    assert_eq!(entry.method, "POST");
    assert_eq!(entry.path, "/v1/responses?x=1");
    assert_eq!(entry.route, "image");
    assert_eq!(entry.body_bytes, body.len());
    let routed = route(&config(false), &request("POST", body));
    assert_eq!(routed.route, RelayRoute::Text);
    assert_eq!(record(&request("GET", b""), routed.route).route, "text");
}
