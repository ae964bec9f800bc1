use loadbalancer::{bad_gateway_response, bad_request_response, health_check_passed, health_check_request};

#[test]
fn probe_request_is_a_minimal_get() {
    assert_eq!(
        health_check_request("/healthz"),
        b"GET /healthz HTTP/1.1\r\nHost: localhost\r\n\r\n".to_vec()
    );
    assert_eq!(health_check_request("/"), b"GET / HTTP/1.1\r\nHost: localhost\r\n\r\n".to_vec());
}

#[test]
fn test_active_health_check() {
    let answer = b"HTTP/1.1 200 OK\r\nContent-Length: 0\r\n\r\n";
    let status = if health_check_passed(answer) { 1 } else { -1 };
    assert_eq!(status, 1);
}

#[test]
fn test_inactive_health_check() {
    let answer = b"HTTP/1.1 503 Service Unavailable\r\n\r\n";
    let status = if health_check_passed(answer) { 1 } else { -1 };
    assert_eq!(status, -1);
}

#[test]
fn verdict_needs_the_whole_status_text() {
    assert!(!health_check_passed(b""));
    assert!(!health_check_passed(b"200 O"));
    assert!(!health_check_passed(b"HTTP/1.1 200 Ok"));
    assert!(health_check_passed(b"200 OK"));
    assert!(health_check_passed(b"xx200 OKyy"));
}

#[test]
fn synthetic_answers_are_bare_status_lines() {
    assert_eq!(bad_request_response(), b"HTTP/1.1 400 Bad Request\r\n\r\n".to_vec());
    assert_eq!(bad_gateway_response(), b"HTTP/1.1 502 Bad Gateway\r\n\r\n".to_vec());
}
