use loadbalancer::{
    client_request_builder, format_request_line, read_client_request, request_bytes,
    request_controller, request_from_head, ClientRequest, Error, HeadParse, HeaderField,
    RequestHead,
};

fn field(name: &str, value: &str) -> HeaderField {
    HeaderField { name: name.as_bytes().to_vec(), value: value.as_bytes().to_vec() }
}

fn get(target: &str, headers: Vec<HeaderField>) -> ClientRequest {
    ClientRequest {
        method: b"GET".to_vec(),
        target: target.as_bytes().to_vec(),
        minor_version: 1,
        headers,
        body: Vec::new(),
    }
}

#[test]
fn write_to_stream() {
    let request = get("http://localhost:8080/", vec![field("User-Agent", "curl/7.68.0")]);
    assert_eq!(
        request_bytes(&request),
        b"GET http://localhost:8080/ HTTP/1.1\r\nUser-Agent: curl/7.68.0\r\n\r\n".to_vec()
    );
}

#[test]
fn request_line_has_method_target_and_version() {
    let request = get("http://localhost:8080/", vec![]);
    assert_eq!(format_request_line(&request), b"GET http://localhost:8080/ HTTP/1.1".to_vec());
}

#[test]
fn request_line_writes_minor_version_in_decimal() {
    let mut request = get("/", vec![]);
    request.minor_version = 0;
    assert_eq!(format_request_line(&request), b"GET / HTTP/1.0".to_vec());
    request.minor_version = 12;
    assert_eq!(format_request_line(&request), b"GET / HTTP/1.12".to_vec());
    request.minor_version = 255;
    assert_eq!(format_request_line(&request), b"GET / HTTP/1.255".to_vec());
}

#[test]
fn request_bytes_carry_the_body() {
    let mut request = get("/upload", vec![field("Content-Length", "3")]);
    request.method = b"POST".to_vec();
    request.body = b"abc".to_vec();
    assert_eq!(
        request_bytes(&request),
        b"POST /upload HTTP/1.1\r\nContent-Length: 3\r\n\r\nabc".to_vec()
    );
}

#[test]
fn reads_a_complete_request() {
    let data = b"GET /index.html HTTP/1.1\r\nHost: example.com\r\nAccept: */*\r\n\r\n";
    let request = read_client_request(data).unwrap();
    assert_eq!(request.method, b"GET".to_vec());
    assert_eq!(request.target, b"/index.html".to_vec());
    assert_eq!(request.minor_version, 1);
    assert_eq!(request.headers.len(), 2);
    assert_eq!(request.headers[0].name, b"Host".to_vec());
    assert_eq!(request.headers[0].value, b"example.com".to_vec());
    assert_eq!(request.headers[1].name, b"Accept".to_vec());
    assert_eq!(request.headers[1].value, b"*/*".to_vec());
    assert!(request.body.is_empty());
}

#[test]
fn reads_an_http_1_0_request_and_its_body() {
    let data = b"POST /form HTTP/1.0\r\nContent-Length: 5\r\n\r\nhello";
    let request = read_client_request(data).unwrap();
    assert_eq!(request.method, b"POST".to_vec());
    assert_eq!(request.minor_version, 0);
    assert_eq!(request.body, b"hello".to_vec());
}

#[test]
fn empty_read_means_client_closed() {
    assert_eq!(read_client_request(b"").err(), Some(Error::ClientClosedConnection));
}

#[test]
fn unfinished_head_is_partial() {
    let data = b"GET /404 HTTP/1.1\r\nHost:";
    assert_eq!(read_client_request(data).err(), Some(Error::PartialRequest));
}

#[test]
fn garbage_is_malformed() {
    let data = b"\x01\x02 nonsense\r\n\r\n";
    assert_eq!(read_client_request(data).err(), Some(Error::MalformedRequest));
}

#[test]
fn target_that_is_no_uri_is_malformed() {
    let data = b"GET http:// HTTP/1.1\r\n\r\n";
    assert_eq!(read_client_request(data).err(), Some(Error::MalformedRequest));
}

#[test]
fn more_than_sixteen_headers_are_malformed() {
    let mut data = b"GET / HTTP/1.1\r\n".to_vec();
    for i in 0..17 {
        data.extend_from_slice(format!("X-H{}: v\r\n", i).as_bytes());
    }
    data.extend_from_slice(b"\r\n");
    assert_eq!(read_client_request(&data).err(), Some(Error::MalformedRequest));
}

#[test]
fn request_from_head_follows_the_codec_outcome() {
    let data = b"GET / HTTP/1.1\r\n\r\nrest".to_vec();
    assert_eq!(
        request_from_head(&data, &HeadParse::Invalid, true).err(),
        Some(Error::MalformedRequest)
    );
    assert_eq!(
        request_from_head(&data, &HeadParse::Partial, true).err(),
        Some(Error::PartialRequest)
    );
    let head = RequestHead {
        method: b"GET".to_vec(),
        target: b"/".to_vec(),
        minor_version: 1,
        headers: vec![],
        head_len: 18,
    };
    let parsed = HeadParse::Complete(head);
    assert_eq!(request_from_head(&data, &parsed, false).err(), Some(Error::MalformedRequest));
    let request = request_from_head(&data, &parsed, true).unwrap();
    assert_eq!(request.target, b"/".to_vec());
    assert_eq!(request.body, b"rest".to_vec());
}

#[test]
fn builder_appends_forwarded_for() {
    let request = get("/", vec![field("Host", "a")]);
    let out = client_request_builder("10.0.0.7", &request);
    assert_eq!(out.headers.len(), 2);
    assert_eq!(out.headers[0].name, b"Host".to_vec());
    assert_eq!(out.headers[1].name, b"X-Forwarded-For".to_vec());
    assert_eq!(out.headers[1].value, b"10.0.0.7".to_vec());
    assert_eq!(out.target, b"/".to_vec());
}

#[test]
fn existing_forwarded_for_is_kept_and_followed() {
    let data = b"GET / HTTP/1.1\r\nX-Forwarded-For: 1.2.3.4\r\n\r\n";
    let out = request_controller(data, "5.6.7.8").unwrap();
    assert_eq!(
        out,
        b"GET / HTTP/1.1\r\nX-Forwarded-For: 1.2.3.4\r\nX-Forwarded-For: 5.6.7.8\r\n\r\n".to_vec()
    );
}

#[test]
fn controller_reissues_the_request_unchanged_otherwise() {
    let data = b"PUT /item?id=4 HTTP/1.1\r\nHost: shop\r\nContent-Length: 2\r\n\r\nok";
    let out = request_controller(data, "192.168.1.9").unwrap();
    assert_eq!(
        out,
        b"PUT /item?id=4 HTTP/1.1\r\nHost: shop\r\nContent-Length: 2\r\nX-Forwarded-For: 192.168.1.9\r\n\r\nok"
            .to_vec()
    );
}

#[test]
fn controller_passes_read_errors_on() {
    assert_eq!(request_controller(b"", "1.1.1.1").err(), Some(Error::ClientClosedConnection));
    assert_eq!(
        request_controller(b"GET / HTTP/1.1\r\nHo", "1.1.1.1").err(),
        Some(Error::PartialRequest)
    );
    assert_eq!(request_controller(b"\x7f\r\n\r\n", "1.1.1.1").err(), Some(Error::MalformedRequest));
}
