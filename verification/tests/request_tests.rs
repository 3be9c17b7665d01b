use url_profiler::request::connect_address;
use url_profiler::request::host_header;
use url_profiler::request::request_line;

#[test]
fn request_line_is_a_raw_http_1_0_get() {
    assert_eq!(request_line("/index.html"), "GET /index.html HTTP/1.0\r\n");
}

#[test]
fn request_line_keeps_an_empty_route_empty() {
    // A URL whose route came out empty still produces a request line,
    // with nothing between the method and the protocol.
    assert_eq!(request_line(""), "GET  HTTP/1.0\r\n");
}

#[test]
fn host_header_is_the_only_header() {
    assert_eq!(host_header("example.com"), "Host: example.com\r\n\r\n");
}

#[test]
fn connections_go_to_port_80() {
    assert_eq!(connect_address("example.com"), "example.com:80");
}
