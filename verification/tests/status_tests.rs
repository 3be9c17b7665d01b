use url_profiler::status::get_response_code;
use url_profiler::status::parse_u32_token;
use url_profiler::status::try_get_response_code;

#[test]
fn parses_200_from_ok_status_line() {
    let code = get_response_code("HTTP/1.0 200 OK\r\nContent-Type: text/html\r\n\r\nhello");
    assert_eq!(code, 200);
}

#[test]
fn parses_404_from_not_found_status_line() {
    let code = get_response_code("HTTP/1.0 404 Not Found\r\nServer: x\r\n\r\n");
    assert_eq!(code, 404);
}

#[test]
fn parses_code_when_response_has_a_single_line() {
    assert_eq!(try_get_response_code("HTTP/1.0 301 Moved"), Some(301));
}

#[test]
fn parses_code_at_end_of_status_line() {
    assert_eq!(try_get_response_code("HTTP/1.0 500\r\nrest"), Some(500));
}

#[test]
fn rejects_status_line_without_second_token() {
    assert_eq!(try_get_response_code("HTTPSTATUS\r\nmore text"), None);
    assert_eq!(try_get_response_code(""), None);
}

#[test]
fn rejects_non_numeric_status_token() {
    assert_eq!(try_get_response_code("HTTP/1.0 abc OK\r\n"), None);
    assert_eq!(try_get_response_code("HTTP/1.0 20x OK\r\n"), None);
}

#[test]
fn rejects_empty_status_token_from_double_space() {
    assert_eq!(try_get_response_code("HTTP/1.0  200 OK\r\n"), None);
}

#[test]
fn only_the_first_line_is_parsed() {
    // The space is on the second line, so the status line has no token.
    assert_eq!(try_get_response_code("HTTPSTATUS\r\nHTTP/1.0 200 OK"), None);
}

#[test]
fn parses_u32_tokens_exactly() {
    assert_eq!(parse_u32_token("0"), Some(0));
    assert_eq!(parse_u32_token("200"), Some(200));
    assert_eq!(parse_u32_token("4294967295"), Some(u32::MAX));
}

#[test]
fn rejects_overflowing_and_malformed_tokens() {
    assert_eq!(parse_u32_token("4294967296"), None);
    assert_eq!(parse_u32_token("99999999999"), None);
    assert_eq!(parse_u32_token(""), None);
    assert_eq!(parse_u32_token("+200"), None);
    assert_eq!(parse_u32_token("2 0"), None);
}
