use url_profiler::response::classify_response;
use url_profiler::response::response_body;
use url_profiler::response::ResponseClass;

#[test]
fn body_is_everything_after_the_separator() {
    assert_eq!(response_body("Header: v\r\n\r\nbody text"), "body text");
}

#[test]
fn body_is_the_last_segment_with_several_separators() {
    assert_eq!(response_body("a\r\n\r\nb\r\n\r\nc"), "c");
}

#[test]
fn body_is_whole_text_without_separator() {
    assert_eq!(response_body("no separator here"), "no separator here");
}

#[test]
fn body_scan_is_greedy_left_to_right() {
    // Back-to-back separators do not overlap: after skipping the first
    // four characters, the remaining `\r\n` is not a separator.
    assert_eq!(response_body("x\r\n\r\n\r\ny"), "\r\ny");
}

#[test]
fn classifies_200_as_success_with_body() {
    let text = "HTTP/1.0 200 OK\r\nServer: t\r\n\r\nhello world";
    match classify_response(text) {
        Some(ResponseClass::Success(body)) => assert_eq!(body, "hello world"),
        _ => panic!("expected a success"),
    }
}

#[test]
fn classifies_other_codes_as_failure() {
    let text = "HTTP/1.0 500 Internal Server Error\r\n\r\n";
    match classify_response(text) {
        Some(ResponseClass::Failure(code)) => assert_eq!(code, 500),
        _ => panic!("expected a failure"),
    }
}

#[test]
fn classifies_unparsable_status_as_none() {
    assert!(classify_response("garbage without a line").is_none());
}

#[test]
fn three_probes_two_successes_one_failure() {
    // A run of three requests against a server answering 200, 200, 500:
    // two bodies, one failure code, a success count of two out of three.
    let responses = [
        "HTTP/1.0 200 OK\r\n\r\nfirst body",
        "HTTP/1.0 200 OK\r\n\r\nsecond body",
        "HTTP/1.0 500 Oops\r\n\r\nignored",
    ];
    let mut bodies: Vec<&str> = Vec::new();
    let mut failures: Vec<u32> = Vec::new();
    for text in responses {
        match classify_response(text) {
            Some(ResponseClass::Success(body)) => bodies.push(body),
            Some(ResponseClass::Failure(code)) => failures.push(code),
            None => panic!("all three responses are well-formed"),
        }
    }
    assert_eq!(bodies, vec!["first body", "second body"]);
    assert_eq!(failures, vec![500]);
    let success_count = bodies.len();
    assert_eq!(success_count, 2);
}
