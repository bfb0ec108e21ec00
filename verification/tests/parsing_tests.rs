use restlib::form::parse_post_data;
use restlib::request::extract_request_parts;
use restlib::response::build_response;

#[test]
fn parse_post_data_takes_the_last_two_values() {
    let (firstname, surname) = parse_post_data("firstname=Ada&surname=Lovelace").unwrap();
    assert_eq!(firstname, "Ada");
    assert_eq!(surname, "Lovelace");
}

#[test]
fn parse_post_data_ignores_keys() {
    let (a, b) = parse_post_data("x=1&y=2&z=3").unwrap();
    assert_eq!(a, "2");
    assert_eq!(b, "3");
}

#[test]
fn parse_post_data_uses_the_text_after_the_last_equals() {
    let (a, b) = parse_post_data("k=a=1&k=b=2").unwrap();
    assert_eq!(a, "1");
    assert_eq!(b, "2");
}

#[test]
fn parse_post_data_without_equals_keeps_the_segment() {
    let (a, b) = parse_post_data("ab&cd").unwrap();
    assert_eq!(a, "ab");
    assert_eq!(b, "cd");
}

#[test]
fn parse_post_data_with_trailing_equals_gives_empty_value() {
    let (a, b) = parse_post_data("firstname=&surname=").unwrap();
    assert_eq!(a, "");
    assert_eq!(b, "");
}

#[test]
fn parse_post_data_with_one_segment_is_rejected() {
    assert!(parse_post_data("only_one_field=x").is_none());
    assert!(parse_post_data("").is_none());
}

#[test]
fn extract_request_parts_takes_first_and_last_nonempty_line() {
    let request = "POST /readers HTTP/1.1\r\nHost: localhost\r\nContent-Length: 29\r\n\r\nfirstname=Ada&surname=Lovelace";
    let (line, body) = extract_request_parts(request).unwrap();
    assert_eq!(line, "POST /readers HTTP/1.1");
    assert_eq!(body, "firstname=Ada&surname=Lovelace");
}

#[test]
fn extract_request_parts_of_a_bodyless_request() {
    let (line, body) = extract_request_parts("GET / HTTP/1.1\r\n\r\n").unwrap();
    assert_eq!(line, "GET / HTTP/1.1");
    assert_eq!(body, "GET / HTTP/1.1");
}

#[test]
fn extract_request_parts_of_empty_text_is_none() {
    assert!(extract_request_parts("").is_none());
}

#[test]
fn extract_request_parts_without_carriage_returns() {
    let (line, body) = extract_request_parts("GET / HTTP/1.1\nHost: x\nabc").unwrap();
    assert_eq!(line, "GET / HTTP/1.1");
    assert_eq!(body, "abc");
}

#[test]
fn content_length_is_the_exact_byte_length() {
    let response = build_response("HTTP/1.1 200 OK", "hello");
    assert_eq!(response, "HTTP/1.1 200 OK\r\nContent-Length: 5\r\n\r\nhello");
}

#[test]
fn content_length_of_an_empty_body_is_zero() {
    let response = build_response("HTTP/1.1 404 NOT FOUND", "");
    assert_eq!(response, "HTTP/1.1 404 NOT FOUND\r\nContent-Length: 0\r\n\r\n");
}

#[test]
fn content_length_counts_bytes_not_characters() {
    let body = "h\u{e9}llo";
    let response = build_response("HTTP/1.1 200 OK", body);
    assert_eq!(
        response,
        format!("HTTP/1.1 200 OK\r\nContent-Length: 6\r\n\r\n{}", body)
    );
}

#[test]
fn served_index_body_is_verbatim() {
    let index = "<html><body>welcome</body></html>\n";
    let response = build_response("HTTP/1.1 200 OK", index);
    let expected = format!(
        "HTTP/1.1 200 OK\r\nContent-Length: {}\r\n\r\n{}",
        index.len(),
        index
    );
    assert_eq!(response, expected);
}
