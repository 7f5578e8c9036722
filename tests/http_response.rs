use iexc::http::{HttpError, Response};

#[test]
fn test_parse_valid_response() {
    let response = b"HTTP/1.1 200 OK\r\n\
                     Date: Sun, 10 Oct 2010 23:26:07 GMT\r\n\
                     Server: Apache/2.2.8 (Ubuntu) mod_ssl/2.2.8 OpenSSL/0.9.8g\r\n\
                     Last-Modified: Sun, 26 Sep 2010 22:04:35 GMT\r\n\
                     ETag: \"45b6-834-49130cc1182c0\"\r\n\
                     Accept-Ranges: bytes\r\n\
                     Content-Length: 12\r\n\
                     Connection: close\r\n\
                     Content-Type: text/html\r\n\
                     \r\n\
                     Hello world!" as &[u8];

    let resp = Response::parse(response).unwrap();

    assert_eq!(resp.protocol_version, "HTTP/1.1");
    assert_eq!(resp.status_code, 200);
    assert_eq!(resp.status_message, "OK");
    assert_eq!(resp.body, "Hello world!");
}

#[test]
fn test_parse_invalid_status() {
    let response = b"OK\n\r\
                     Date: Sun, 10 Oct 2010 23:26:07 GMT\r\n\
                     Server: Apache/2.2.8 (Ubuntu) mod_ssl/2.2.8 OpenSSL/0.9.8g\r\n\
                     \r\n" as &[u8];

    match Response::parse(response) {
        Ok(_) => assert!(false),
        Err(e) => {
            assert_eq!(e, HttpError::MalformedStatusLine);
        }
    }
}

#[test]
fn valid_response_scenario() {
    let resp = Response::parse(b"HTTP/1.1 200 OK\r\nContent-Length: 12\r\n\r\nHello world!").unwrap();
    assert_eq!(resp.protocol_version, "HTTP/1.1");
    assert_eq!(resp.status_code, 200);
    assert_eq!(resp.status_message, "OK");
    assert_eq!(resp.headers, vec![("content-length".to_string(), "12".to_string())]);
    assert_eq!(resp.body, "Hello world!");
}

#[test]
fn malformed_status_line() {
    let r = Response::parse(b"OK\r\n\r\n");
    assert_eq!(r.unwrap_err(), HttpError::MalformedStatusLine);
}

#[test]
fn status_line_without_message_is_malformed() {
    let r = Response::parse(b"HTTP/1.1 200\r\n\r\n");
    assert_eq!(r.unwrap_err(), HttpError::MalformedStatusLine);
}

#[test]
fn multi_word_status_message() {
    let resp = Response::parse(b"HTTP/1.1 301 Moved to some nice place\r\n\r\n").unwrap();
    assert_eq!(resp.status_code, 301);
    assert_eq!(resp.status_message, "Moved to some nice place");
}

#[test]
fn malformed_header_line() {
    let r = Response::parse(b"HTTP/1.1 200 OK\r\nNo separator here\r\n\r\n");
    assert_eq!(r.unwrap_err(), HttpError::MalformedHeaderLine);
}

#[test]
fn missing_blank_line_is_malformed_header() {
    let r = Response::parse(b"HTTP/1.1 200 OK\r\nA: b\r\n");
    assert_eq!(r.unwrap_err(), HttpError::MalformedHeaderLine);
}

#[test]
fn zero_headers() {
    let resp = Response::parse(b"HTTP/1.1 204 No Content\r\n\r\n").unwrap();
    assert!(resp.headers.is_empty());
    assert_eq!(resp.body, "");
}

#[test]
fn absent_content_length_gives_empty_body() {
    let resp = Response::parse(b"HTTP/1.1 200 OK\r\nServer: x\r\n\r\nignored").unwrap();
    assert_eq!(resp.body, "");
    assert_eq!(resp.headers.len(), 1);
}

#[test]
fn body_is_exactly_declared_length_and_headers_keep_order() {
    let resp = Response::parse(
        b"HTTP/1.1 200 OK\r\nX-B: One\r\nContent-LENGTH: 5\r\nX-A:  Two  \r\nX-B: three\r\n\r\nHello world!",
    )
    .unwrap();
    assert_eq!(resp.body, "Hello");
    assert_eq!(
        resp.headers,
        vec![
            ("x-b".to_string(), "one".to_string()),
            ("content-length".to_string(), "5".to_string()),
            ("x-a".to_string(), "two".to_string()),
            ("x-b".to_string(), "three".to_string()),
        ]
    );
}

#[test]
fn first_content_length_wins() {
    let resp =
        Response::parse(b"HTTP/1.1 200 OK\r\ncontent-length: 2\r\ncontent-length: 4\r\n\r\nabcd").unwrap();
    assert_eq!(resp.body, "ab");
}

#[test]
fn parsing_twice_gives_equal_responses() {
    let input = b"HTTP/1.1 200 OK\r\nContent-Length: 3\r\nA: B\r\n\r\nxyz";
    let a = Response::parse(input).unwrap();
    let b = Response::parse(input).unwrap();
    assert_eq!(a.protocol_version, b.protocol_version);
    assert_eq!(a.status_code, b.status_code);
    assert_eq!(a.status_message, b.status_message);
    assert_eq!(a.headers, b.headers);
    assert_eq!(a.body, b.body);
}

#[test]
fn truncated_body() {
    let r = Response::parse(b"HTTP/1.1 200 OK\r\nContent-Length: 10\r\n\r\nshort");
    assert_eq!(r.unwrap_err(), HttpError::TruncatedBody);
}

#[test]
fn non_numeric_status_code() {
    let r = Response::parse(b"HTTP/1.1 abc OK\r\n\r\n");
    assert_eq!(r.unwrap_err(), HttpError::NonNumericField);
}

#[test]
fn status_code_out_of_range() {
    let r = Response::parse(b"HTTP/1.1 65536 OK\r\n\r\n");
    assert_eq!(r.unwrap_err(), HttpError::NonNumericField);
    let resp = Response::parse(b"HTTP/1.1 65535 OK\r\n\r\n").unwrap();
    assert_eq!(resp.status_code, 65535);
}

#[test]
fn non_numeric_content_length() {
    let r = Response::parse(b"HTTP/1.1 200 OK\r\nContent-Length: twelve\r\n\r\n");
    assert_eq!(r.unwrap_err(), HttpError::NonNumericField);
    let r = Response::parse(b"HTTP/1.1 200 OK\r\nContent-Length: 18446744073709551616\r\n\r\n");
    assert_eq!(r.unwrap_err(), HttpError::NonNumericField);
}

#[test]
fn invalid_utf8_body() {
    let r = Response::parse(b"HTTP/1.1 200 OK\r\nContent-Length: 2\r\n\r\n\xff\xfe");
    assert_eq!(r.unwrap_err(), HttpError::InvalidText);
}

#[test]
fn multibyte_body_counts_bytes() {
    let resp = Response::parse("HTTP/1.1 200 OK\r\nContent-Length: 4\r\n\r\nhé!!".as_bytes()).unwrap();
    assert_eq!(resp.body, "hé!");
}

#[test]
fn declared_body_length() {
    assert_eq!(Response::body_length(b"HTTP/1.1 200 OK\r\nContent-Length: 12\r\n\r\n"), Ok(12));
    assert_eq!(Response::body_length(b"HTTP/1.1 200 OK\r\n\r\n"), Ok(0));
    assert_eq!(Response::body_length(b"OK\r\n\r\n"), Err(HttpError::MalformedStatusLine));
}

#[test]
fn status_line_split_on_unicode_whitespace() {
    let resp = Response::parse(b"A\x0b2 B\r\n\r\n").unwrap();
    assert_eq!(resp.protocol_version, "A");
    assert_eq!(resp.status_code, 2);
    assert_eq!(resp.status_message, "B");
    let r = Response::parse(b"A\x0bB C\r\n\r\n");
    assert_eq!(r.unwrap_err(), HttpError::NonNumericField);
    let resp = Response::parse("HTTP/1.1\u{a0}200\u{3000}Fine day\u{2028}\r\n\r\n".as_bytes()).unwrap();
    assert_eq!(resp.status_code, 200);
    assert_eq!(resp.status_message, "Fine day");
}

#[test]
fn header_value_trimmed_of_unicode_whitespace() {
    let resp = Response::parse("HTTP/1.1 200 OK\r\na:\x0bb\u{a0}\r\nc: \u{2003}D E\u{85}\r\n\r\n".as_bytes()).unwrap();
    assert_eq!(
        resp.headers,
        vec![("a".to_string(), "b".to_string()), ("c".to_string(), "d e".to_string())]
    );
}

#[test]
fn plus_sign_in_numbers() {
    let resp = Response::parse(b"HTTP/1.1 +200 OK\r\nContent-Length: +2\r\n\r\nabc").unwrap();
    assert_eq!(resp.status_code, 200);
    assert_eq!(resp.body, "ab");
    let r = Response::parse(b"HTTP/1.1 + OK\r\n\r\n");
    assert_eq!(r.unwrap_err(), HttpError::NonNumericField);
}

#[test]
fn content_length_name_matched_in_any_case() {
    let headers = vec![(b"Content-Length".to_vec(), b"3".to_vec())];
    assert_eq!(iexc::http::response::find_content_length(&headers), Ok(3));
    let headers = vec![(b"x".to_vec(), b"1".to_vec()), (b"CONTENT-length".to_vec(), b"7".to_vec()), (b"content-length".to_vec(), b"9".to_vec())];
    assert_eq!(iexc::http::response::find_content_length(&headers), Ok(7));
    let headers = vec![(b"server".to_vec(), b"x".to_vec())];
    assert_eq!(iexc::http::response::find_content_length(&headers), Ok(0));
}

#[test]
fn header_line_without_colon() {
    let line = b"No separator\r\n";
    assert_eq!(
        iexc::http::response::parse_header(line, 0, line.len()),
        Err(HttpError::MalformedHeaderLine)
    );
    let line = b"Name: A:B \r\n";
    assert_eq!(
        iexc::http::response::parse_header(line, 0, line.len()),
        Ok((b"name".to_vec(), b"a:b".to_vec()))
    );
}
