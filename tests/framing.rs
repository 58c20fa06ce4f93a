use forecast_server::request::{bytes_wanted, declared_length, parse_request, FrameError};

#[test]
fn frames_get_without_body() {
    let input = b"GET /styles.css HTTP/1.1\r\nHost: x\r\nAccept: */*\r\n\r\n";
    let r = parse_request(input).unwrap();
    assert_eq!(r.method, b"GET".to_vec());
    assert_eq!(r.path, b"/styles.css".to_vec());
    assert_eq!(r.headers, vec![b"Host: x".to_vec(), b"Accept: */*".to_vec()]);
    assert!(r.body.is_empty());
    assert_eq!(r.consumed, input.len());
}

#[test]
fn frames_body_of_declared_length_and_no_more() {
    let head = b"POST /api/forecast HTTP/1.1\r\nContent-Length: 11\r\n\r\n";
    let mut input = head.to_vec();
    input.extend_from_slice(b"{\"range\":3}");
    input.extend_from_slice(b"GET / HTTP/1.1\r\n\r\n");
    let r = parse_request(&input).unwrap();
    assert_eq!(r.body, b"{\"range\":3}".to_vec());
    assert_eq!(r.consumed, head.len() + 11);
}

#[test]
fn bare_line_feeds_are_line_breaks() {
    let r = parse_request(b"POST /a\nContent-Length: 2\n\nhi").unwrap();
    assert_eq!(r.method, b"POST".to_vec());
    assert_eq!(r.path, b"/a".to_vec());
    assert_eq!(r.body, b"hi".to_vec());
    assert_eq!(r.consumed, 29);
}

#[test]
fn stream_ending_in_request_line_is_malformed() {
    assert_eq!(parse_request(b"GET / HTTP/1.1").err(), Some(FrameError::MalformedRequest));
    assert_eq!(parse_request(b"").err(), Some(FrameError::MalformedRequest));
}

#[test]
fn missing_blank_line_is_malformed() {
    assert_eq!(
        parse_request(b"GET / HTTP/1.1\r\nHost: x\r\n").err(),
        Some(FrameError::MalformedRequest)
    );
}

#[test]
fn request_line_without_path_is_malformed() {
    assert_eq!(parse_request(b"GET\r\n\r\n").err(), Some(FrameError::MalformedRequest));
}

#[test]
fn short_body_is_incomplete() {
    assert_eq!(
        parse_request(b"POST /api/forecast HTTP/1.1\r\nContent-Length: 10\r\n\r\nabc").err(),
        Some(FrameError::IncompleteBody)
    );
}

#[test]
fn content_length_rules() {
    let hs = |v: &[&str]| v.iter().map(|s| s.as_bytes().to_vec()).collect::<Vec<_>>();
    assert_eq!(declared_length(&hs(&["Content-Length: 42"])), 42);
    assert_eq!(declared_length(&hs(&["Content-Length:\t7  "])), 7);
    assert_eq!(declared_length(&hs(&["content-length: 42"])), 0);
    assert_eq!(declared_length(&hs(&["Content-Length: 4x"])), 0);
    assert_eq!(declared_length(&hs(&["Content-Length: "])), 0);
    assert_eq!(declared_length(&hs(&["Content-Length: 99999999999999999999999"])), 0);
    assert_eq!(declared_length(&hs(&["Host: a", "Content-Length: 5", "Content-Length: 9"])), 5);
    assert_eq!(declared_length(&hs(&[])), 0);
}

#[test]
fn reader_guided_by_bytes_wanted_stops_at_request_end() {
    let head = b"POST /api/forecast HTTP/1.1\r\nContent-Length: 5\r\n\r\n";
    let mut stream = head.to_vec();
    stream.extend_from_slice(b"hello");
    stream.extend_from_slice(b"NEXT REQUEST");
    let mut buf: Vec<u8> = Vec::new();
    let mut pos = 0;
    loop {
        let n = bytes_wanted(&buf);
        if n == 0 {
            break;
        }
        let take = n.min(stream.len() - pos);
        assert!(take > 0);
        buf.extend_from_slice(&stream[pos..pos + take]);
        pos += take;
    }
    assert_eq!(pos, head.len() + 5);
    let r = parse_request(&buf).unwrap();
    assert_eq!(r.body, b"hello".to_vec());
    assert_eq!(r.consumed, buf.len());
}

#[test]
fn bytes_wanted_counts() {
    assert_eq!(bytes_wanted(b""), 1);
    assert_eq!(bytes_wanted(b"GET / HTTP/1.1\r\n"), 1);
    assert_eq!(bytes_wanted(b"GET / HTTP/1.1\r\n\r\n"), 0);
    assert_eq!(bytes_wanted(b"POST / HTTP/1.1\r\nContent-Length: 10\r\n\r\nabc"), 7);
}
