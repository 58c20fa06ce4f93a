use forecast_server::fields::{field_text, forecast_fields};
use forecast_server::request::FrameError;
use forecast_server::response::{bad_request, reply, response, Status};
use forecast_server::router::{rocket, route_request, Handler, Router};

#[test]
fn rocket_routes_listed_pairs() {
    let r = rocket();
    assert_eq!(r.dispatch(b"GET", b"/"), Handler::Index);
    assert_eq!(r.dispatch(b"GET", b"/styles.css"), Handler::Styles);
    assert_eq!(r.dispatch(b"GET", b"/scripts.js"), Handler::Scripts);
    assert_eq!(r.dispatch(b"GET", b"/favicon.ico"), Handler::Favicon);
    assert_eq!(r.dispatch(b"POST", b"/api/forecast"), Handler::Forecast);
}

#[test]
fn unknown_method_or_path_is_not_found() {
    let r = rocket();
    assert_eq!(r.dispatch(b"GET", b"/api/forecast"), Handler::NotFound);
    assert_eq!(r.dispatch(b"POST", b"/"), Handler::NotFound);
    assert_eq!(r.dispatch(b"GET", b"/nothing"), Handler::NotFound);
    assert_eq!(r.dispatch(b"get", b"/"), Handler::NotFound);
}

#[test]
fn first_mounted_route_wins() {
    let mut r = Router::new();
    r.mount(b"GET".to_vec(), b"/x".to_vec(), Handler::Styles);
    r.mount(b"GET".to_vec(), b"/x".to_vec(), Handler::Scripts);
    assert_eq!(r.dispatch(b"GET", b"/x"), Handler::Styles);
}

#[test]
fn response_bytes_are_exact() {
    let r = response(Status::Success, b"text/css", b"a{}");
    assert_eq!(r, b"HTTP/1.1 200 OK\r\nContent-Type: text/css\r\nContent-Length: 3\r\n\r\na{}".to_vec());
    let e = response(Status::InternalError, b"text/plain", b"");
    assert_eq!(e, b"HTTP/1.1 500 Internal Server Error\r\nContent-Type: text/plain\r\nContent-Length: 0\r\n\r\n".to_vec());
}

#[test]
fn not_found_reply_declares_exact_length() {
    let body = vec![b'x'; 1234];
    let r = reply(Handler::NotFound, &body);
    let mut expected = b"HTTP/1.1 404 Not Found\r\nContent-Type: text/html; charset=utf-8\r\nContent-Length: 1234\r\n\r\n".to_vec();
    expected.extend_from_slice(&body);
    assert_eq!(r, expected);
}

#[test]
fn unknown_request_routes_to_not_found() {
    let r = rocket();
    let (h, body) = route_request(&r, b"DELETE /api/forecast HTTP/1.1\r\n\r\n").unwrap();
    assert_eq!(h, Handler::NotFound);
    assert!(body.is_empty());
}

#[test]
fn forecast_request_routes_with_body() {
    let r = rocket();
    let input = b"POST /api/forecast HTTP/1.1\r\nContent-Length: 12\r\n\r\n{\"range\": 3}";
    let (h, body) = route_request(&r, input).unwrap();
    assert_eq!(h, Handler::Forecast);
    assert_eq!(body, b"{\"range\": 3}".to_vec());
    assert_eq!(route_request(&r, b"POST /api/forecast HTTP/1.1\r\nContent-Length: 12\r\n\r\n{").err(), Some(FrameError::IncompleteBody));
}

#[test]
fn field_values_are_found() {
    let body = b"{\"outflow\": 1000, \"inflow\":1500 ,\"range\" : 3,\"inflation_rate\": 0.1, \"inflow_offset\": 1}";
    assert_eq!(field_text(body, b"outflow"), Some(b"1000".to_vec()));
    assert_eq!(field_text(body, b"inflow"), Some(b"1500".to_vec()));
    assert_eq!(field_text(body, b"range"), Some(b"3".to_vec()));
    assert_eq!(field_text(body, b"inflation_rate"), Some(b"0.1".to_vec()));
    assert_eq!(field_text(body, b"inflow_offset"), Some(b"1".to_vec()));
    let f = forecast_fields(body).unwrap();
    assert_eq!(f.range, b"3".to_vec());
    assert_eq!(f.inflation_rate, b"0.1".to_vec());
}

#[test]
fn field_without_colon_or_value_is_absent() {
    assert_eq!(field_text(b"{\"range\" 3}", b"range"), None);
    assert_eq!(field_text(b"{\"range\": }", b"range"), None);
    assert_eq!(field_text(b"{\"rang\": 3}", b"range"), None);
}

#[test]
fn missing_range_is_a_bad_request() {
    let body = b"{\"outflow\": 1000, \"inflow\": 1500, \"inflation_rate\": 0.1, \"inflow_offset\": 1}";
    assert!(forecast_fields(body).is_none());
    let r = bad_request(b"missing field");
    assert!(r.starts_with(b"HTTP/1.1 400 Bad Request\r\n"));
    assert!(r.ends_with(b"Content-Length: 13\r\n\r\nmissing field"));
}

#[test]
fn many_forecast_requests_framed_independently() {
    let r = rocket();
    for range in 1..20u32 {
        let body = format!("{{\"outflow\": 1, \"inflow\": 2, \"range\": {}, \"inflation_rate\": 0.5, \"inflow_offset\": 0}}", range);
        let input = format!("POST /api/forecast HTTP/1.1\r\nContent-Length: {}\r\n\r\n{}", body.len(), body);
        let (h, got) = route_request(&r, input.as_bytes()).unwrap();
        assert_eq!(h, Handler::Forecast);
        let f = forecast_fields(&got).unwrap();
        assert_eq!(f.range, range.to_string().into_bytes());
    }
}

#[test]
fn framer_reads_back_a_written_response() {
    let body = b"<h1>gone</h1>";
    let r = response(Status::NotFound, b"text/html", body);
    let q = forecast_server::request::parse_request(&r).unwrap();
    assert_eq!(q.method, b"HTTP/1.1".to_vec());
    assert_eq!(q.path, b"404".to_vec());
    assert_eq!(q.headers, vec![b"Content-Type: text/html".to_vec(), b"Content-Length: 13".to_vec()]);
    assert_eq!(q.body, body.to_vec());
    assert_eq!(q.consumed, r.len());
}
