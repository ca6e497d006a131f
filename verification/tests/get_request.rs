use rust_http_web_lib::Request::get_http_data::{
    request_is_readable, try_get_request, GetRequest,
};

fn lines(v: &[&str]) -> Vec<String> {
    v.iter().map(|s| s.to_string()).collect()
}

#[test]
fn test_get_request() {
    let request_data = vec![
        "GET / HTTP/1.1",
        "Host: 127.0.0.1:8000",
        "Connection: keep-alive",
    ]
    .into_iter()
    .map(|s| s.to_owned())
    .collect();
    let request = GetRequest(&request_data);
    assert_eq!(request.method, "GET");
    assert_eq!(request.path, "/");
    assert_eq!(request.http_version, "HTTP/1.1");
    assert_eq!(
        request.header.get(&"Host".to_string()),
        Some(&"127.0.0.1:8000".to_owned())
    );
    assert_eq!(
        request.header.get(&"Connection".to_string()),
        Some(&"keep-alive".to_owned())
    )
}

#[test]
fn request_keeps_raw_lines() {
    let data = lines(&["POST /form HTTP/1.0", "Content-Type: text/plain"]);
    let request = GetRequest(&data);
    assert_eq!(request.rawData, data);
    assert_eq!(request.method, "POST");
    assert_eq!(request.path, "/form");
    assert_eq!(request.http_version, "HTTP/1.0");
}

#[test]
fn request_path_is_trimmed() {
    let data = lines(&["DELETE    /items/3   HTTP/2.0"]);
    let request = GetRequest(&data);
    assert_eq!(request.method, "DELETE");
    assert_eq!(request.path, "/items/3");
    assert_eq!(request.http_version, "HTTP/2.0");
}

#[test]
fn cookie_line_fills_cookies_not_headers() {
    let data = lines(&["GET /a HTTP/1.1", "Cookie: session=abc"]);
    let request = GetRequest(&data);
    assert_eq!(request.cookie.get(&"session".to_string()), Some(&"abc".to_string()));
    assert_eq!(request.header.get(&"Cookie".to_string()), None);
    assert_eq!(request.cookie.len(), 1);
}

#[test]
fn cookie_value_stops_at_second_equals() {
    let data = lines(&["Cookie: a=1; b=2"]);
    let request = GetRequest(&data);
    assert_eq!(request.cookie.get(&"a".to_string()), Some(&"1; b".to_string()));
}

#[test]
fn later_header_replaces_earlier() {
    let data = lines(&["X-Id: 1", "X-Id: 2"]);
    let request = GetRequest(&data);
    assert_eq!(request.header.get(&"X-Id".to_string()), Some(&"2".to_string()));
    assert_eq!(request.header.len(), 1);
}

#[test]
fn unmatched_lines_change_nothing() {
    let data = lines(&["just some text", ""]);
    let request = GetRequest(&data);
    assert_eq!(request.method, "");
    assert_eq!(request.path, "");
    assert_eq!(request.header.len(), 0);
    assert_eq!(request.cookie.len(), 0);
}

#[test]
fn cookie_without_equals_is_refused() {
    let data = lines(&["GET / HTTP/1.1", "Cookie: nothing"]);
    assert!(!request_is_readable(&data));
    assert!(try_get_request(&data).is_none());
}

#[test]
fn readable_request_is_parsed_by_try() {
    let data = lines(&["GET /x HTTP/1.1", "Accept: */*"]);
    assert!(request_is_readable(&data));
    let request = try_get_request(&data).unwrap();
    assert_eq!(request.path, "/x");
    assert_eq!(request.header.get(&"Accept".to_string()), Some(&"*/*".to_string()));
}
