use rust_http_web_lib::ordered_map::OrderedMap;
use rust_http_web_lib::status::canonical_reason;
use rust_http_web_lib::App::default_not_found_handler;
use rust_http_web_lib::Request::get_http_data::{CookieValue, GetRequest, HeaderData};
use rust_http_web_lib::Response::{getResponseTool, ResponseTool};
use rust_http_web_lib::RouteManager::RouterManager;

fn fresh() -> ResponseTool {
    getResponseTool(&HeaderData::default(), 0)
}

fn cookie(name: &str, value: &str, age: Option<i32>) -> CookieValue {
    CookieValue { name: name.to_string(), value: value.to_string(), Max_Age: age }
}

#[test]
fn cookie_header_with_and_without_age() {
    assert_eq!(CookieValue::create_header("id".to_string(), "42".to_string(), None), "id=42;");
    assert_eq!(
        CookieValue::create_header("id".to_string(), "42".to_string(), Some(3600)),
        "id=42;Max-Age=3600"
    );
    assert_eq!(
        CookieValue::create_header("id".to_string(), "".to_string(), Some(-1)),
        "id=;Max-Age=-1"
    );
    assert_eq!(
        CookieValue::create_header("n".to_string(), "v".to_string(), Some(i32::MIN)),
        "n=v;Max-Age=-2147483648"
    );
    let c = cookie("s", "abc", Some(0));
    assert_eq!(c.header(), "s=abc;Max-Age=0");
    assert_eq!(c.delete_cookie_header(), "s=deleted;");
}

#[test]
fn fresh_response_defaults() {
    let r = fresh();
    assert!(!r.responded);
    assert_eq!(r.status, 200);
    assert_eq!(r.content, "");
    assert_eq!(r.header.len(), 0);
    assert!(r.cookie.is_empty());
    assert!(!r.caching);
    assert!(!r.ended);
}

#[test]
fn end_writes_status_line_headers_cookies_and_body() {
    let mut r = fresh();
    r.status(201);
    r.set_header("X-B".to_string(), "2".to_string());
    r.set_header("X-A".to_string(), "1".to_string());
    r.set_cookie(&cookie("k", "v", Some(10)));
    let bytes = r.send("héllo".to_string(), true).unwrap();
    let text = String::from_utf8(bytes).unwrap();
    assert_eq!(
        text,
        "HTTP/1.1 201 Created\r\nContent-Length: 6\r\nX-A:1\r\nX-B:2\r\nSet-Cookie: k=v;Max-Age=10\n\r\nhéllo"
    );
    assert!(r.responded);
}

#[test]
fn send_without_end_only_sets_body() {
    let mut r = fresh();
    assert!(r.send("body".to_string(), false).is_none());
    assert_eq!(r.content, "body");
    assert!(!r.responded);
    let bytes = r.end();
    assert_eq!(String::from_utf8(bytes).unwrap(), "HTTP/1.1 200 OK\r\nContent-Length: 4\r\n\r\nbody");
}

#[test]
fn empty_body_sends_raw_bytes() {
    let mut r = fresh();
    let bytes = r.send_bytes(&[1, 2, 3], true).unwrap();
    assert_eq!(bytes, vec![1, 2, 3]);
    assert!(r.responded);
    assert_eq!(r.content_bytes, vec![1, 2, 3]);
}

#[test]
fn remove_header_and_cookie() {
    let mut r = fresh();
    r.set_header("A".to_string(), "1".to_string());
    r.remove_header("A".to_string());
    r.remove_header("missing".to_string());
    assert_eq!(r.header.len(), 0);
    r.requestCookie.push(cookie("s", "old", None));
    r.requestCookie.push(cookie("t", "keep", None));
    r.set_cookie(&cookie("s", "new", None));
    r.set_cookie(&cookie("u", "x", None));
    r.remove_cookie("s".to_string());
    assert_eq!(r.cookie.len(), 1);
    assert_eq!(r.cookie[0].name, "u");
    assert_eq!(r.removeCookieHeader.len(), 1);
    assert_eq!(r.removeCookieHeader[0].value, "old");
    let text = String::from_utf8(r.send("b".to_string(), true).unwrap()).unwrap();
    assert_eq!(
        text,
        "HTTP/1.1 200 OK\r\nContent-Length: 1\r\nSet-Cookie: u=x;\nSet-Cookie: s=deleted;\n\r\nb"
    );
}

#[test]
fn setup_adds_defaults_and_request_cookies() {
    let lines: Vec<String> = vec!["GET / HTTP/1.1".to_string(), "Cookie: s=1".to_string()];
    let request = GetRequest(&lines);
    let mut r = getResponseTool(&request, 0);
    r.set_header("Server".to_string(), "mine".to_string());
    let mut defaults: OrderedMap<String, String> = OrderedMap::new();
    defaults.insert("Server".to_string(), "lib".to_string());
    defaults.insert("X".to_string(), "y".to_string());
    r.Setup(&defaults);
    assert_eq!(r.header.get(&"Server".to_string()), Some(&"lib".to_string()));
    assert_eq!(r.header.get(&"X".to_string()), Some(&"y".to_string()));
    assert_eq!(r.requestCookie.len(), 1);
    assert_eq!(r.requestCookie[0].name, "s");
    assert_eq!(r.requestCookie[0].value, "1");
    assert_eq!(r.requestCookie[0].Max_Age, None);
}

#[test]
fn final_fn_is_set() {
    let mut r = fresh();
    assert_eq!(r.notFoundFunction, None);
    r.finalFn(7);
    assert_eq!(r.finalFunction, 7);
    assert_eq!(r.notFoundFunction, Some(7));
}

#[test]
fn debug_text_shows_method_path_version() {
    let lines: Vec<String> = vec!["GET /a\"b HTTP/1.1".to_string()];
    let request = GetRequest(&lines);
    assert_eq!(
        request.debug_text(),
        format!("HeaderData {{ method: {:?}, path: {:?}, httpVersion: {:?} }}", "GET", "/a\"b", "HTTP/1.1")
    );
    assert_eq!(
        HeaderData::default().debug_text(),
        "HeaderData { method: \"\", path: \"\", httpVersion: \"\" }"
    );
}

#[test]
fn reason_phrases() {
    assert_eq!(canonical_reason(200), Some("OK"));
    assert_eq!(canonical_reason(404), Some("Not Found"));
    assert_eq!(canonical_reason(418), Some("I'm a teapot"));
    assert_eq!(canonical_reason(299), None);
}

#[test]
fn default_not_found_page() {
    let mut req = HeaderData::default();
    let mut r = fresh();
    let mut router = RouterManager::new();
    let bytes = default_not_found_handler(&mut req, &mut r, &mut router);
    assert_eq!(
        String::from_utf8(bytes).unwrap(),
        "HTTP/1.1 404 Not Found\r\nContent-Length: 27\r\n\r\n<h1>404 Page Not Found</h1>"
    );
    assert_eq!(r.status, 404);
    assert!(r.responded);
}

#[test]
fn request_data_maps_start_empty_and_are_copied() {
    let mut req = HeaderData::default();
    assert!(req.LocalData.is_empty());
    assert!(req.LocalLibParseData.is_empty());
    req.LocalData.insert("user".to_string(), serde_json::Value::from(3));
    let r = getResponseTool(&req, 0);
    assert_eq!(r.Request.LocalData.len(), 1);
    assert!(r.Request.LocalData.contains_key("user"));
    assert!(r.Request.LocalLibParseData.is_empty());
}
