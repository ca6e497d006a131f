use rust_http_web_lib::App::{
    add_route_pub, get_key, pub_add_multiple_handler, HandlerBTreeMapKeyString, HandlerType,
    HttpHandler, DEFAULT_NOT_FOUND_HANDLER,
};
use rust_http_web_lib::ordered_map::OrderedMap;
use rust_http_web_lib::RouteManager::RouterManager;

fn key(method: &str, path: &str) -> HandlerBTreeMapKeyString {
    get_key(method.to_string(), path.to_string())
}

#[test]
fn get_key_joins_method_and_path() {
    let k = get_key("GET".to_string(), "/home".to_string());
    assert_eq!(k.data, "GET/home");
    assert_eq!(k.method, "GET");
    assert_eq!(k.path, "/home");
}

#[test]
fn add_multiple_handler_appends_in_order() {
    let mut table: HandlerType = OrderedMap::new();
    pub_add_multiple_handler(&mut table, key("GET", "/"), vec![1, 2]);
    pub_add_multiple_handler(&mut table, key("GET", "/"), vec![3]);
    pub_add_multiple_handler(&mut table, key("POST", "/"), vec![4]);
    assert_eq!(table.get(&key("GET", "/")), Some(&vec![1, 2, 3]));
    assert_eq!(table.get(&key("POST", "/")), Some(&vec![4]));
    assert_eq!(table.len(), 2);
}

#[test]
fn http_handler_registers_each_method() {
    let mut h = HttpHandler::new();
    h.get("/".to_string(), 1);
    h.post("/".to_string(), 2);
    h.put("/p".to_string(), 3);
    h.patch("/p".to_string(), 4);
    h.delete("/p".to_string(), 5);
    h.all_method("/any".to_string(), 6);
    h.all(7);
    h.get("/".to_string(), 8);
    let t = h.handlers();
    assert_eq!(t.get(&key("GET", "/")), Some(&vec![1, 8]));
    assert_eq!(t.get(&key("POST", "/")), Some(&vec![2]));
    assert_eq!(t.get(&key("PUT", "/p")), Some(&vec![3]));
    assert_eq!(t.get(&key("PATCH", "/p")), Some(&vec![4]));
    assert_eq!(t.get(&key("DELETE", "/p")), Some(&vec![5]));
    assert_eq!(t.get(&key("*", "/any")), Some(&vec![6]));
    assert_eq!(t.get(&key("*", "*")), Some(&vec![7]));
    assert_eq!(t.len(), 7);
}

#[test]
fn not_found_and_threading() {
    let mut h = HttpHandler::new();
    assert_eq!(h.not_found_handler(), DEFAULT_NOT_FOUND_HANDLER);
    assert!(!h.threading());
    h.not_found(9);
    assert_eq!(h.not_found_handler(), 9);
    h.turn_threading();
    assert!(h.threading());
    h.turn_threading().turn_threading();
    assert!(h.threading());
}

#[test]
fn route_mounts_under_base() {
    let mut main = HttpHandler::new();
    let mut sub = HttpHandler::new();
    sub.get("/".to_string(), 1);
    sub.get("x".to_string(), 2);
    sub.post("/y".to_string(), 3);
    main.route("/sub".to_string(), &sub);
    let t = main.handlers();
    assert_eq!(t.get(&key("GET", "/sub/")), Some(&vec![1]));
    assert_eq!(t.get(&key("GET", "/sub/x")), Some(&vec![2]));
    assert_eq!(t.get(&key("POST", "/sub/y")), Some(&vec![3]));
    assert_eq!(t.len(), 3);
}

#[test]
fn route_at_base_with_slash_keeps_path_as_is() {
    let mut table: HandlerType = OrderedMap::new();
    let mut sub: HandlerType = OrderedMap::new();
    pub_add_multiple_handler(&mut sub, key("GET", "/x"), vec![1]);
    pub_add_multiple_handler(&mut sub, key("GET", "y"), vec![2]);
    add_route_pub(&mut table, "/sub/".to_string(), &sub);
    assert_eq!(table.get(&key("GET", "/sub//x")), Some(&vec![1]));
    assert_eq!(table.get(&key("GET", "/sub/y")), Some(&vec![2]));
}

#[test]
fn mounting_appends_after_existing_handlers() {
    let mut table: HandlerType = OrderedMap::new();
    pub_add_multiple_handler(&mut table, key("GET", "/a/b"), vec![1]);
    let mut sub: HandlerType = OrderedMap::new();
    pub_add_multiple_handler(&mut sub, key("GET", "b"), vec![2]);
    pub_add_multiple_handler(&mut sub, key("GET", "/b"), vec![3]);
    add_route_pub(&mut table, "/a".to_string(), &sub);
    // "GET/b" sorts before "GETb", so its handlers are added first
    assert_eq!(table.get(&key("GET", "/a/b")), Some(&vec![1, 3, 2]));
}

#[test]
fn router_manager_mounts_at_root() {
    let mut r = RouterManager::new();
    r.add_global_handle(key("GET", "/new"), vec![4, 5]);
    r.add_global_handle(key("GET", "new2"), vec![6]);
    let mut table: HandlerType = OrderedMap::new();
    r.ProcessingRouter(&mut table);
    assert_eq!(table.get(&key("GET", "//new")), Some(&vec![4, 5]));
    assert_eq!(table.get(&key("GET", "/new2")), Some(&vec![6]));
}

#[test]
fn keys_are_walked_in_order() {
    let mut m: OrderedMap<String, String> = OrderedMap::new();
    m.insert("b".to_string(), "2".to_string());
    m.insert("a".to_string(), "1".to_string());
    m.insert("c".to_string(), "3".to_string());
    m.insert("a".to_string(), "4".to_string());
    assert_eq!(m.len(), 3);
    assert_eq!(m.key_at(0), "a");
    assert_eq!(m.value_at(0), "4");
    assert_eq!(m.key_at(1), "b");
    assert_eq!(m.key_at(2), "c");
    m.remove(&"b".to_string());
    assert_eq!(m.len(), 2);
    assert!(!m.contains_key(&"b".to_string()));
    assert_eq!(m.key_at(1), "c");
}

#[test]
fn string_order_is_by_code_point() {
    let mut m: OrderedMap<String, String> = OrderedMap::new();
    m.insert("é".to_string(), "x".to_string());
    m.insert("z".to_string(), "x".to_string());
    m.insert("Z".to_string(), "x".to_string());
    m.insert("".to_string(), "x".to_string());
    assert_eq!(m.key_at(0), "");
    assert_eq!(m.key_at(1), "Z");
    assert_eq!(m.key_at(2), "z");
    assert_eq!(m.key_at(3), "é");
}
