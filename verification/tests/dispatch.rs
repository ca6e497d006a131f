use rust_http_web_lib::ordered_map::OrderedMap;
use rust_http_web_lib::App::{get_key, HttpHandler};
use rust_http_web_lib::HandleConnection::{
    DispatchAction, DispatchPhase, RequestCaching, RequestProcessing,
};
use rust_http_web_lib::Request::get_http_data::{GetRequest, HeaderData};
use rust_http_web_lib::Response::getResponseTool;
use rust_http_web_lib::RouteManager::RouterManager;

fn request(method: &str, path: &str) -> HeaderData {
    GetRequest(&vec![format!("{} {} HTTP/1.1", method, path)])
}

fn run(p: &RequestProcessing, responded_after: &[bool]) -> Vec<DispatchAction> {
    let mut phase = DispatchPhase::Start;
    let mut out = Vec::new();
    let mut response = getResponseTool(&HeaderData::default(), 0);
    for r in responded_after {
        response.responded = *r;
        let (next, action) = p.dispatch(phase, &response);
        out.push(action);
        phase = next;
    }
    out
}

#[test]
fn handlers_are_looked_up_in_order() {
    let mut h = HttpHandler::new();
    h.get("/a".to_string(), 1);
    h.all(2);
    h.all_method("/a/*".to_string(), 3);
    h.get("/a/".to_string(), 4);
    h.all_method("/a".to_string(), 5);
    h.post("/a".to_string(), 6);
    let mut p = RequestProcessing::new(0, 99);
    let cache: RequestCaching = OrderedMap::new();
    p.preProcessing(h.handlers(), request("GET", "/a"), &cache);
    let actions = run(&p, &[false, false, false, false, false, false]);
    assert_eq!(
        actions,
        vec![
            DispatchAction::RunHandler(2),
            DispatchAction::RunHandler(3),
            DispatchAction::RunHandler(5),
            DispatchAction::RunHandler(1),
            DispatchAction::RunHandler(4),
            DispatchAction::RunNotFound(0),
        ]
    );
}

#[test]
fn path_ending_in_slash_uses_star_wildcard() {
    let mut h = HttpHandler::new();
    h.get("/d/*".to_string(), 1);
    h.get("/d/".to_string(), 2);
    h.get("/d//".to_string(), 3);
    let mut p = RequestProcessing::new(0, 99);
    let cache: RequestCaching = OrderedMap::new();
    p.preProcessing(h.handlers(), request("GET", "/d/"), &cache);
    assert_eq!(
        run(&p, &[false, false, false]),
        vec![DispatchAction::RunHandler(1), DispatchAction::RunHandler(2), DispatchAction::RunNotFound(0)]
    );
}

#[test]
fn stops_after_the_handler_that_responds() {
    let mut h = HttpHandler::new();
    h.all(1);
    h.get("/".to_string(), 2);
    h.get("/".to_string(), 3);
    let mut p = RequestProcessing::new(7, 9);
    let cache: RequestCaching = OrderedMap::new();
    p.preProcessing(h.handlers(), request("GET", "/"), &cache);
    assert_eq!(
        run(&p, &[false, false, true, false]),
        vec![
            DispatchAction::RunHandler(1),
            DispatchAction::RunHandler(2),
            DispatchAction::RunFinal,
            DispatchAction::Finished,
        ]
    );
}

#[test]
fn no_route_runs_not_found_then_final() {
    let h = HttpHandler::new();
    let mut p = RequestProcessing::new(7, 9);
    let cache: RequestCaching = OrderedMap::new();
    p.preProcessing(h.handlers(), request("GET", "/none"), &cache);
    assert_eq!(
        run(&p, &[false, false, false]),
        vec![DispatchAction::RunNotFound(7), DispatchAction::RunFinal, DispatchAction::Finished]
    );
    assert_eq!(p.final_function(), 9);
}

#[test]
fn cached_body_is_served_without_handlers() {
    let mut h = HttpHandler::new();
    h.get("/c".to_string(), 1);
    let mut cache: RequestCaching = OrderedMap::new();
    // a first request whose response asks for caching
    let mut response = getResponseTool(&request("GET", "/c"), 9);
    response.caching = true;
    response.send("cached body".to_string(), false);
    let mut rv = RequestProcessing::get_return_value(RouterManager::new(), response, "/c".to_string());
    let mut table = OrderedMap::new();
    rv.setData(&mut table, &mut cache);
    assert_eq!(cache.get(&"/c".to_string()), Some(&"cached body".to_string()));
    // the next request to the same path
    let mut p = RequestProcessing::new(0, 9);
    p.preProcessing(h.handlers(), request("GET", "/c"), &cache);
    assert_eq!(p.cached_body(), Some(&"cached body".to_string()));
    assert_eq!(
        run(&p, &[false, false, false]),
        vec![DispatchAction::SendCached, DispatchAction::RunFinal, DispatchAction::Finished]
    );
}

#[test]
fn no_caching_leaves_cache_alone() {
    let response = getResponseTool(&request("GET", "/c"), 9);
    let mut rv = RequestProcessing::get_return_value(RouterManager::new(), response, "/c".to_string());
    let mut cache: RequestCaching = OrderedMap::new();
    rv.ProcessingCache(&mut cache);
    assert_eq!(cache.len(), 0);
}

#[test]
fn routes_added_by_handlers_are_mounted() {
    let mut router = RouterManager::new();
    router.add_global_handle(get_key("GET".to_string(), "/late".to_string()), vec![8]);
    let response = getResponseTool(&request("GET", "/"), 9);
    let mut rv = RequestProcessing::get_return_value(router, response, "/".to_string());
    let mut table = OrderedMap::new();
    rv.ProcessingRouter(&mut table);
    assert_eq!(table.get(&get_key("GET".to_string(), "//late".to_string())), Some(&vec![8]));
}

#[test]
fn ended_response_runs_no_further_handler() {
    let mut h = HttpHandler::new();
    h.get("/".to_string(), 1);
    h.get("/".to_string(), 2);
    let mut p = RequestProcessing::new(7, 9);
    let cache: RequestCaching = OrderedMap::new();
    p.preProcessing(h.handlers(), request("GET", "/"), &cache);
    let mut response = getResponseTool(&HeaderData::default(), 9);
    let (phase, action) = p.dispatch(DispatchPhase::Start, &response);
    assert_eq!(action, DispatchAction::RunHandler(1));
    // handler 1 marks the response ended without sending it
    response.ended = true;
    let (phase, action) = p.dispatch(phase, &response);
    assert_eq!(action, DispatchAction::RunFinal);
    let (_, action) = p.dispatch(phase, &response);
    assert_eq!(action, DispatchAction::Finished);
}

#[test]
fn final_fn_registers_the_not_found_handler() {
    let mut h = HttpHandler::new();
    h.get("/".to_string(), 1);
    let mut p = RequestProcessing::new(7, 9);
    let cache: RequestCaching = OrderedMap::new();
    p.preProcessing(h.handlers(), request("GET", "/"), &cache);
    let mut response = getResponseTool(&HeaderData::default(), 9);
    let (phase, action) = p.dispatch(DispatchPhase::Start, &response);
    assert_eq!(action, DispatchAction::RunHandler(1));
    // handler 1 registers handler 4 for the not-found case
    response.finalFn(3);
    response.finalFn(4);
    assert_eq!(response.finalFunction, 4);
    let (phase, action) = p.dispatch(phase, &response);
    assert_eq!(action, DispatchAction::RunNotFound(4));
    let (_, action) = p.dispatch(phase, &response);
    assert_eq!(action, DispatchAction::RunFinal);
}
