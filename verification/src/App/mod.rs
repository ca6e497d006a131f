//! Route tables: keys made of a method and a path, each naming the list of
//! handlers that run, in registration order, for matching requests.
use vstd::prelude::*;

use crate::ordered_map::{keys_sorted, MapKey, OrderedMap};
use crate::text::{
    compare_str, concat_str, ends_with_slash, lemma_seq_lt_irreflexive, lemma_seq_lt_total,
    lemma_seq_lt_transitive, seq_lt, starts_with_slash, str_ends_with_slash,
    str_starts_with_slash, KeyOrder,
};
use crate::util::append_vec::append_vec;
use crate::Request::get_http_data::HeaderData;
use crate::Response::ResponseTool;
use crate::RouteManager::RouterManager;

verus! {

/// A handler, named by its index in the table of callbacks that the server keeps.
pub type HandleCallback = usize;

/// The index of the handler that answers requests that no route matches,
/// `default_not_found_handler`, until `not_found` names another.
pub const DEFAULT_NOT_FOUND_HANDLER: usize = 0;

/// The body of the default not-found page.
pub open spec fn not_found_page() -> Seq<char> {
    "<h1>404 Page Not Found</h1>"@
}

/// The default not-found handler: sets status 404 and ends the response with
/// the not-found page; returns the bytes to send.
pub fn default_not_found_handler(
    _req: &mut HeaderData,
    response: &mut ResponseTool,
    _router: &mut RouterManager,
) -> (bytes: Vec<u8>)
    requires
        !old(response).responded,
    ensures
        *final(response) == (ResponseTool {
            status: 404,
            content: final(response).content,
            responded: true,
            ..*old(response)
        }),
        final(response).content@ == not_found_page(),
        bytes@ == final(response).response_bytes(),
        *final(_req) == *old(_req),
        *final(_router) == *old(_router),
{
    let not_found_contents = "<h1>404 Page Not Found</h1>";
    response.status(404);
    proof {
        reveal_strlit("<h1>404 Page Not Found</h1>");
        assert(crate::status::reason_phrase(404) is Some);
    }
    match response.send(String::from_str(not_found_contents), true) {
        Some(bytes) => bytes,
        None => Vec::new(),
    }
}

/// The view of a route key: the method followed by the path, the method, the path.
pub type KeyView = (Seq<char>, Seq<char>, Seq<char>);

/// What a route table stands for: each key's handlers, in the order they run.
pub type RouteMap = Map<KeyView, Seq<usize>>;

/// A route table.
pub type HandlerType = OrderedMap<HandlerBTreeMapKeyString, Vec<HandleCallback>>;

/// The key of a route: `data` is `method` followed by `path`.
#[derive(Ord, PartialOrd, PartialEq, Eq, Debug)]
pub struct HandlerBTreeMapKeyString {
    pub data: String,
    pub method: String,
    pub path: String,
}

impl View for HandlerBTreeMapKeyString {
    type V = KeyView;

    open spec fn view(&self) -> KeyView {
        (self.data@, self.method@, self.path@)
    }
}

/// The order that the derived `Ord` gives: by `data`, then `method`, then `path`.
pub open spec fn key_view_lt(a: KeyView, b: KeyView) -> bool {
    ||| seq_lt(a.0, b.0)
    ||| (a.0 == b.0 && seq_lt(a.1, b.1))
    ||| (a.0 == b.0 && a.1 == b.1 && seq_lt(a.2, b.2))
}

impl Clone for HandlerBTreeMapKeyString {
    fn clone(&self) -> (r: Self)
        ensures
            r@ == self@,
    {
        HandlerBTreeMapKeyString {
            data: self.data.clone(),
            method: self.method.clone(),
            path: self.path.clone(),
        }
    }
}

impl MapKey for HandlerBTreeMapKeyString {
    open spec fn key_lt(a: KeyView, b: KeyView) -> bool {
        key_view_lt(a, b)
    }

    proof fn lemma_key_irreflexive(a: KeyView) {
        lemma_seq_lt_irreflexive(a.0);
        lemma_seq_lt_irreflexive(a.1);
        lemma_seq_lt_irreflexive(a.2);
    }

    proof fn lemma_key_transitive(a: KeyView, b: KeyView, c: KeyView) {
        if seq_lt(a.0, b.0) && seq_lt(b.0, c.0) {
            lemma_seq_lt_transitive(a.0, b.0, c.0);
        }
        if a.0 == b.0 && b.0 == c.0 && seq_lt(a.1, b.1) && seq_lt(b.1, c.1) {
            lemma_seq_lt_transitive(a.1, b.1, c.1);
        }
        if a.0 == b.0 && b.0 == c.0 && a.1 == b.1 && b.1 == c.1 && seq_lt(a.2, b.2) && seq_lt(b.2, c.2) {
            lemma_seq_lt_transitive(a.2, b.2, c.2);
        }
    }

    proof fn lemma_key_total(a: KeyView, b: KeyView) {
        if a.0 != b.0 {
            lemma_seq_lt_total(a.0, b.0);
        } else if a.1 != b.1 {
            lemma_seq_lt_total(a.1, b.1);
        } else if a.2 != b.2 {
            lemma_seq_lt_total(a.2, b.2);
        } else {
            assert(a == b);
        }
    }

    fn compare_key(&self, other: &Self) -> (r: KeyOrder) {
        proof {
            lemma_seq_lt_irreflexive(self.data@);
            lemma_seq_lt_irreflexive(self.method@);
            lemma_seq_lt_irreflexive(self.path@);
        }
        match compare_str(self.data.as_str(), other.data.as_str()) {
            KeyOrder::Equal => {},
            c => {
                return c;
            },
        }
        match compare_str(self.method.as_str(), other.method.as_str()) {
            KeyOrder::Equal => {},
            c => {
                return c;
            },
        }
        compare_str(self.path.as_str(), other.path.as_str())
    }

    fn copy_key(&self) -> (r: Self) {
        self.clone()
    }
}

/// The view of the key for `method` and `path`.
pub open spec fn key_view(method: Seq<char>, path: Seq<char>) -> KeyView {
    (method + path, method, path)
}

/// The key for `method` and `path`.
pub fn get_key(method: String, path: String) -> (key: HandlerBTreeMapKeyString)
    ensures
        key@ == key_view(method@, path@),
{
    let data = concat_str(method.as_str(), path.as_str());
    HandlerBTreeMapKeyString { data, method, path }
}

/// `m` with the handlers `hs` added after those already under `k`.
pub open spec fn add_handlers(m: RouteMap, k: KeyView, hs: Seq<usize>) -> RouteMap {
    m.insert(k, if m.contains_key(k) { m[k] + hs } else { hs })
}

/// Adds `handler`, in order, after the handlers already stored under `key`.
pub fn pub_add_multiple_handler(
    handlers: &mut HandlerType,
    key: HandlerBTreeMapKeyString,
    handler: Vec<HandleCallback>,
)
    ensures
        final(handlers)@ == add_handlers(old(handlers)@, key@, handler@),
{
    let mut merged: Vec<HandleCallback> = Vec::new();
    match handlers.get(&key) {
        Some(existing) => {
            append_vec(&mut merged, existing);
            append_vec(&mut merged, &handler);
        },
        None => {
            append_vec(&mut merged, &handler);
        },
    }
    handlers.insert(key, merged);
}

/// The path at which a route's `path` lands when the route is mounted at `base`.
pub open spec fn joined_path(base: Seq<char>, path: Seq<char>) -> Seq<char> {
    base + if ends_with_slash(base) {
        path
    } else if starts_with_slash(path) {
        path
    } else {
        seq!['/'] + path
    }
}

/// `m` after the routes `entries` have been mounted at `base`, one after the other.
pub open spec fn mount_routes(m: RouteMap, base: Seq<char>, entries: Seq<(KeyView, Seq<usize>)>) -> RouteMap
    decreases entries.len(),
{
    if entries.len() == 0 {
        m
    } else {
        let last = entries.last();
        add_handlers(
            mount_routes(m, base, entries.drop_last()),
            key_view(last.0.1, joined_path(base, last.0.2)),
            last.1,
        )
    }
}

/// Mounting routes at `base` keeps every route already there, with its
/// handlers, and makes the handlers of each mounted route run for its method
/// at the joined path.
pub proof fn lemma_mount_reaches(m: RouteMap, base: Seq<char>, entries: Seq<(KeyView, Seq<usize>)>, i: int, x: usize)
    requires
        0 <= i < entries.len(),
        entries[i].1.contains(x),
    ensures
        mount_routes(m, base, entries).contains_key(key_view(entries[i].0.1, joined_path(base, entries[i].0.2))),
        mount_routes(m, base, entries)[key_view(entries[i].0.1, joined_path(base, entries[i].0.2))].contains(x),
    decreases entries.len(),
{
    let k = key_view(entries[i].0.1, joined_path(base, entries[i].0.2));
    let prev = mount_routes(m, base, entries.drop_last());
    let last = entries.last();
    let lk = key_view(last.0.1, joined_path(base, last.0.2));
    if i == entries.len() - 1 {
        let j = choose|j: int| 0 <= j < last.1.len() && last.1[j] == x;
        if prev.contains_key(lk) {
            assert((prev[lk] + last.1)[prev[lk].len() + j] == x);
        }
    } else {
        assert(entries.drop_last()[i] == entries[i]);
        lemma_mount_reaches(m, base, entries.drop_last(), i, x);
        if k == lk {
            let j = choose|j: int| 0 <= j < prev[k].len() && prev[k][j] == x;
            assert((prev[k] + last.1)[j] == x);
        }
    }
}

/// A route mounted at `base` lands under `base`: its path is `base`, then a
/// `/` exactly when neither `base` ends with one nor the route's path starts
/// with one, then the route's path, whole.
pub proof fn lemma_joined_path_under_base(base: Seq<char>, path: Seq<char>)
    ensures
        joined_path(base, path).len() >= base.len() + path.len(),
        joined_path(base, path).take(base.len() as int) == base,
        joined_path(base, path).skip(joined_path(base, path).len() - path.len()) == path,
        joined_path(base, path).len() == base.len() + path.len() + if (base.len() > 0 && base[base.len() - 1] == '/') || (path.len() > 0 && path[0] == '/') {
            0int
        } else {
            1int
        },
        joined_path(base, path).len() > base.len() + path.len() ==> joined_path(base, path)[base.len() as int] == '/',
{
    let j = joined_path(base, path);
    assert(j.take(base.len() as int) =~= base);
    assert(j.skip(j.len() - path.len()) =~= path);
}

/// Every route that mounting adds lies under `base`: a key in the result
/// that was not in `m` has a path that starts with `base`.
pub proof fn lemma_mount_under_base(m: RouteMap, base: Seq<char>, entries: Seq<(KeyView, Seq<usize>)>, k: KeyView)
    requires
        mount_routes(m, base, entries).contains_key(k),
        !m.contains_key(k),
    ensures
        k.2.len() >= base.len(),
        k.2.take(base.len() as int) == base,
        k.0 == k.1 + k.2,
    decreases entries.len(),
{
    let prev = mount_routes(m, base, entries.drop_last());
    let last = entries.last();
    let lk = key_view(last.0.1, joined_path(base, last.0.2));
    if k == lk {
        lemma_joined_path_under_base(base, last.0.2);
    } else {
        lemma_mount_under_base(m, base, entries.drop_last(), k);
    }
}

/// Mounting routes never drops a route that was there, nor its handlers.
pub proof fn lemma_mount_keeps(m: RouteMap, base: Seq<char>, entries: Seq<(KeyView, Seq<usize>)>, k: KeyView)
    requires
        m.contains_key(k),
    ensures
        mount_routes(m, base, entries).contains_key(k),
        mount_routes(m, base, entries)[k].len() >= m[k].len(),
        mount_routes(m, base, entries)[k].take(m[k].len() as int) == m[k],
    decreases entries.len(),
{
    if entries.len() > 0 {
        lemma_mount_keeps(m, base, entries.drop_last(), k);
        let prev = mount_routes(m, base, entries.drop_last());
        let last = entries.last();
        let lk = key_view(last.0.1, joined_path(base, last.0.2));
        if k == lk {
            assert((prev[k] + last.1).take(m[k].len() as int) =~= prev[k].take(m[k].len() as int));
        }
    } else {
        assert(m[k].take(m[k].len() as int) =~= m[k]);
    }
}

fn join_path(base: &String, path: &String) -> (r: String)
    ensures
        r@ == joined_path(base@, path@),
{
    if str_ends_with_slash(base.as_str()) || str_starts_with_slash(path.as_str()) {
        concat_str(base.as_str(), path.as_str())
    } else {
        let slash = concat_str("/", path.as_str());
        proof { reveal_strlit("/"); }
        assert(slash@ =~= seq!['/'] + path@);
        concat_str(base.as_str(), slash.as_str())
    }
}

/// Mounts every route of `route` at `path`: in increasing key order, the
/// handlers of each route are added under the same method and the joined path.
pub fn add_route_pub(hander: &mut HandlerType, path: String, route: &HandlerType)
    ensures
        final(hander)@ == mount_routes(old(hander)@, path@, route.pairs()),
        keys_sorted::<HandlerBTreeMapKeyString, Seq<usize>>(route.pairs()),
{
    let n = route.len();
    let mut i: usize = 0;
    while i < n
        invariant
            n == route.pairs().len(),
            i <= n,
            hander@ == mount_routes(old(hander)@, path@, route.pairs().take(i as int)),
        decreases n - i,
    {
        let k = route.key_at(i);
        let hs = route.value_at(i);
        let new_path = join_path(&path, &k.path);
        let key = get_key(k.method.clone(), new_path);
        let mut copied: Vec<HandleCallback> = Vec::new();
        append_vec(&mut copied, hs);
        pub_add_multiple_handler(hander, key, copied);
        assert(route.pairs().take(i + 1).drop_last() =~= route.pairs().take(i as int));
        i = i + 1;
    }
    assert(route.pairs().take(n as int) =~= route.pairs());
}

/// A copy of a route table, with the same routes in the same order.
pub fn copy_table(t: &HandlerType) -> (r: HandlerType)
    ensures
        r@ == t@,
        r.pairs() == t.pairs(),
{
    let mut r: HandlerType = OrderedMap::new();
    let n = t.len();
    let mut i: usize = 0;
    while i < n
        invariant
            n == t.pairs().len(),
            i <= n,
            r.pairs() == t.pairs().take(i as int),
        decreases n - i,
    {
        let mut hs: Vec<HandleCallback> = Vec::new();
        append_vec(&mut hs, t.value_at(i));
        assert(hs@ =~= t.pairs()[i as int].1);
        r.push_greatest(t.key_at(i).clone(), hs);
        assert(t.pairs().take(i + 1) =~= t.pairs().take(i as int).push(t.pairs()[i as int]));
        i = i + 1;
    }
    assert(t.pairs().take(n as int) =~= t.pairs());
    r
}

/// The main handler: a route table, the not-found handler, and whether
/// requests are processed on a thread of their own.
pub struct HttpHandler {
    handler: HandlerType,
    not_found_handler: HandleCallback,
    threading: bool,
}

impl Clone for HttpHandler {
    fn clone(&self) -> (r: Self)
        ensures
            r.routes() == self.routes(),
            r.route_pairs() == self.route_pairs(),
            r.not_found_id() == self.not_found_id(),
            r.threading_on() == self.threading_on(),
    {
        HttpHandler {
            handler: copy_table(&self.handler),
            not_found_handler: self.not_found_handler,
            threading: self.threading,
        }
    }
}

impl HttpHandler {
    /// The routes registered so far.
    pub closed spec fn routes(&self) -> RouteMap {
        self.handler@
    }

    /// The routes in increasing key order, as `route` mounts them.
    pub closed spec fn route_pairs(&self) -> Seq<(KeyView, Seq<usize>)> {
        self.handler.pairs()
    }

    /// The handler that answers requests that no route matches.
    pub closed spec fn not_found_id(&self) -> usize {
        self.not_found_handler
    }

    /// Whether threading is on.
    pub closed spec fn threading_on(&self) -> bool {
        self.threading
    }

    /// A handler with no routes, the default not-found handler, and threading off.
    pub fn new() -> (h: HttpHandler)
        ensures
            h.routes() == RouteMap::empty(),
            h.not_found_id() == DEFAULT_NOT_FOUND_HANDLER,
            !h.threading_on(),
    {
        HttpHandler {
            handler: OrderedMap::new(),
            not_found_handler: DEFAULT_NOT_FOUND_HANDLER,
            threading: false,
        }
    }

    /// Turns threading on if it was off, and off if it was on.
    pub fn turn_threading(&mut self) -> (r: &mut Self)
        ensures
            r.threading_on() == !old(self).threading_on(),
            r.routes() == old(self).routes(),
            r.not_found_id() == old(self).not_found_id(),
            *final(self) == *final(r),
    {
        self.threading = !self.threading;
        self
    }

    fn add_handle(&mut self, key: HandlerBTreeMapKeyString, handler: HandleCallback)
        ensures
            final(self).routes() == add_handlers(old(self).routes(), key@, seq![handler]),
            final(self).not_found_id() == old(self).not_found_id(),
            final(self).threading_on() == old(self).threading_on(),
    {
        let mut hs: Vec<HandleCallback> = Vec::new();
        hs.push(handler);
        assert(hs@ =~= seq![handler]);
        self.add_multiple_handler(key, hs)
    }

    fn add_multiple_handler(&mut self, key: HandlerBTreeMapKeyString, handler: Vec<HandleCallback>)
        ensures
            final(self).routes() == add_handlers(old(self).routes(), key@, handler@),
            final(self).not_found_id() == old(self).not_found_id(),
            final(self).threading_on() == old(self).threading_on(),
    {
        pub_add_multiple_handler(&mut self.handler, key, handler);
    }

    fn register_handler(&mut self, method: String, path: String, handler: HandleCallback)
        ensures
            final(self).routes() == add_handlers(old(self).routes(), key_view(method@, path@), seq![handler]),
            final(self).not_found_id() == old(self).not_found_id(),
            final(self).threading_on() == old(self).threading_on(),
    {
        let key = get_key(method, path);
        self.add_handle(key, handler);
    }

    /// Registers `handler` for `POST` requests to `path`.
    pub fn post(&mut self, path: String, handler: HandleCallback)
        ensures
            final(self).routes() == add_handlers(old(self).routes(), key_view("POST"@, path@), seq![handler]),
            final(self).not_found_id() == old(self).not_found_id(),
            final(self).threading_on() == old(self).threading_on(),
    {
        self.register_handler(String::from_str("POST"), path, handler)
    }

    /// Registers `handler` for `GET` requests to `path`.
    pub fn get(&mut self, path: String, handler: HandleCallback)
        ensures
            final(self).routes() == add_handlers(old(self).routes(), key_view("GET"@, path@), seq![handler]),
            final(self).not_found_id() == old(self).not_found_id(),
            final(self).threading_on() == old(self).threading_on(),
    {
        self.register_handler(String::from_str("GET"), path, handler)
    }

    /// Registers `handler` for `PUT` requests to `path`.
    pub fn put(&mut self, path: String, handler: HandleCallback)
        ensures
            final(self).routes() == add_handlers(old(self).routes(), key_view("PUT"@, path@), seq![handler]),
            final(self).not_found_id() == old(self).not_found_id(),
            final(self).threading_on() == old(self).threading_on(),
    {
        self.register_handler(String::from_str("PUT"), path, handler)
    }

    /// Registers `handler` for `PATCH` requests to `path`.
    pub fn patch(&mut self, path: String, handler: HandleCallback)
        ensures
            final(self).routes() == add_handlers(old(self).routes(), key_view("PATCH"@, path@), seq![handler]),
            final(self).not_found_id() == old(self).not_found_id(),
            final(self).threading_on() == old(self).threading_on(),
    {
        self.register_handler(String::from_str("PATCH"), path, handler)
    }

    /// Registers `handler` for `DELETE` requests to `path`.
    pub fn delete(&mut self, path: String, handler: HandleCallback)
        ensures
            final(self).routes() == add_handlers(old(self).routes(), key_view("DELETE"@, path@), seq![handler]),
            final(self).not_found_id() == old(self).not_found_id(),
            final(self).threading_on() == old(self).threading_on(),
    {
        self.register_handler(String::from_str("DELETE"), path, handler)
    }

    /// Registers `handler` for requests to `path` with any method.
    pub fn all_method(&mut self, path: String, handler: HandleCallback)
        ensures
            final(self).routes() == add_handlers(old(self).routes(), key_view("*"@, path@), seq![handler]),
            final(self).not_found_id() == old(self).not_found_id(),
            final(self).threading_on() == old(self).threading_on(),
    {
        self.register_handler(String::from_str("*"), path, handler)
    }

    /// Makes `handler` the one that answers requests that no route matches.
    pub fn not_found(&mut self, handler: HandleCallback)
        ensures
            final(self).not_found_id() == handler,
            final(self).routes() == old(self).routes(),
            final(self).threading_on() == old(self).threading_on(),
    {
        self.not_found_handler = handler;
    }

    /// Registers `handler` for every request, whatever its method and path.
    pub fn all(&mut self, handler: HandleCallback)
        ensures
            final(self).routes() == add_handlers(old(self).routes(), key_view("*"@, "*"@), seq![handler]),
            final(self).not_found_id() == old(self).not_found_id(),
            final(self).threading_on() == old(self).threading_on(),
    {
        self.register_handler(String::from_str("*"), String::from_str("*"), handler)
    }

    /// The route table.
    pub fn handlers(&self) -> (r: &HandlerType)
        ensures
            r@ == self.routes(),
            r.pairs() == self.route_pairs(),
            keys_sorted::<HandlerBTreeMapKeyString, Seq<usize>>(r.pairs()),
    {
        let _ = self.handler.len();
        &self.handler
    }

    /// The route table, for routes added while requests are processed.
    pub fn handlers_mut(&mut self) -> (r: &mut HandlerType)
        ensures
            r@ == old(self).routes(),
            r.pairs() == old(self).route_pairs(),
            final(self).routes() == final(r)@,
            final(self).route_pairs() == final(r).pairs(),
            final(self).not_found_id() == old(self).not_found_id(),
            final(self).threading_on() == old(self).threading_on(),
    {
        &mut self.handler
    }

    /// The handler for requests that no route matches.
    pub fn not_found_handler(&self) -> (r: HandleCallback)
        ensures
            r == self.not_found_id(),
    {
        self.not_found_handler
    }

    /// Whether requests are processed on a thread of their own.
    pub fn threading(&self) -> (r: bool)
        ensures
            r == self.threading_on(),
    {
        self.threading
    }

    /// Mounts every route of `route` at `path`, as `add_route_pub`.
    pub fn route(&mut self, path: String, route: &Self)
        ensures
            final(self).routes() == mount_routes(old(self).routes(), path@, route.route_pairs()),
            final(self).not_found_id() == old(self).not_found_id(),
            final(self).threading_on() == old(self).threading_on(),
            keys_sorted::<HandlerBTreeMapKeyString, Seq<usize>>(route.route_pairs()),
    {
        add_route_pub(&mut self.handler, path, &route.handler)
    }
}

} // verus!
