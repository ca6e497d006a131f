//! Processing one request: which handlers run for it, in what order, when
//! the not-found handler and the final handler run, and what is cached.
use vstd::prelude::*;

use crate::ordered_map::{OrderedMap, StrMap};
use crate::text::{concat_str, ends_with_slash, str_ends_with_slash};
use crate::App::{add_handlers, get_key, key_view, mount_routes, HandleCallback, HandlerType, KeyView, RouteMap};
use crate::bindings::json_map_keys;
use crate::Request::get_http_data::{empty_parsed, HeaderData};
use crate::Response::ResponseTool;
use crate::RouteManager::RouterManager;
use crate::util::append_vec::append_vec;

verus! {

/// Bodies of responses kept for reuse, by request path.
pub type RequestCaching = StrMap;

/// The paths whose handlers serve a request for `path`, in the order they
/// are looked up: `*`, the path's wildcard (`path*` when the path ends with
/// `/`, else `path/*`), the path itself, and, when it does not end with `/`,
/// the path followed by `/`.
pub open spec fn lookup_paths(path: Seq<char>) -> Seq<Seq<char>> {
    let wildcard = path + if ends_with_slash(path) { "*"@ } else { "/*"@ };
    let base = seq!["*"@, wildcard, path];
    if ends_with_slash(path) {
        base
    } else {
        base.push(path + "/"@)
    }
}

/// The keys looked up for a request: for each path of `lookup_paths` in
/// turn, the key for any method (`*`), then the key for the request's method.
pub open spec fn lookup_keys(method: Seq<char>, path: Seq<char>) -> Seq<KeyView> {
    Seq::new(
        2 * lookup_paths(path).len(),
        |i: int| key_view(if i % 2 == 0 { "*"@ } else { method }, lookup_paths(path)[i / 2]),
    )
}

/// The handlers stored under `keys`, key after key, in the order stored.
pub open spec fn collect_handlers(m: RouteMap, keys: Seq<KeyView>) -> Seq<usize>
    decreases keys.len(),
{
    if keys.len() == 0 {
        Seq::empty()
    } else {
        collect_handlers(m, keys.drop_last()) + if m.contains_key(keys.last()) {
            m[keys.last()]
        } else {
            Seq::empty()
        }
    }
}

/// The handlers that serve a request with `method` and `path`.
pub open spec fn handlers_for(m: RouteMap, method: Seq<char>, path: Seq<char>) -> Seq<usize> {
    collect_handlers(m, lookup_keys(method, path))
}

/// What the server does next for a request.
#[derive(Clone, Copy, Debug, PartialEq, Eq)]
pub enum DispatchAction {
    /// Send the cached body, ending the response.
    SendCached,
    /// Run this handler.
    RunHandler(HandleCallback),
    /// Run this not-found handler.
    RunNotFound(HandleCallback),
    /// Run the response's final handler.
    RunFinal,
    /// Nothing is left to do.
    Finished,
}

/// How far the processing of a request has gone.
#[derive(Clone, Copy, Debug, PartialEq, Eq)]
pub enum DispatchPhase {
    Start,
    /// The handlers before this index have run.
    Handlers(usize),
    CachedSent,
    NotFoundRan,
    Done,
}

/// The step taken in the list of handlers at index `i`: stop with the final
/// handler once the response is sent or ended (`stop`), else run the next
/// handler, else run the not-found handler.
pub open spec fn handlers_step(hs: Seq<usize>, nf: usize, i: int, stop: bool) -> (DispatchPhase, DispatchAction) {
    if stop {
        (DispatchPhase::Done, DispatchAction::RunFinal)
    } else if 0 <= i < hs.len() {
        (DispatchPhase::Handlers((i + 1) as usize), DispatchAction::RunHandler(hs[i]))
    } else {
        (DispatchPhase::NotFoundRan, DispatchAction::RunNotFound(nf))
    }
}

/// One step of processing, given whether the response has been sent or
/// ended (`stop`).
pub open spec fn dispatch_step(
    cached: bool,
    hs: Seq<usize>,
    nf: usize,
    phase: DispatchPhase,
    stop: bool,
) -> (DispatchPhase, DispatchAction) {
    match phase {
        DispatchPhase::Start => if cached {
            (DispatchPhase::CachedSent, DispatchAction::SendCached)
        } else if hs.len() == 0 {
            (DispatchPhase::NotFoundRan, DispatchAction::RunNotFound(nf))
        } else {
            handlers_step(hs, nf, 0, stop)
        },
        DispatchPhase::Handlers(i) => handlers_step(hs, nf, i as int, stop),
        DispatchPhase::CachedSent => (DispatchPhase::Done, DispatchAction::RunFinal),
        DispatchPhase::NotFoundRan => (DispatchPhase::Done, DispatchAction::RunFinal),
        DispatchPhase::Done => (DispatchPhase::Done, DispatchAction::Finished),
    }
}

/// The actions taken from `phase` when the response is seen sent or ended,
/// or neither, step after step, as `obs` says.
pub open spec fn dispatch_trace(
    cached: bool,
    hs: Seq<usize>,
    nf: usize,
    phase: DispatchPhase,
    obs: Seq<bool>,
) -> Seq<DispatchAction>
    decreases obs.len(),
{
    if obs.len() == 0 {
        Seq::empty()
    } else {
        let (next, action) = dispatch_step(cached, hs, nf, phase, obs[0]);
        seq![action] + dispatch_trace(cached, hs, nf, next, obs.drop_first())
    }
}

/// What is left once a request is processed: the routes its handlers added,
/// the body to cache if the response asked for caching, and the path.
pub struct ProcessReturnValue(RouterManager, Option<String>, String);

impl ProcessReturnValue {
    pub closed spec fn router(&self) -> RouterManager {
        self.0
    }

    pub closed spec fn cached_body(&self) -> Option<Seq<char>> {
        match self.1 {
            Some(s) => Some(s@),
            None => None,
        }
    }

    pub closed spec fn request_path(&self) -> Seq<char> {
        self.2@
    }

    /// Mounts the routes that the request's handlers added at `/` in `handler`.
    pub fn ProcessingRouter(&mut self, handler: &mut HandlerType)
        ensures
            final(handler)@ == mount_routes(old(handler)@, "/"@, old(self).router().added_pairs()),
            *final(self) == *old(self),
    {
        self.0.ProcessingRouter(handler)
    }

    /// Mounts the added routes, then stores the body to cache, if any.
    pub fn setData(&mut self, handler: &mut HandlerType, cachingData: &mut RequestCaching)
        ensures
            final(handler)@ == mount_routes(old(handler)@, "/"@, old(self).router().added_pairs()),
            final(cachingData)@ == match old(self).cached_body() {
                Some(b) => old(cachingData)@.insert(old(self).request_path(), b),
                None => old(cachingData)@,
            },
            *final(self) == *old(self),
    {
        self.ProcessingRouter(handler);
        self.ProcessingCache(cachingData);
    }

    /// Stores the body to cache, if any, under the request's path.
    pub fn ProcessingCache(&mut self, cachingData: &mut RequestCaching)
        ensures
            final(cachingData)@ == match old(self).cached_body() {
                Some(b) => old(cachingData)@.insert(old(self).request_path(), b),
                None => old(cachingData)@,
            },
            *final(self) == *old(self),
    {
        match &self.1 {
            Some(body) => {
                cachingData.insert(self.2.clone(), body.clone());
            },
            None => {},
        }
    }
}

/// The processing of one request.
pub struct RequestProcessing {
    ProcessingHandler: Vec<HandleCallback>,
    not_found_handler: HandleCallback,
    httpData: HeaderData,
    finalFunction: HandleCallback,
    cacheData: Option<String>,
}

impl RequestProcessing {
    /// The handlers that run for the request, in order.
    pub closed spec fn handlers_to_run(&self) -> Seq<usize> {
        self.ProcessingHandler@
    }

    pub closed spec fn not_found_id(&self) -> usize {
        self.not_found_handler
    }

    pub closed spec fn final_id(&self) -> usize {
        self.finalFunction
    }

    /// The request being processed.
    pub closed spec fn request(&self) -> HeaderData {
        self.httpData
    }

    /// The cached body for the request's path, if one was found.
    pub closed spec fn cached(&self) -> Option<Seq<char>> {
        match self.cacheData {
            Some(s) => Some(s@),
            None => None,
        }
    }

    /// Processing with no handlers, no request read yet and nothing cached.
    pub fn new(not_found_handler: HandleCallback, finalFunction: HandleCallback) -> (r: RequestProcessing)
        ensures
            r.handlers_to_run() == Seq::<usize>::empty(),
            r.not_found_id() == not_found_handler,
            r.final_id() == finalFunction,
            r.cached() is None,
            r.request().parsed() == empty_parsed(),
            r.request().rawData@.len() == 0,
            json_map_keys(r.request().LocalData) == Set::<Seq<char>>::empty(),
            json_map_keys(r.request().LocalLibParseData) == Set::<Seq<char>>::empty(),
    {
        RequestProcessing {
            ProcessingHandler: Vec::new(),
            not_found_handler,
            httpData: HeaderData::default(),
            finalFunction,
            cacheData: None,
        }
    }

    /// Takes the request, looks its path up in `cache`, and, when nothing is
    /// cached for it, adds the handlers that serve it.
    pub fn preProcessing(&mut self, handlers: &HandlerType, httpData: HeaderData, cache: &RequestCaching)
        ensures
            final(self).request() == httpData,
            final(self).cached() == if cache@.contains_key(httpData.path@) {
                Some(cache@[httpData.path@])
            } else {
                None::<Seq<char>>
            },
            final(self).handlers_to_run() == if cache@.contains_key(httpData.path@) {
                old(self).handlers_to_run()
            } else {
                old(self).handlers_to_run() + handlers_for(handlers@, httpData.method@, httpData.path@)
            },
            final(self).not_found_id() == old(self).not_found_id(),
            final(self).final_id() == old(self).final_id(),
    {
        self.httpData = httpData;
        self.cacheData = match cache.get(&self.httpData.path) {
            Some(a) => Some(a.clone()),
            None => None,
        };
        self.get_handler(handlers);
    }

    /// Adds, unless a cached body was found, the handlers stored under each
    /// key of `lookup_keys`, key after key.
    pub fn get_handler(&mut self, handlers: &HandlerType)
        ensures
            final(self).handlers_to_run() == if old(self).cached() is Some {
                old(self).handlers_to_run()
            } else {
                old(self).handlers_to_run() + handlers_for(handlers@, old(self).request().method@, old(self).request().path@)
            },
            final(self).request() == old(self).request(),
            final(self).cached() == old(self).cached(),
            final(self).not_found_id() == old(self).not_found_id(),
            final(self).final_id() == old(self).final_id(),
    {
        if self.cacheData.is_some() {
            return;
        }
        let path = &self.httpData.path;
        let ends = str_ends_with_slash(path.as_str());
        let wildcard = if ends {
            concat_str(path.as_str(), "*")
        } else {
            concat_str(path.as_str(), "/*")
        };
        let mut path_list: Vec<String> = Vec::new();
        path_list.push(String::from_str("*"));
        path_list.push(wildcard);
        path_list.push(path.clone());
        if !ends {
            path_list.push(concat_str(path.as_str(), "/"));
        }
        let ghost paths = lookup_paths(path@);
        assert(path_list@.len() == paths.len());
        assert(forall|p: int| 0 <= p < paths.len() ==> #[trigger] path_list@[p]@ == paths[p]);
        let ghost keys = lookup_keys(self.httpData.method@, path@);
        let ghost m = handlers@;
        let ghost start = self.ProcessingHandler@;
        let np = path_list.len();
        let mut p: usize = 0;
        while p < np
            invariant
                np == path_list@.len(),
                np == paths.len(),
                p <= np,
                forall|q: int| 0 <= q < paths.len() ==> #[trigger] path_list@[q]@ == paths[q],
                keys == lookup_keys(self.httpData.method@, paths[2]),
                keys.len() == 2 * np,
                m == handlers@,
                self.ProcessingHandler@ == start + collect_handlers(m, keys.take(2 * p)),
                self.cacheData is None,
                self.httpData == old(self).httpData,
                self.not_found_handler == old(self).not_found_handler,
                self.finalFunction == old(self).finalFunction,
                paths == lookup_paths(self.httpData.path@),
            decreases np - p,
        {
            let any = get_key(String::from_str("*"), path_list[p].clone());
            let ghost k0 = keys[2 * p];
            assert((2 * p as int) % 2 == 0 && (2 * p as int) / 2 == p as int);
            assert(any@ == k0);
            match handlers.get(&any) {
                Some(hs) => append_vec(&mut self.ProcessingHandler, hs),
                None => {},
            }
            assert(keys.take(2 * p + 1).drop_last() =~= keys.take(2 * p));
            assert(keys.take(2 * p + 1).last() == k0);
            assert(self.ProcessingHandler@ =~= start + collect_handlers(m, keys.take(2 * p + 1)));
            let this = get_key(self.httpData.method.clone(), path_list[p].clone());
            let ghost k1 = keys[2 * p + 1];
            assert((2 * p as int + 1) % 2 == 1 && (2 * p as int + 1) / 2 == p as int);
            assert(this@ == k1);
            match handlers.get(&this) {
                Some(hs) => append_vec(&mut self.ProcessingHandler, hs),
                None => {},
            }
            assert(keys.take(2 * p + 2).drop_last() =~= keys.take(2 * p + 1));
            assert(keys.take(2 * p + 2).last() == k1);
            assert(self.ProcessingHandler@ =~= start + collect_handlers(m, keys.take(2 * p + 2)));
            p = p + 1;
        }
        assert(keys.take(2 * np) =~= keys);
    }

    /// The not-found handler of this request: the one `response` registered
    /// with `finalFn`, else the server's.
    pub open spec fn not_found_for(&self, response: ResponseTool) -> usize {
        match response.notFoundFunction {
            Some(h) => h,
            None => self.not_found_id(),
        }
    }

    /// The next step of processing from `phase`, given the response so far:
    /// no further route handler runs once it is sent or marked `ended`.
    pub fn dispatch(&self, phase: DispatchPhase, response: &ResponseTool) -> (r: (DispatchPhase, DispatchAction))
        requires
            phase matches DispatchPhase::Handlers(i) ==> i <= self.handlers_to_run().len(),
        ensures
            r == dispatch_step(
                self.cached() is Some,
                self.handlers_to_run(),
                self.not_found_for(*response),
                phase,
                response.responded || response.ended,
            ),
            r.0 matches DispatchPhase::Handlers(i) ==> i <= self.handlers_to_run().len(),
    {
        let nf = match response.notFoundFunction {
            Some(h) => h,
            None => self.not_found_handler,
        };
        let stop = response.responded || response.ended;
        match phase {
            DispatchPhase::Start => {
                if self.cacheData.is_some() {
                    (DispatchPhase::CachedSent, DispatchAction::SendCached)
                } else if self.ProcessingHandler.len() == 0 {
                    (DispatchPhase::NotFoundRan, DispatchAction::RunNotFound(nf))
                } else {
                    self.handlers_step(0, nf, stop)
                }
            },
            DispatchPhase::Handlers(i) => self.handlers_step(i, nf, stop),
            DispatchPhase::CachedSent => (DispatchPhase::Done, DispatchAction::RunFinal),
            DispatchPhase::NotFoundRan => (DispatchPhase::Done, DispatchAction::RunFinal),
            DispatchPhase::Done => (DispatchPhase::Done, DispatchAction::Finished),
        }
    }

    fn handlers_step(&self, i: usize, nf: HandleCallback, stop: bool) -> (r: (DispatchPhase, DispatchAction))
        requires
            i <= self.handlers_to_run().len(),
        ensures
            r == handlers_step(self.handlers_to_run(), nf, i as int, stop),
            r.0 matches DispatchPhase::Handlers(j) ==> j <= self.handlers_to_run().len(),
    {
        if stop {
            (DispatchPhase::Done, DispatchAction::RunFinal)
        } else if i < self.ProcessingHandler.len() {
            (DispatchPhase::Handlers(i + 1), DispatchAction::RunHandler(self.ProcessingHandler[i]))
        } else {
            (DispatchPhase::NotFoundRan, DispatchAction::RunNotFound(nf))
        }
    }

    /// The cached body found for the request, if any.
    pub fn cached_body(&self) -> (r: Option<&String>)
        ensures
            match r {
                Some(s) => self.cached() == Some(s@),
                None => self.cached() is None,
            },
    {
        match &self.cacheData {
            Some(s) => Some(s),
            None => None,
        }
    }

    /// The request, for the handlers to read and change.
    pub fn http_data_mut(&mut self) -> (r: &mut HeaderData)
        ensures
            *r == old(self).request(),
            final(self).request() == *final(r),
            final(self).handlers_to_run() == old(self).handlers_to_run(),
            final(self).cached() == old(self).cached(),
            final(self).not_found_id() == old(self).not_found_id(),
            final(self).final_id() == old(self).final_id(),
    {
        &mut self.httpData
    }

    /// The request.
    pub fn http_data(&self) -> (r: &HeaderData)
        ensures
            *r == self.request(),
    {
        &self.httpData
    }

    /// The final handler given at the start.
    pub fn final_function(&self) -> (r: HandleCallback)
        ensures
            r == self.final_id(),
    {
        self.finalFunction
    }

    /// What is left once the request is processed: the routes added, the
    /// body to cache when the response asked for caching, and the path.
    pub fn get_return_value(r: RouterManager, Response: ResponseTool, path: String) -> (v: ProcessReturnValue)
        ensures
            v.router() == r,
            v.cached_body() == if Response.caching { Some(Response.content@) } else { None::<Seq<char>> },
            v.request_path() == path@,
    {
        if Response.caching {
            ProcessReturnValue(r, Some(Response.content), path)
        } else {
            ProcessReturnValue(r, None, path)
        }
    }
}

/// The actions that run the handlers `hs[i..i + len]`, in order.
pub open spec fn run_handlers(hs: Seq<usize>, i: int, len: int) -> Seq<DispatchAction> {
    Seq::new(len as nat, |k: int| DispatchAction::RunHandler(hs[i + k]))
}

proof fn lemma_trace_no_response_from(hs: Seq<usize>, nf: usize, i: int, obs: Seq<bool>)
    requires
        hs.len() <= usize::MAX,
        0 <= i <= hs.len(),
        obs.len() == hs.len() - i + 3,
        forall|k: int| 0 <= k <= hs.len() - i ==> !#[trigger] obs[k],
    ensures
        dispatch_trace(false, hs, nf, DispatchPhase::Handlers(i as usize), obs) == run_handlers(hs, i, hs.len() - i)
            + seq![DispatchAction::RunNotFound(nf), DispatchAction::RunFinal, DispatchAction::Finished],
    decreases hs.len() - i,
{
    let rest = obs.drop_first();
    if i < hs.len() {
        assert(!obs[0]);
        assert forall|k: int| 0 <= k <= hs.len() - (i + 1) implies !#[trigger] rest[k] by {
            assert(rest[k] == obs[k + 1]);
        }
        lemma_trace_no_response_from(hs, nf, i + 1, rest);
        assert(run_handlers(hs, i, hs.len() - i) =~= seq![DispatchAction::RunHandler(hs[i])] + run_handlers(hs, i + 1, hs.len() - (i + 1)));
    } else {
        assert(!obs[0]);
        let r2 = rest.drop_first();
        let r3 = r2.drop_first();
        assert(r3.len() == 0);
        assert(dispatch_trace(false, hs, nf, DispatchPhase::Done, r3) == Seq::<DispatchAction>::empty());
        assert(dispatch_trace(false, hs, nf, DispatchPhase::Done, r2) =~= seq![DispatchAction::Finished]);
        assert(dispatch_trace(false, hs, nf, DispatchPhase::NotFoundRan, rest) =~= seq![DispatchAction::RunFinal, DispatchAction::Finished]);
        assert(handlers_step(hs, nf, i, obs[0]) == (DispatchPhase::NotFoundRan, DispatchAction::RunNotFound(nf)));
        assert(run_handlers(hs, i, 0) =~= Seq::<DispatchAction>::empty());
    }
}

/// When no handler sends or ends the response, the handlers run one after
/// the other in the order stored, then the not-found handler, then the final
/// handler, and then nothing is left to do.
pub proof fn lemma_no_response_runs_all(hs: Seq<usize>, nf: usize, obs: Seq<bool>)
    requires
        hs.len() <= usize::MAX,
        obs.len() == hs.len() + 3,
        forall|k: int| 0 <= k <= hs.len() ==> !#[trigger] obs[k],
    ensures
        dispatch_trace(false, hs, nf, DispatchPhase::Start, obs) == run_handlers(hs, 0, hs.len() as int)
            + seq![DispatchAction::RunNotFound(nf), DispatchAction::RunFinal, DispatchAction::Finished],
{
    if hs.len() == 0 {
        let rest = obs.drop_first();
        let r2 = rest.drop_first();
        let r3 = r2.drop_first();
        assert(r3.len() == 0);
        assert(dispatch_trace(false, hs, nf, DispatchPhase::Done, r3) == Seq::<DispatchAction>::empty());
        assert(dispatch_trace(false, hs, nf, DispatchPhase::Done, r2) =~= seq![DispatchAction::Finished]);
        assert(dispatch_trace(false, hs, nf, DispatchPhase::NotFoundRan, rest) =~= seq![DispatchAction::RunFinal, DispatchAction::Finished]);
        assert(run_handlers(hs, 0, 0) =~= Seq::<DispatchAction>::empty());
    } else {
        lemma_trace_no_response_from(hs, nf, 0, obs);
        assert(dispatch_step(false, hs, nf, DispatchPhase::Start, obs[0]) == dispatch_step(false, hs, nf, DispatchPhase::Handlers(0), obs[0]));
    }
}

proof fn lemma_trace_response_from(hs: Seq<usize>, nf: usize, i: int, j: int, obs: Seq<bool>)
    requires
        hs.len() <= usize::MAX,
        0 <= i <= j <= hs.len(),
        obs.len() == j - i + 2,
        obs[j - i],
        forall|k: int| 0 <= k < j - i ==> !#[trigger] obs[k],
    ensures
        dispatch_trace(false, hs, nf, DispatchPhase::Handlers(i as usize), obs) == run_handlers(hs, i, j - i)
            + seq![DispatchAction::RunFinal, DispatchAction::Finished],
    decreases j - i,
{
    let rest = obs.drop_first();
    if i < j {
        assert(!obs[0]);
        assert(rest[j - (i + 1)] == obs[j - i]);
        assert forall|k: int| 0 <= k < j - (i + 1) implies !#[trigger] rest[k] by {
            assert(rest[k] == obs[k + 1]);
        }
        lemma_trace_response_from(hs, nf, i + 1, j, rest);
        assert(run_handlers(hs, i, j - i) =~= seq![DispatchAction::RunHandler(hs[i])] + run_handlers(hs, i + 1, j - (i + 1)));
    } else {
        assert(obs[0]);
        let r2 = rest.drop_first();
        assert(r2.len() == 0);
        assert(dispatch_trace(false, hs, nf, DispatchPhase::Done, r2) == Seq::<DispatchAction>::empty());
        assert(dispatch_trace(false, hs, nf, DispatchPhase::Done, rest) =~= seq![DispatchAction::Finished]);
        assert(run_handlers(hs, i, 0) =~= Seq::<DispatchAction>::empty());
    }
}

/// When the response is first seen sent or marked `ended` after the first
/// `j` handlers ran, no further handler runs and neither does the not-found
/// handler: the final handler runs, and then nothing is left.
pub proof fn lemma_first_response_stops(hs: Seq<usize>, nf: usize, j: int, obs: Seq<bool>)
    requires
        hs.len() <= usize::MAX,
        hs.len() > 0,
        0 <= j <= hs.len(),
        obs.len() == j + 2,
        obs[j],
        forall|k: int| 0 <= k < j ==> !#[trigger] obs[k],
    ensures
        dispatch_trace(false, hs, nf, DispatchPhase::Start, obs) == run_handlers(hs, 0, j)
            + seq![DispatchAction::RunFinal, DispatchAction::Finished],
{
    lemma_trace_response_from(hs, nf, 0, j, obs);
    assert(dispatch_step(false, hs, nf, DispatchPhase::Start, obs[0]) == dispatch_step(false, hs, nf, DispatchPhase::Handlers(0), obs[0]));
}

/// A request with a cached body gets that body and the final handler, and
/// no route handler and no not-found handler runs.
pub proof fn lemma_cached_runs_no_handler(hs: Seq<usize>, nf: usize, obs: Seq<bool>)
    requires
        obs.len() == 3,
    ensures
        dispatch_trace(true, hs, nf, DispatchPhase::Start, obs) == seq![
            DispatchAction::SendCached,
            DispatchAction::RunFinal,
            DispatchAction::Finished,
        ],
{
    let r1 = obs.drop_first();
    let r2 = r1.drop_first();
    let r3 = r2.drop_first();
    assert(r3.len() == 0);
    assert(dispatch_trace(true, hs, nf, DispatchPhase::Done, r3) == Seq::<DispatchAction>::empty());
    assert(dispatch_trace(true, hs, nf, DispatchPhase::Done, r2) =~= seq![DispatchAction::Finished]);
    assert(dispatch_trace(true, hs, nf, DispatchPhase::CachedSent, r1) =~= seq![DispatchAction::RunFinal, DispatchAction::Finished]);
}

proof fn lemma_collect_contains(m: RouteMap, keys: Seq<KeyView>, i: int, x: usize)
    requires
        0 <= i < keys.len(),
        m.contains_key(keys[i]),
        m[keys[i]].contains(x),
    ensures
        collect_handlers(m, keys).contains(x),
    decreases keys.len(),
{
    let last = if m.contains_key(keys.last()) { m[keys.last()] } else { Seq::<usize>::empty() };
    let front = collect_handlers(m, keys.drop_last());
    if i == keys.len() - 1 {
        let k = choose|k: int| 0 <= k < last.len() && last[k] == x;
        assert((front + last)[front.len() + k] == x);
    } else {
        assert(keys.drop_last()[i] == keys[i]);
        lemma_collect_contains(m, keys.drop_last(), i, x);
        let k = choose|k: int| 0 <= k < front.len() && front[k] == x;
        assert((front + last)[k] == x);
    }
}

proof fn lemma_collect_prefix(m: RouteMap, keys: Seq<KeyView>, k: int)
    requires
        0 <= k <= keys.len(),
    ensures
        collect_handlers(m, keys.take(k)).len() <= collect_handlers(m, keys).len(),
        collect_handlers(m, keys).take(collect_handlers(m, keys.take(k)).len() as int) == collect_handlers(m, keys.take(k)),
    decreases keys.len(),
{
    if k == keys.len() {
        assert(keys.take(k) =~= keys);
        assert(collect_handlers(m, keys).take(collect_handlers(m, keys).len() as int) =~= collect_handlers(m, keys));
    } else {
        lemma_collect_prefix(m, keys.drop_last(), k);
        assert(keys.drop_last().take(k) =~= keys.take(k));
        let front = collect_handlers(m, keys.drop_last());
        let last = if m.contains_key(keys.last()) { m[keys.last()] } else { Seq::<usize>::empty() };
        let pre = collect_handlers(m, keys.take(k));
        assert((front + last).take(pre.len() as int) =~= front.take(pre.len() as int));
    }
}

/// A handler registered for a method and a path runs for every request
/// with that method and that path.
pub proof fn lemma_registered_handler_serves(m: RouteMap, method: Seq<char>, path: Seq<char>, h: usize)
    ensures
        handlers_for(add_handlers(m, key_view(method, path), seq![h]), method, path).contains(h),
{
    let m2 = add_handlers(m, key_view(method, path), seq![h]);
    let keys = lookup_keys(method, path);
    assert(lookup_paths(path)[2] == path);
    assert(keys[5] == key_view(method, path));
    let stored = m2[key_view(method, path)];
    assert(stored[stored.len() - 1] == h);
    lemma_collect_contains(m2, keys, 5, h);
}

/// A handler registered with `all` (method `*`, path `*`) runs for every
/// request, whatever its method and path, and the handlers so registered run
/// before any other, in the order registered.
pub proof fn lemma_global_handlers_first(m: RouteMap, method: Seq<char>, path: Seq<char>)
    requires
        m.contains_key(key_view("*"@, "*"@)),
    ensures
        handlers_for(m, method, path).len() >= m[key_view("*"@, "*"@)].len(),
        handlers_for(m, method, path).take(m[key_view("*"@, "*"@)].len() as int) == m[key_view("*"@, "*"@)],
{
    let keys = lookup_keys(method, path);
    assert(keys[0] == key_view("*"@, "*"@));
    lemma_collect_prefix(m, keys, 1);
    let first = keys.take(1);
    assert(first.drop_last() =~= Seq::<KeyView>::empty());
    assert(collect_handlers(m, first.drop_last()) == Seq::<usize>::empty());
    assert(first.last() == key_view("*"@, "*"@));
    assert(collect_handlers(m, first) =~= m[key_view("*"@, "*"@)]);
}

/// Every key a request is served from is looked up: a handler registered
/// under the method `*` or the request's method, for the path `*`, the
/// request's path followed by `*` (after a final `/`) or `/*`, the path
/// itself, or, for a path without a final `/`, the path followed by `/`,
/// runs for that request.
pub proof fn lemma_every_lookup_key_serves(
    m: RouteMap,
    method: Seq<char>,
    path: Seq<char>,
    x: Seq<char>,
    q: Seq<char>,
    h: usize,
)
    requires
        x == "*"@ || x == method,
        q == "*"@ || q == path + (if ends_with_slash(path) { "*"@ } else { "/*"@ }) || q == path
            || (!ends_with_slash(path) && q == path + "/"@),
    ensures
        handlers_for(add_handlers(m, key_view(x, q), seq![h]), method, path).contains(h),
{
    let m2 = add_handlers(m, key_view(x, q), seq![h]);
    let keys = lookup_keys(method, path);
    let paths = lookup_paths(path);
    let pi: int = if q == "*"@ {
        0
    } else if q == path + (if ends_with_slash(path) { "*"@ } else { "/*"@ }) {
        1
    } else if q == path {
        2
    } else {
        3
    };
    assert(paths[pi] == q);
    let i: int = if x == "*"@ { 2 * pi } else { 2 * pi + 1 };
    assert(i % 2 == 0 <==> x == "*"@);
    assert(i / 2 == pi);
    assert(keys[i] == key_view(x, q));
    let stored = m2[key_view(x, q)];
    assert(stored[stored.len() - 1] == h);
    lemma_collect_contains(m2, keys, i, h);
}

} // verus!
