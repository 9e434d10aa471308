//! Routes and the table that dispatches requests to them.
use vstd::prelude::*;

use crate::middleware::{chain, handle_middleware, Handler, Middleware, MiddlewareGroup};
use crate::request::{Request, RequestModel};
use crate::response::{status_response, Response, ResponseModel};

verus! {

/// A route: its key `"{METHOD} {path}"`, its handler, and the middlewares
/// run before (`middlewares`) and after (`outerwares`) the handler.
pub struct Route<H, M> {
    pub path: String,
    pub handler: H,
    pub middlewares: Vec<M>,
    pub outerwares: Vec<M>,
}

impl<H, M> Route<H, M> {
    pub fn new(path: &str, handler: H) -> (r: Route<H, M>)
        ensures
            r.path@ == path@,
            r.handler == handler,
            r.middlewares@.len() == 0,
            r.outerwares@.len() == 0,
    {
        Route { path: String::from_str(path), handler, middlewares: Vec::new(), outerwares: Vec::new() }
    }

    /// Adds a middleware to run before the handler, after those already
    /// added.
    pub fn middleware(self, middleware: M) -> (r: Self)
        ensures
            r.middlewares@ == self.middlewares@.push(middleware),
            r.path == self.path,
            r.handler == self.handler,
            r.outerwares == self.outerwares,
    {
        let mut r = self;
        r.middlewares.push(middleware);
        r
    }

    /// Adds a middleware to run after the handler, after those already
    /// added.
    pub fn outerware(self, outerware: M) -> (r: Self)
        ensures
            r.outerwares@ == self.outerwares@.push(outerware),
            r.path == self.path,
            r.handler == self.handler,
            r.middlewares == self.middlewares,
    {
        let mut r = self;
        r.outerwares.push(outerware);
        r
    }

    /// Adds the middlewares and outerwares of a group after those already
    /// added.
    pub fn group(self, middleware_group: MiddlewareGroup<M>) -> (r: Self)
        ensures
            r.middlewares@ == self.middlewares@ + middleware_group.middlewares@,
            r.outerwares@ == self.outerwares@ + middleware_group.outerwares@,
            r.path == self.path,
            r.handler == self.handler,
    {
        let mut r = self;
        let mut g = middleware_group;
        r.middlewares.append(&mut g.middlewares);
        r.outerwares.append(&mut g.outerwares);
        r
    }
}

/// No two routes share a key.
pub open spec fn keys_unique<H, M>(t: Seq<Route<H, M>>) -> bool {
    forall|i: int, j: int| 0 <= i < j < t.len() ==> (#[trigger] t[i]).path@ != (#[trigger] t[j]).path@
}

/// The route under `key`, if one is registered.
pub open spec fn route_for<H, M>(t: Seq<Route<H, M>>, key: Seq<char>) -> Option<Route<H, M>> {
    if exists|i: int| 0 <= i < t.len() && (#[trigger] t[i]).path@ == key {
        Some(t[choose|i: int| 0 <= i < t.len() && (#[trigger] t[i]).path@ == key])
    } else {
        None
    }
}

/// The table after registering `route`: it takes the place of a route under
/// the same key, else it is added at the end.
pub open spec fn registered<H, M>(t: Seq<Route<H, M>>, route: Route<H, M>) -> Seq<Route<H, M>> {
    if exists|i: int| 0 <= i < t.len() && (#[trigger] t[i]).path@ == route.path@ {
        t.update(choose|i: int| 0 <= i < t.len() && (#[trigger] t[i]).path@ == route.path@, route)
    } else {
        t.push(route)
    }
}

/// How a route answers `req`: the pre-middlewares run first, and a response
/// from one of them is the answer. Otherwise the handler answers, and the
/// post-middlewares run on the request it hands on; a response from one of
/// them replaces the handler's.
pub open spec fn dispatch<H: Handler, M: Middleware>(route: Route<H, M>, req: RequestModel) -> ResponseModel {
    let (r1, pre, _) = chain(route.middlewares@, req);
    match pre {
        Some(x) => x,
        None => {
            let (r2, resp) = route.handler.answer(r1);
            let (_, post, _) = chain(route.outerwares@, r2);
            match post {
                Some(y) => y,
                None => resp,
            }
        },
    }
}

/// The response to a request that no route is registered for.
pub open spec fn missing_route() -> ResponseModel {
    status_response(404, "route not found"@)
}

/// The response of a table to `req`: found by the exact route key.
pub open spec fn serve<H: Handler, M: Middleware>(t: Seq<Route<H, M>>, req: RequestModel) -> ResponseModel {
    match route_for(t, req.method_and_path) {
        Some(route) => dispatch(route, req),
        None => missing_route(),
    }
}

/// The route table; each key is registered at most once.
pub struct Router<H, M> {
    routes: Vec<Route<H, M>>,
}

impl<H, M> Router<H, M> {
    #[verifier::type_invariant]
    spec fn inv(&self) -> bool {
        keys_unique(self.routes@)
    }

    /// The registered routes.
    pub closed spec fn table(&self) -> Seq<Route<H, M>> {
        self.routes@
    }

    pub fn new() -> (r: Router<H, M>)
        ensures
            r.table().len() == 0,
    {
        Router { routes: Vec::new() }
    }

    /// Registers a route; the last registration under a key wins. Gives
    /// the router back for chaining.
    pub fn add(&mut self, route: Route<H, M>) -> (r: &mut Router<H, M>)
        ensures
            r.table() == registered(old(self).table(), route),
            *final(self) == *final(r),
    {
        proof {
            use_type_invariant(&*self);
        }
        let mut emptied = Router { routes: Vec::new() };
        core::mem::swap(self, &mut emptied);
        proof {
            use_type_invariant(&emptied);
        }
        let Router { routes } = emptied;
        let mut routes = routes;
        let mut i: usize = 0;
        let n = routes.len();
        while i < n
            invariant
                i <= n == routes@.len(),
                routes@ == old(self).table(),
                keys_unique(routes@),
                forall|k: int| 0 <= k < i ==> (#[trigger] routes@[k]).path@ != route.path@,
            decreases n - i,
        {
            if routes[i].path == route.path {
                let ghost t = routes@;
                proof {
                    assert forall|k: int| 0 <= k < t.len() && (#[trigger] t[k]).path@ == route.path@
                        implies k == i by {}
                }
                routes.set(i, route);
                proof {
                    assert(keys_unique(routes@));
                }
                *self = Router { routes };
                return self;
            }
            i = i + 1;
        }
        routes.push(route);
        *self = Router { routes };
        self
    }

    /// The route registered under `key`, if any.
    pub fn get(&self, key: &str) -> (r: Option<&Route<H, M>>)
        ensures
            r matches Some(x) ==> route_for(self.table(), key@) == Some(*x),
            r is None <==> route_for(self.table(), key@) is None,
    {
        proof {
            use_type_invariant(self);
        }
        let wanted = String::from_str(key);
        let mut i: usize = 0;
        let n = self.routes.len();
        while i < n
            invariant
                i <= n == self.routes@.len(),
                keys_unique(self.routes@),
                wanted@ == key@,
                forall|k: int| 0 <= k < i ==> (#[trigger] self.routes@[k]).path@ != key@,
            decreases n - i,
        {
            if self.routes[i].path == wanted {
                let ghost t = self.routes@;
                proof {
                    assert forall|k: int| 0 <= k < t.len() && (#[trigger] t[k]).path@ == key@
                        implies k == i by {}
                }
                return Some(&self.routes[i]);
            }
            i = i + 1;
        }
        None
    }
}

impl<H: Handler, M: Middleware> Router<H, M> {
    /// Answers a request: finds its route by the exact route key and runs
    /// the route; a key with no route gets a 404.
    pub fn handle_request(&self, request: Request) -> (r: Response)
        ensures
            r@ == serve(self.table(), request@),
    {
        let route = match self.get(request.method_and_path.as_str()) {
            None => {
                return Response::new().status(404).body("route not found");
            },
            Some(route) => route,
        };
        let (req, pre, _) = handle_middleware(request, &route.middlewares);
        match pre {
            Some(x) => x,
            None => {
                let (req2, resp) = route.handler.handle(req);
                let (_, post, _) = handle_middleware(req2, &route.outerwares);
                match post {
                    Some(y) => y,
                    None => resp,
                }
            },
        }
    }
}

/// A route that has just been registered is the one found under its key.
pub proof fn lemma_registered_found<H, M>(t: Seq<Route<H, M>>, route: Route<H, M>)
    requires
        keys_unique(t),
    ensures
        keys_unique(registered(t, route)),
        route_for(registered(t, route), route.path@) == Some(route),
{
    let t2 = registered(t, route);
    if exists|i: int| 0 <= i < t.len() && (#[trigger] t[i]).path@ == route.path@ {
        let i = choose|i: int| 0 <= i < t.len() && (#[trigger] t[i]).path@ == route.path@;
        assert(t2[i].path@ == route.path@);
        assert forall|a: int, b: int| 0 <= a < b < t2.len() implies (#[trigger] t2[a]).path@
            != (#[trigger] t2[b]).path@ by {
            if a != i && b != i {
                assert(t2[a] == t[a] && t2[b] == t[b]);
            } else if a == i {
                assert(t2[b] == t[b]);
            } else {
                assert(t2[a] == t[a]);
            }
        }
        let j = choose|j: int| 0 <= j < t2.len() && (#[trigger] t2[j]).path@ == route.path@;
        assert(j == i);
    } else {
        assert(t2[t.len() as int].path@ == route.path@);
        assert forall|a: int, b: int| 0 <= a < b < t2.len() implies (#[trigger] t2[a]).path@
            != (#[trigger] t2[b]).path@ by {
            if b == t.len() {
                assert(t2[a] == t[a]);
            } else {
                assert(t2[a] == t[a] && t2[b] == t[b]);
            }
        }
        let j = choose|j: int| 0 <= j < t2.len() && (#[trigger] t2[j]).path@ == route.path@;
        if j < t.len() {
            assert(t2[j] == t[j]);
        }
    }
}

/// A request whose route key no route is registered under gets a 404.
pub proof fn lemma_missing_route<H: Handler, M: Middleware>(t: Seq<Route<H, M>>, req: RequestModel)
    requires
        forall|i: int| 0 <= i < t.len() ==> (#[trigger] t[i]).path@ != req.method_and_path,
    ensures
        serve(t, req) == missing_route(),
        serve(t, req).status == 404,
{
}

/// When the first pre-middleware returns a response, no other middleware
/// and not the handler runs: that response is the answer.
pub proof fn lemma_short_circuit<H: Handler, M: Middleware>(route: Route<H, M>, req: RequestModel)
    requires
        route.middlewares@.len() > 0,
        route.middlewares@[0].outcome(req).1 is Some,
    ensures
        chain(route.middlewares@, req).2 == 1,
        dispatch(route, req) == route.middlewares@[0].outcome(req).1->Some_0,
{
}

/// What a pre-middleware leaves in the request (its context included) is
/// what the next one is handed, and what the handler is handed when it is
/// the last.
pub proof fn lemma_context_passes_on<M: Middleware>(ms: Seq<M>, req: RequestModel)
    requires
        ms.len() > 0,
        ms[0].outcome(req).1 is None,
    ensures
        chain(ms, req) == ({
            let (r2, stop, n) = chain(ms.drop_first(), ms[0].outcome(req).0);
            (r2, stop, n + 1)
        }),
        ms.len() == 1 ==> chain(ms, req).0 == ms[0].outcome(req).0,
{
    if ms.len() == 1 {
        assert(ms.drop_first().len() == 0);
    }
}

/// Post-middlewares run on the request that the handler hands on, so what
/// the pre-middlewares left in its context reaches them unless the handler
/// changes it.
pub proof fn lemma_post_sees_handled<H: Handler, M: Middleware>(route: Route<H, M>, req: RequestModel)
    requires
        chain(route.middlewares@, req).1 is None,
        route.outerwares@.len() > 0,
    ensures
        ({
            let handed = route.handler.answer(chain(route.middlewares@, req).0).0;
            let (r1, stop) = route.outerwares@[0].outcome(handed);
            dispatch(route, req) == match stop {
                Some(x) => x,
                None => match chain(route.outerwares@.drop_first(), r1).1 {
                    Some(y) => y,
                    None => route.handler.answer(chain(route.middlewares@, req).0).1,
                },
            }
        }),
{
}

} // verus!
