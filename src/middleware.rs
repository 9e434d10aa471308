//! Handlers and the middleware chain that runs around them.
use vstd::prelude::*;

use crate::request::{response_opt_view, Request, RequestModel};
use crate::response::{fresh_response, Response, ResponseModel};

verus! {

/// A step run on a request before or after its handler. Returning a
/// response stops the chain there.
pub trait Middleware {
    /// What running this middleware on `req` gives: the request as it
    /// leaves, and the response that stops the chain, if any. Unless an
    /// implementation says otherwise, the request passes on unchanged.
    open spec fn outcome(&self, req: RequestModel) -> (RequestModel, Option<ResponseModel>) {
        (req, None)
    }

    fn run(&self, req: &mut Request) -> (r: Option<Response>)
        ensures
            (final(req)@, response_opt_view(r)) == self.outcome(old(req)@),
    ;
}

/// What answers the requests of a route.
pub trait Handler {
    /// The request that handling `req` hands on, and the response to it.
    /// Unless an implementation says otherwise, the request passes on
    /// unchanged and the response is a new one.
    open spec fn answer(&self, req: RequestModel) -> (RequestModel, ResponseModel) {
        (req, fresh_response())
    }

    fn handle(&self, req: Request) -> (r: (Request, Response))
        ensures
            (r.0@, r.1@) == self.answer(req@),
    ;
}

/// Middlewares run in order on `req`: the request after the last one run,
/// the response that stopped the chain (none if none did), and how many ran.
pub open spec fn chain<M: Middleware>(ms: Seq<M>, req: RequestModel) -> (
    RequestModel,
    Option<ResponseModel>,
    nat,
)
    decreases ms.len(),
{
    if ms.len() == 0 {
        (req, None, 0)
    } else {
        let (r1, stop) = ms[0].outcome(req);
        match stop {
            Some(resp) => (r1, Some(resp), 1),
            None => {
                let (r2, later, n) = chain(ms.drop_first(), r1);
                (r2, later, n + 1)
            },
        }
    }
}

/// Runs `middlewares` in order on `request`, and stops at the first that
/// returns a response. Gives the request, that response if any, and how
/// many middlewares ran.
pub fn handle_middleware<M: Middleware>(request: Request, middlewares: &Vec<M>) -> (r: (
    Request,
    Option<Response>,
    usize,
))
    ensures
        (r.0@, response_opt_view(r.1), r.2 as nat) == chain(middlewares@, request@),
{
    let mut req = request;
    let n = middlewares.len();
    let mut i: usize = 0;
    assert(middlewares@.skip(0) =~= middlewares@);
    while i < n
        invariant
            i <= n == middlewares@.len(),
            chain(middlewares@, request@) == ({
                let (r2, later, k) = chain(middlewares@.skip(i as int), req@);
                (r2, later, (k + i) as nat)
            }),
        decreases n - i,
    {
        let ghost before = req@;
        assert(middlewares@.skip(i as int)[0] == middlewares@[i as int]);
        assert(middlewares@.skip(i as int).drop_first() =~= middlewares@.skip(i + 1));
        let stop = middlewares[i].run(&mut req);
        let ghost rest = middlewares@.skip(i as int);
        i = i + 1;
        match stop {
            Some(resp) => {
                assert(rest[0].outcome(before) == (req@, Some(resp@)));
                assert(chain(rest, before) == (req@, Some(resp@), 1nat));
                return (req, Some(resp), i);
            },
            None => {
                assert(rest[0].outcome(before) == (req@, None::<ResponseModel>));
            },
        }
    }
    assert(middlewares@.skip(i as int) =~= Seq::<M>::empty());
    (req, None, i)
}

/// A list of middlewares to run before handlers and one to run after them,
/// added to routes together.
pub struct MiddlewareGroup<M> {
    pub middlewares: Vec<M>,
    pub outerwares: Vec<M>,
}

impl<M> MiddlewareGroup<M> {
    pub fn new(middlewares: Vec<M>, outerwares: Vec<M>) -> (r: MiddlewareGroup<M>)
        ensures
            r.middlewares@ == middlewares@,
            r.outerwares@ == outerwares@,
    {
        MiddlewareGroup { middlewares, outerwares }
    }
}

} // verus!
