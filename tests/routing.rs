use std::sync::atomic::{AtomicUsize, Ordering};
use std::sync::Arc;

use zeke::request::RequestBuffer;
use zeke::{
    handle_connection, handle_middleware, Contextable, Handler, Middleware, MiddlewareGroup,
    ReadOutcome, Request, Response, Route, Router, WriteOutcome,
};

struct Trace;

impl Contextable for Trace {
    fn key(&self) -> &'static str {
        "TRACE"
    }
}

enum Step {
    Respond(u16, Arc<AtomicUsize>),
    Count(Arc<AtomicUsize>),
    SetTrace(&'static str),
    EchoTrace,
}

impl Middleware for Step {
    fn run(&self, req: &mut Request) -> Option<Response> {
        match self {
            Step::Respond(status, ran) => {
                ran.fetch_add(1, Ordering::SeqCst);
                Some(Response::new().status(*status).body("stopped"))
            }
            Step::Count(ran) => {
                ran.fetch_add(1, Ordering::SeqCst);
                None
            }
            Step::SetTrace(value) => {
                req.set_context(Trace, value.to_string());
                None
            }
            Step::EchoTrace => {
                let trace = req.get_context(Trace);
                if trace.is_empty() {
                    return Some(Response::new().status(500).body("failed to get trace"));
                }
                Some(Response::new().status(200).body(&trace))
            }
        }
    }
}

struct Hello(Arc<AtomicUsize>);

impl Handler for Hello {
    fn handle(&self, req: Request) -> (Request, Response) {
        self.0.fetch_add(1, Ordering::SeqCst);
        (req, Response::new().status(200).body("Hello, World!"))
    }
}

fn buffer(text: &str) -> RequestBuffer {
    let mut b = [0u8; 1024];
    b[..text.len()].copy_from_slice(text.as_bytes());
    b
}

fn request(text: &str) -> Request {
    let (req, resp) = Request::parse_request_bytes(buffer(text));
    assert!(resp.is_none());
    req
}

#[test]
fn registered_route_is_matched() {
    let calls = Arc::new(AtomicUsize::new(0));
    let mut router: Router<Hello, Step> = Router::new();
    router.add(Route::new("GET /", Hello(calls.clone())));
    let resp = router.handle_request(request("GET / HTTP/1.1\r\n\r\n"));
    assert_eq!(resp.status, 200);
    assert_eq!(resp.body, "Hello, World!");
    assert_eq!(calls.load(Ordering::SeqCst), 1);
    assert!(router.get("GET /").is_some());
}

#[test]
fn missing_route_is_404() {
    let calls = Arc::new(AtomicUsize::new(0));
    let mut router: Router<Hello, Step> = Router::new();
    router.add(Route::new("GET /", Hello(calls.clone())));
    let resp = router.handle_request(request("GET /missing HTTP/1.1\r\n\r\n"));
    assert_eq!(resp.status, 404);
    assert_eq!(resp.body, "route not found");
    assert_eq!(calls.load(Ordering::SeqCst), 0);
    assert!(router.get("GET /missing").is_none());
}

#[test]
fn method_is_part_of_the_route_key() {
    let calls = Arc::new(AtomicUsize::new(0));
    let mut router: Router<Hello, Step> = Router::new();
    router.add(Route::new("GET /", Hello(calls.clone())));
    let resp = router.handle_request(request("POST / HTTP/1.1\r\n\r\n"));
    assert_eq!(resp.status, 404);
}

#[test]
fn last_registration_wins() {
    let first = Arc::new(AtomicUsize::new(0));
    let second = Arc::new(AtomicUsize::new(0));
    let mut router: Router<Hello, Step> = Router::new();
    router.add(Route::new("GET /", Hello(first.clone())));
    router.add(Route::new("GET /", Hello(second.clone())));
    router.handle_request(request("GET / HTTP/1.1\r\n\r\n"));
    assert_eq!(first.load(Ordering::SeqCst), 0);
    assert_eq!(second.load(Ordering::SeqCst), 1);
}

#[test]
fn first_responding_middleware_stops_the_chain() {
    let a_ran = Arc::new(AtomicUsize::new(0));
    let b_ran = Arc::new(AtomicUsize::new(0));
    let handled = Arc::new(AtomicUsize::new(0));
    let post_ran = Arc::new(AtomicUsize::new(0));
    let mut router: Router<Hello, Step> = Router::new();
    router.add(
        Route::new("GET /", Hello(handled.clone()))
            .middleware(Step::Respond(401, a_ran.clone()))
            .middleware(Step::Count(b_ran.clone()))
            .outerware(Step::Count(post_ran.clone())),
    );
    let resp = router.handle_request(request("GET / HTTP/1.1\r\n\r\n"));
    assert_eq!(resp.status, 401);
    assert_eq!(resp.body, "stopped");
    assert_eq!(a_ran.load(Ordering::SeqCst), 1);
    assert_eq!(b_ran.load(Ordering::SeqCst), 0);
    assert_eq!(handled.load(Ordering::SeqCst), 0);
    assert_eq!(post_ran.load(Ordering::SeqCst), 0);
}

#[test]
fn chain_reports_how_many_ran() {
    let a_ran = Arc::new(AtomicUsize::new(0));
    let b_ran = Arc::new(AtomicUsize::new(0));
    let steps = vec![Step::Respond(403, a_ran.clone()), Step::Count(b_ran.clone())];
    let (_, resp, ran) = handle_middleware(request("GET / HTTP/1.1\r\n\r\n"), &steps);
    assert_eq!(resp.unwrap().status, 403);
    assert_eq!(ran, 1);
    assert_eq!(b_ran.load(Ordering::SeqCst), 0);
    let empty: Vec<Step> = vec![];
    let (_, resp, ran) = handle_middleware(request("GET / HTTP/1.1\r\n\r\n"), &empty);
    assert!(resp.is_none());
    assert_eq!(ran, 0);
}

#[test]
fn context_reaches_later_middleware() {
    let handled = Arc::new(AtomicUsize::new(0));
    let mut router: Router<Hello, Step> = Router::new();
    router.add(
        Route::new("GET /t", Hello(handled.clone()))
            .middleware(Step::SetTrace("trace-1"))
            .middleware(Step::EchoTrace),
    );
    let resp = router.handle_request(request("GET /t HTTP/1.1\r\n\r\n"));
    assert_eq!(resp.body, "trace-1");
    assert_eq!(handled.load(Ordering::SeqCst), 0);
}

#[test]
fn context_reaches_post_middleware_and_not_other_requests() {
    let handled = Arc::new(AtomicUsize::new(0));
    let mut router: Router<Hello, Step> = Router::new();
    router.add(
        Route::new("GET /t", Hello(handled.clone()))
            .group(MiddlewareGroup::new(vec![Step::SetTrace("X")], vec![Step::EchoTrace])),
    );
    router.add(Route::new("GET /u", Hello(handled.clone())).outerware(Step::EchoTrace));
    let resp = router.handle_request(request("GET /t HTTP/1.1\r\n\r\n"));
    assert_eq!(resp.status, 200);
    assert_eq!(resp.body, "X");
    assert_eq!(handled.load(Ordering::SeqCst), 1);
    let other = router.handle_request(request("GET /u HTTP/1.1\r\n\r\n"));
    assert_eq!(other.status, 500);
    assert_eq!(other.body, "failed to get trace");
}

#[test]
fn post_middleware_response_replaces_handler_response() {
    let handled = Arc::new(AtomicUsize::new(0));
    let post = Arc::new(AtomicUsize::new(0));
    let mut router: Router<Hello, Step> = Router::new();
    router.add(Route::new("GET /", Hello(handled.clone())).outerware(Step::Respond(418, post.clone())));
    let resp = router.handle_request(request("GET / HTTP/1.1\r\n\r\n"));
    assert_eq!(resp.status, 418);
    assert_eq!(handled.load(Ordering::SeqCst), 1);
}

#[test]
fn read_timeout_gives_408() {
    let router: Router<Hello, Step> = Router::new();
    let resp = handle_connection(&router, ReadOutcome::TimedOut);
    assert_eq!(resp.status, 408);
    assert_eq!(resp.body, "read timeout");
}

#[test]
fn empty_read_gives_408() {
    let router: Router<Hello, Step> = Router::new();
    let resp = handle_connection(&router, ReadOutcome::Empty);
    assert_eq!(resp.status, 408);
}

#[test]
fn failed_read_gives_500() {
    let router: Router<Hello, Step> = Router::new();
    let resp = handle_connection(&router, ReadOutcome::Failed("boom".to_string()));
    assert_eq!(resp.status, 500);
    assert_eq!(resp.body, "failed to read from socket: boom");
}

#[test]
fn connection_with_bad_request_gives_400() {
    let router: Router<Hello, Step> = Router::new();
    let resp = handle_connection(&router, ReadOutcome::Data(buffer("GE / HTTP/1.1\r\n\r\n")));
    assert_eq!(resp.status, 400);
}

#[test]
fn connection_is_routed() {
    let handled = Arc::new(AtomicUsize::new(0));
    let mut router: Router<Hello, Step> = Router::new();
    router.add(Route::new("GET /", Hello(handled.clone())));
    let resp = handle_connection(&router, ReadOutcome::Data(buffer("GET / HTTP/1.1\r\n\r\n")));
    assert_eq!(resp.body, "Hello, World!");
    let missing = handle_connection(&router, ReadOutcome::Data(buffer("GET /missing HTTP/1.1\r\n\r\n")));
    assert_eq!(missing.status, 404);
}

#[test]
fn write_failures_are_reported() {
    assert!(zeke::write_failure(&WriteOutcome::Written).is_none());
    assert_eq!(zeke::write_failure(&WriteOutcome::TimedOut).unwrap().status, 408);
    let failed = zeke::write_failure(&WriteOutcome::Failed("reset".to_string())).unwrap();
    assert_eq!(failed.status, 500);
    assert_eq!(failed.body, "failed to write to socket: reset");
    assert!(zeke::read_failure(&ReadOutcome::Data([0u8; 1024])).is_none());
}
