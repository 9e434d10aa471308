//! An HTTP/1.1 server engine: request parsing, response writing, cookies,
//! route dispatch through middleware, and the decisions of the worker that
//! answers each connection.
pub mod clock;
pub mod context;
pub mod cookie;
pub mod fuzzer;
pub mod logger;
pub mod maps;
pub mod method;
pub mod middleware;
pub mod request;
pub mod response;
pub mod round_trip;
pub mod router;
pub mod socket;
pub mod text;
pub mod timer;

pub use context::{Contextable, DebuggableHandler};
pub use cookie::Cookie;
pub use fuzzer::Fuzzer;
pub use logger::{Logger, Logs};
pub use method::HttpMethod;
pub use middleware::{handle_middleware, Handler, Middleware, MiddlewareGroup};
pub use request::{Request, RequestBuffer};
pub use response::{not_found, Response};
pub use router::{Route, Router};
pub use socket::{handle_connection, read_failure, write_failure, ReadOutcome, WriteOutcome};
pub use timer::{get_time_range, log_times, Time, Timer, TimerUnit};
