//! A small multi-threaded HTTP/1.1 server library: request parsing, response
//! framing, a worker-pool queue and the per-connection dispatch decisions.

pub mod application;
pub mod bytes;
pub mod config;
pub mod http;
pub mod request;
pub mod response;
pub mod thread_pool;

pub use crate::application::Application;
pub use crate::config::Config;
pub use crate::http::{run, HttpApplication};
pub use crate::request::{Method, ParseError, Request};
pub use crate::response::{Response, StatusCode};
