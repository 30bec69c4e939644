//! A single-upstream reverse proxy core: token gating, outbound request
//! construction, conditional rewriting of XML bodies and response assembly.

mod bytes;
pub mod config;
pub mod gate;
pub mod proxy;
pub mod rewrite;

pub use bytes::{contains_ignore_case, eq_ignore_case};
pub use config::{Config, Log, LogStyle};
pub use gate::{TokenFuture, TokenLayer, TokenMiddleware};
