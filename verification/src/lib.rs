//! Adapter runtime core: a flow registry matcher, a data-type rule validator
//! over a structured value tree, a request/reply dispatcher, and the adapter
//! lifecycle state machine.

pub mod strutil;
pub mod value;
pub mod path;
pub mod violation;
pub mod flow;
pub mod regexp;
pub mod validator;
pub mod codec;
pub mod matcher;
pub mod dispatcher;
pub mod lifecycle;
pub mod http;
pub mod route;
pub mod cron;
pub mod config;
pub mod types;
