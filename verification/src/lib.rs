//! A single-file, log-structured key-value store with a typed value model,
//! a length-prefixed wire protocol and the rules of the sessions that share
//! a store.  The rules of the library are verified.  A few calls into the
//! standard library and into the `regex` and `base64` crates are taken on
//! trust, each where it is made.  What touches files, sockets, clocks and
//! threads lives with the callers.
pub mod client;
pub mod cmd;
pub mod error;
pub mod repl;
pub mod request;
pub mod server;
pub mod store;
pub mod text;
pub mod user;
