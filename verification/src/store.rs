//! The storage engine: value model, record layout and the log itself.
pub mod bytes;
pub mod kv;
pub mod kv_error;
pub mod log;
pub mod record;
pub mod value;
