//! Accounts: who may log in, and with which permission level.
pub mod snowflake;
pub mod user;
pub mod user_error;
