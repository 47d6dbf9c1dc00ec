//! Verified core of a small web application's authentication subsystem:
//! signed, time-boxed claims carried in cookies, password hashing, and the
//! decision logic of registration, login and password reset.

pub mod account;
pub mod authorization;
pub mod b64;
pub mod config;
pub mod cookie;
pub mod errors;
pub mod hashing;
pub mod password_reset;
pub mod payload;
pub mod sign;
pub mod text;
pub mod token;
pub mod validate;
pub mod views;
