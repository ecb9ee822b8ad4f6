//! A line-oriented primality service: each request line holds a JSON object
//! with a `method` string and a `number`, and each reply line tells whether
//! that number is prime.

pub mod connection;
pub mod json;
pub mod laws;
pub mod primality;
pub mod request;

pub use connection::Connection;
pub use request::{handle_request, DecodeError};
