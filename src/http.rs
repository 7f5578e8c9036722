//! HTTP/1.1 responses and requests.
pub mod scan;
pub mod response;
pub mod client;
pub mod well_formed;

pub use response::{Response, HttpError};
pub use client::{Client, Security};
