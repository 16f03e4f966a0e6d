pub mod bytes;
pub mod config;
pub mod encoding;
pub mod error;
pub mod exchange;
pub mod handlers;
pub mod header;
pub mod request;
pub mod response;
pub mod router;
pub mod store;
