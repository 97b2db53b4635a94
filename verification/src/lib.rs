pub mod api;
pub mod bytesutil;
pub mod client;
pub mod common;
pub mod container;
pub mod stream;
pub mod error;
pub mod executor;
pub mod extract;
pub mod image;
pub mod json;
pub mod log;
