//! Verified core of a webhook catcher service.
pub mod text;
pub mod dimensions;
pub mod sensitive;
pub mod base64;
pub mod redact;
pub mod reply;
pub mod settings;
pub mod exchange;
pub mod capture;
pub mod database;
