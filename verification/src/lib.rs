//! Verified core of a small board-tracking service.
//!
//! The service ingests blockchain transaction payloads, classifies their log
//! lines, strips a fixed prefix from the state line, stores the resulting
//! pair, and on read decodes the stored JSON payload into a [`board::Board`],
//! falling back to a fixed default when the payload does not decode.

pub mod board;
pub mod chars;
pub mod codec;
pub mod logs;
pub mod json;
pub mod jstring;
pub mod num;
pub mod service;
pub mod store;
pub mod transfer;
