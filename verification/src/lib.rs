//! A small file-exchange library: the verified core of an HTTP upload and
//! asset-serving service.
//!
//! Uploads arrive as a multipart body, one field at a time, each field as a
//! sequence of byte chunks; the library decides, chunk by chunk, what the
//! handler must do, and models the stored files so that the end-to-end
//! behaviour (what ends up on disk, what the response says) is proved.

pub mod addr;
pub mod asset;
pub mod errors;
pub mod filename;
pub mod paths;
pub mod store;
pub mod upload;
