//! The response types of `/symbolicate/v5`.
pub mod response_json;
