//! The `/symbolicate` API of the symbol library: the response types of its v5
//! and v6 forms, and the v6 pipeline from request to response.
pub mod v5;
pub mod v6;
