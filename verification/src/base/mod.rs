pub mod types;
pub mod attestation;
pub mod json;
pub mod validation;
pub mod schema_compat;
