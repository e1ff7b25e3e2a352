//! Attendance ledger: decoding of uploaded CSV text, tolerant row validation,
//! an enrollment / presence-override store, and the presence matrix built from it.
pub mod text;
pub mod decode;
pub mod store;
pub mod query;
pub mod matrix;
pub mod import;
pub mod export;
pub mod laws;
