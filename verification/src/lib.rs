pub mod backend;
pub mod cs;
pub mod error;
pub mod field;
pub mod laws;
pub mod oracle;
