pub mod casing;
pub mod error;
pub mod laws;
pub mod layout;
pub mod module;
pub mod syntax;
pub mod types;
pub mod validation;
