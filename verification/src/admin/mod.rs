//! The admin interface.

pub mod accept;
pub mod claims;
pub mod error;
pub mod methods;
