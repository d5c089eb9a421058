//! Cleaning and filtering statements exported by other card providers.

pub mod virgin;
