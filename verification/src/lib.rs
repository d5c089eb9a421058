//! Verified core of a command-line tool for Monzo bank accounts.

pub mod text;
pub mod currency;
pub mod accounts;
pub mod config;
pub mod error;
pub mod batch;
pub mod pots;
pub mod transactions;
pub mod parsers;
