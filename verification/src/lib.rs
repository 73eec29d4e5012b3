//! Port-range parsing, the table of well-known services and the
//! bookkeeping of a TCP connect scan, with a few small teaching helpers.
pub mod services;
pub mod text;
pub mod ports;
pub mod holy_table;
pub mod comparison;
pub mod scan;
