//! Loading applications from a flashed image: the wire format, staging into
//! execution windows, the system-call table and the application's address
//! space.

pub mod abi;
pub mod app;
pub mod aspace;
pub mod blob;
