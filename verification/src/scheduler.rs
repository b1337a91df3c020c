//! Task scheduling: which ready task runs next.

pub mod fifo;
