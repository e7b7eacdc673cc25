//! The load tester: the request bodies it sends and the enumerations it reads.
pub mod state;
