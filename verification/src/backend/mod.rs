//! The backend: request bodies it queues for the engine, tokens and time.
pub mod db;
pub mod middleware;
pub mod routes;
