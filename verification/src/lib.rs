//! Aggregation of order-book depth from several exchanges into one
//! merged top-N summary per side.

pub mod book;
pub mod book_queue;
pub mod configuration;
pub mod decimal;
pub mod error;
pub mod event;
pub mod exchange;
pub mod json;
pub mod ranked;
pub mod runtime;
pub mod summary;
pub mod telemetry;
pub mod text;
pub mod transport;
