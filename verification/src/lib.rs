//! Verified validation of closed one-minute historical bar sources against the original,
//! bounded request intent, together with the request bookkeeping that retires, rejects and
//! completes such requests.

pub mod data_responses;
pub mod engine;
pub mod error;
pub mod history;
mod idset;
pub mod messages;
pub mod model;
pub mod outputs;
pub mod pipeline;
pub mod plan;
pub mod response;
pub mod source;
pub mod time;
