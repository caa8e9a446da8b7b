pub mod automation;
pub mod bandwidth;
pub mod error;
pub mod events;
pub mod execution;
pub mod http;
pub mod lifecycle;
pub mod metrics;
pub mod models;
pub mod native_protocol;
pub mod pipeline;
pub mod planner;
pub mod probe;
pub mod progress;
pub mod segmented;
pub mod text;
