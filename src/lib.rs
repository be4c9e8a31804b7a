//! Telemetry synthesis for a simulated IoT sensor: the value-expression
//! language, the argument table, the message template, the per-tick value
//! injection, the publish interval and the control-plane replies.

pub mod builders;
pub mod control;
pub mod expression;
pub mod inject;
pub mod interval;
pub mod message;
pub mod publisher;
pub mod table;
pub mod text;
