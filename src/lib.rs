pub mod error;
pub mod number;
pub mod text;
pub mod pattern;
pub mod metrics;
pub mod nodes;
pub mod config;
pub mod dashboard;
