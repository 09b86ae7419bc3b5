use vstd::prelude::*;

pub mod text;
pub mod moderation;
pub mod pattern;
pub mod lettering;
pub mod validation;
pub mod config;
pub mod ml;
pub mod virus_scanner;
pub mod cache;
pub mod stats;
pub mod metrics;
pub mod monitor;
pub mod upload;
pub mod rate_limit;
pub mod health;
pub mod vision;
pub mod social;
