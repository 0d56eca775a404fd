//! An access-controlling HTTP proxy for the Docker Engine API: what it decides and computes, from
//! its settings and the head of a request to the answer.
pub mod addresses;
pub mod audit;
pub mod auth;
pub mod conditions;
pub mod config;
pub mod environment;
pub mod expansion;
pub mod forwarding;
pub mod headers;
pub mod json;
pub mod limits;
pub mod loading;
pub mod logging;
pub mod metrics;
pub mod paths;
pub mod pattern;
pub mod proxy;
pub mod rules;
pub mod setup;
pub mod startup;
pub mod table;
pub mod text;
pub mod tls;
pub mod upgrade;
pub mod yaml;
