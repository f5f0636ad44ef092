//! Clustered edge node: an authoritative DNS zone materializer, a health
//! engine that mutates the live configuration, and least-in-flight backend
//! selection for the load balancer.

pub mod config;
pub mod dns_name;
pub mod health_check;
pub mod lb;
pub mod listener;
pub mod net;
pub mod record_type;
pub mod serve;
