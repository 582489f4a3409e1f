//! Default-deny outbound firewall allow-listing: the rules to create, the
//! order to create them in, and the policy switch that ends a run.

pub mod rule;
pub mod servers;
pub mod plan;
pub mod command;
pub mod engine;
