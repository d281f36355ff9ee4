//! Verified core of "Dog, The Bug Hunter": the decisions, parsers and message
//! builders of a distributed vulnerability scanner, separated from the network,
//! DNS, database and actor plumbing that surrounds them.
pub mod cli;
pub mod enumerator;
pub mod gateway;
pub mod http;
pub mod model;
pub mod orchestrator;
pub mod scanner;
pub mod surreal;
pub mod text;
pub mod time;
