//! The logic of `httpipe`, an HTTP server that pipes the body of one request
//! into the response of another over named channels.
pub mod channel;
pub mod decimal;
pub mod directory;
pub mod drop_guard;
pub mod exchange;
pub mod headers;
pub mod name_map;
pub mod options;
pub mod pipe;
pub mod pubsub;
pub mod rendezvous;
pub mod status;
pub mod topic;
pub mod traffic;
