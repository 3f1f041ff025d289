//! Upgrade of a chain deployment's per-node configuration: transcoding of
//! the node records, inference of each node's own network endpoint from its
//! peers' declarations, and issuance of the mutual-TLS credentials.
pub mod binding;
pub mod cert;
pub mod current;
pub mod legacy;
pub mod migrate;
pub mod topology;
pub mod laws;
