//! The privileged side: signed approvals, the encrypted transport that an
//! approved operation runs over, and the local policy.

pub mod approval;
pub mod broker;
pub mod client;
pub mod crypto;
pub mod framing;
pub mod gate;
pub mod identity;
pub mod peer;
pub mod policy;
pub mod protocol;
