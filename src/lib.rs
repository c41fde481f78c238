//! Exactly-once newsletter publishing: an idempotency ledger, a durable
//! delivery queue, the publish command that ties them together in one atomic
//! step, and the decisions of the delivery worker that drains the queue.
//! Around that core: subscriber addresses, password rules and checks, the
//! login page's signed error message, and HTTP Basic credentials.
pub mod confirm;
pub mod delivery;
pub mod email;
pub mod idempotency;
pub mod laws;
pub mod lifecycle;
pub mod login;
pub mod newsroom;
pub mod password;
pub mod publish_api;
pub mod response;
pub mod text;
