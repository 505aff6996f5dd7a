//! Actor-backed worker pools: the actor step, the lifecycle of a streaming
//! pool (submit, close, drain) and the reply routing of a request/response
//! pool, each with its contract and laws.
pub mod actor;
pub mod messages;
pub mod request_reply;
pub mod streaming;
pub mod utils;
