//! The rules of the HTTP and gRPC API: errors and their answers, authentication, exports,
//! configuration and the job service's decisions.

pub mod error;
pub mod export;
pub mod oidc;
pub mod config;
pub mod handlers;
pub mod grpc;
