//! The decisions behind a dashboard for open Dependabot pull requests: how a batch of
//! merges is laid out, what a webhook is routed to, when a pull request is synced, what a
//! sweep prunes, and who may ask for any of it.

pub mod api;
pub mod audit;
pub mod auth;
pub mod batch;
pub mod config;
pub mod fault;
pub mod github;
pub mod handler;
pub mod headers;
pub mod ingress;
pub mod model;
pub mod progress;
pub mod projection;
pub mod pull_request;
pub mod restate;
pub mod retirement;
pub mod rounds;
pub mod scheduler;
pub mod scripted;
pub mod sweep;
pub mod text;
pub mod webhook;
