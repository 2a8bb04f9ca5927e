//! Verified core of a household inventory service: validation of elements and
//! their identifiers, sessions and cookies, label printing requests, the
//! decisions behind the element, tree and mapping endpoints, and the steps of
//! creating, changing and removing an element.
pub mod error;
pub mod text;
pub mod models;
pub mod printing;
pub mod validation;
pub mod auth;
pub mod crypto;
pub mod routes;
pub mod workflow;
pub mod cli;
