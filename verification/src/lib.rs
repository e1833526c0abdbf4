use vstd::prelude::*;

pub mod access;
pub mod auth;
pub mod authz;
pub mod authz_http;
pub mod boot;
pub mod codegen;
pub mod config;
pub mod container;
pub mod discovery;
pub mod routes;
pub mod scope;
pub mod worker;
pub mod graph;
pub mod graphql;
pub mod health;
pub mod http;
pub mod lifecycle;
pub mod module;
pub mod schema_cli;

verus! {

/// The key under which a provider, a module or a piece of metadata is stored.
pub type TypeKey = u64;

} // verus!
