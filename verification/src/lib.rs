//! Lisa OS core logic: the guided-generation grammar compiler, intent
//! routing, scope and consent policy, provider registry, and the other
//! decisions the daemons make, each with its contract.

pub mod text;
pub mod json;
pub mod grammar;
pub mod tasks;
pub mod intent;
pub mod ledger;
pub mod acl;
pub mod config;
pub mod engine;
pub mod scheduler;
pub mod pool;
pub mod api;
pub mod llama;
pub mod remote;
pub mod catalog;
pub mod consent;
pub mod providers;
pub mod oauth;
pub mod proxy;
pub mod broker;
pub mod forge_tools;
pub mod agent;
pub mod cli;
pub mod voice;
pub mod manifest;
pub mod journal;
pub mod app_registry;
pub mod protocol;
pub mod bus;
pub mod store;
pub mod embed;
pub mod notes;
