//! A small encrypted-DNS forwarder: the decisions it takes, as verified code.

pub mod aging;
pub mod answer_laws;
pub mod cache;
pub mod canonical;
pub mod cli;
pub mod cli_laws;
pub mod config;
pub mod config_laws;
pub mod decision_laws;
pub mod ip;
pub mod ip_laws;
pub mod launchd;
pub mod logger;
pub mod logger_laws;
pub mod message_laws;
pub mod osdns;
pub mod osdns_laws;
pub mod outline;
pub mod proxy;
pub mod quick;
pub mod refusal_laws;
pub mod scutil;
pub mod service;
pub mod service_laws;
pub mod takeover;
pub mod takeover_laws;
pub mod text;
pub mod text_laws;
pub mod upstream;
pub mod wire;
pub mod wire_laws;
