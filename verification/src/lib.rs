//! Pipeline core of the Argus news-intelligence plugin: feed parsing, content
//! hashing, relevance decisions, entity normalization, clustering rules,
//! budget arithmetic, configuration coercion and notification routing, each
//! stated as a contract and proved.

pub mod text;
pub mod model;
pub mod num;
pub mod error;
pub mod budget;
pub mod feed;
pub mod dedup;
pub mod ports;
pub mod pipeline;
pub mod json;
pub mod decimal;
pub mod decide;
pub mod entity;
pub mod analyze;
pub mod judge;
pub mod notify;
pub mod config;
pub mod embed;
pub mod cluster;
pub mod bench;
pub mod guest;
pub mod fixture;
pub mod host;
pub mod cli;
