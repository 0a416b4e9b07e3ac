//! Verified core of the LSI agent manager: log triage, trace-level config
//! editing, source-site resolution, lsof parsing, dashboard request parsing
//! and the diagnostic report renderer.

pub mod boot;
pub mod cli;
pub mod clock;
pub mod collect;
pub mod console;
pub mod daemon;
pub mod db;
pub mod errors;
pub mod headers;
pub mod log_pane;
pub mod log_view;
pub mod network;
pub mod num;
pub mod paths;
pub mod process_tree;
pub mod report;
pub mod resolve;
pub mod routes;
pub mod service;
pub mod table_query;
pub mod tabs;
pub mod text;
pub mod trace;
pub mod triage;
pub mod ui;
pub mod units;
pub mod web;
