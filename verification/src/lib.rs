//! Packet analysis library: protocol classification, frame decoding, flow
//! tracking, traffic statistics, alert rules, Suricata-style rules,
//! blacklists, display filters, TCP stream reassembly, EVE records, capture
//! file rotation and the decisions of the command line and dashboard, each
//! stated and proved against a contract.

pub mod protocol;
pub mod text;
pub mod net;
pub mod packet;
pub mod flow;
pub mod error;
pub mod clock;
pub mod table;
pub mod dissector;
pub mod filter;
pub mod dpi;
pub mod alert;
pub mod flow_tracker;
pub mod stats;
pub mod stream;
pub mod rules;
pub mod blacklist;
pub mod eve;
pub mod rotation;
pub mod session;
pub mod rank;
pub mod cli;
pub mod tui;
pub mod report;
