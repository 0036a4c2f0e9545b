//! Compiled packet policy: one flow key, one conntrack, one verdict.

pub mod acl;
pub mod blocks;
pub mod canon;
pub mod denylog;
pub mod firewall;
pub mod flows;
pub mod fragments;
pub mod judge;
pub mod laws;
pub mod meta;
pub mod ports;
pub mod publications;
pub mod rules;
pub mod runtime;
pub mod slots;
pub mod tracking;
pub mod verdicts;
pub mod wheel;
