//! Verified core of the CTXone hub: the pure logic behind memory recall,
//! session segmentation and starters, plan and project bookkeeping, request
//! identity, and the hub's housekeeping decisions.

pub mod text;
pub mod memory;
pub mod links;
pub mod segments;
pub mod starter;
pub mod project;
pub mod recall;
pub mod pinned;
pub mod plans;
pub mod identity;
pub mod backup;
pub mod lockfile;
pub mod hub;
pub mod taint;
pub mod reminders;
pub mod requests;
pub mod migrations;
pub mod rate_limit;
pub mod asd;
pub mod asd_pool;
pub mod help;
pub mod lens;
pub mod sessions;
