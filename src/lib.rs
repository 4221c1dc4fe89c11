//! Test discovery and result correlation for projects built by an external
//! test tool: enumeration output parsing, identity resolution, report parsing
//! and correlation of outcomes back onto the discovered test tree.

pub mod text;
pub mod error;
pub mod model;
pub mod order;
pub mod resolve;
pub mod report;
pub mod correlate;
pub mod cache;
pub mod enumerate;
pub mod items;
pub mod pr;
pub mod config;
pub mod session;
pub mod csharp;
pub mod navigation;
pub mod banner;
pub mod cli;
