//! A library for showing recent commit activity across many repositories
//! rooted under one directory: repository discovery, time-window selection,
//! per-repository history harvesting, aggregation and rendering.

pub mod aggregate;
pub mod harvest;
pub mod identity;
pub mod locator;
pub mod numfmt;
pub mod options;
pub mod present;
pub mod scan;
pub mod timewin;
