//! Core of a disk compaction tool: the inventory of a scanned folder, the
//! rules that sort files into buckets, the cancel/pause token of a background
//! job, the coordinator that feeds files to a single worker, and the
//! persistent set of paths known not to compress.

pub mod backend;
pub mod background;
pub mod compact;
pub mod config;
pub mod folder;
pub mod gui;
pub mod hashfilter;
pub mod pipeline;
pub mod scan;
