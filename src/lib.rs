//! A content-addressed media catalog: fingerprinting, duplicate detection,
//! canonical-representative selection, export planning and optimization
//! bookkeeping, with every decision stated as a contract and proved.

pub mod record;
pub mod catalog;
pub mod text;
pub mod export;
pub mod optimize;
pub mod timestamp;
pub mod ingest;
pub mod hasher;
pub mod csv;
pub mod config;
