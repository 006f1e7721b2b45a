//! Folder-size reporting: decimal and human-readable rendering of byte
//! counts, the per-entry bookkeeping of a directory scan, and the texts
//! shown for a finished scan.

pub mod decimal;
pub mod format;
pub mod scan;
pub mod report;
pub mod launch;
