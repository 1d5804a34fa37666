//! Decision logic of a gesture-triggered emergency backup tool: recognising the
//! mouse gestures that start and confirm a backup, reading the configuration,
//! choosing the removable disk and the files to copy, and naming the backup.

pub mod text;
pub mod gesture;
pub mod naming;
pub mod files;
pub mod disks;
pub mod config;
