//! Detection and layout logic of a read-only forensic evidence engine.

pub mod bytes;
pub mod hex;
pub mod sniff;
pub mod tree;
pub mod mbr;
pub mod volume;
pub mod gpt;
pub mod apm;
pub mod walk;
pub mod epoch;
pub mod path;
pub mod snapshot;
pub mod archive;
pub mod mount;
