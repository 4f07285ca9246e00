//! Finds duplicate files by content.
//!
//! Files are first grouped by size; only files that share their size with
//! another file are hashed, and files of one size that also share their
//! content digest form a duplicate group.
//!
//! The library holds the rules of the scan, the digest, the classification
//! of sensitive paths, the strategies that choose which copy to keep, and
//! the bookkeeping of a session in which the user decides what to delete.
//! Walking directories, reading and deleting files are left to the caller,
//! who hands the library what was found on disk.

pub mod classify;
pub mod digest;
pub mod fold;
pub mod grouping;
pub mod model;
pub mod scan;
pub mod select;
pub mod session;
pub mod text;
pub mod tree;
