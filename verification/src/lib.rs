//! Core library of a toolkit for inspecting, extracting and comparing
//! content-addressed archive containers that ship game assets.
//!
//! A container holds many independently compressed chunks, each addressed by a
//! 64-bit path hash.  This crate provides the verified core: the hashtable
//! that resolves path hashes to readable paths, the chunk-level diff engine
//! with rename detection, the output-path policy of the extraction engine,
//! and the listing / reporting computations.  Mounting containers,
//! decompression and all file-system work live outside this crate.

pub mod chunk;
pub mod config;
pub mod diff;
pub mod extract;
pub mod filter;
pub mod hashtable;
pub mod hex;
pub mod kind;
pub mod meta;
pub mod remapper;
pub mod report;
pub mod strutil;
