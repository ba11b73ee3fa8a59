//! Bragi library indexer: walks a snapshot of an on-disk music collection,
//! parses human-authored folder and file names into structured metadata, and
//! reconciles the result against a relational catalog of artists, albums and
//! tracks without creating duplicates or losing existing identifiers.

pub mod catalog;
pub mod dto;
pub mod fingerprint;
pub mod guard;
pub mod indexer;
pub mod naming;
