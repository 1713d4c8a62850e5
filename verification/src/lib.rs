//! Catalog rules of a self-hosted music library manager: naming album
//! directories, reading them back, matching them against catalog metadata,
//! and the bookkeeping of imports and downloads.
pub mod text;
pub mod filesystem;
pub mod release_date;
pub mod scan;
pub mod sort;
pub mod reconciliation;
pub mod matching;
pub mod workflow;
pub mod jellyfin;
pub mod import_run;
pub mod import_dto;
pub mod clock;
pub mod downloads;
pub mod antra;
pub mod discovery;
pub mod tidal;
pub mod monitoring;
pub mod artwork;
pub mod musicbrainz;
pub mod mb_dto;
pub mod scan_dto;
pub mod config;
pub mod album_admin;
pub mod scanner;
pub mod repository;
