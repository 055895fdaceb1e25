//! Floral Notepaper: the verified core of a local-first Markdown notebook.

pub mod outside;
pub mod text;
pub mod db;
pub mod error;
pub mod paths;
pub mod sort;
pub mod names;
pub mod time;
pub mod reminders;
pub mod notes;
pub mod library;
pub mod storage;
pub mod cli;
pub mod attachments;
pub mod backups;
pub mod history;
pub mod reconcile;
pub mod loading;
pub mod config;
pub mod images;
pub mod categories;
pub mod fingerprint;
