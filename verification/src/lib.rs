//! Copying the settings of one game character or account over others.
//!
//! A settings directory holds one opaque file per character and per
//! account. This library classifies the files of such a directory by
//! their names, decides what a sync, a snapshot and a restore do and in
//! which order, and reports on the outcome. It reads and writes no file
//! itself: the caller lists directories and carries out the steps.

pub mod backups;
pub mod discovery;
pub mod esi;
pub mod numerals;
pub mod paths;
pub mod policy;
pub mod process;
pub mod restore;
pub mod selection;
pub mod settings;
pub mod sorting;
pub mod text;
