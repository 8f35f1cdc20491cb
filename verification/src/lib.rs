//! The library behind Lings, a manager for local sound libraries.
//!
//! - [`ucs`], [`ixml`], [`riff`] and [`metadata`]: the metadata of a sound file,
//!   from its name and from the iXML document in a wave file, and how it is written
//!   back. [`xml`] and [`text`] are what they rest on, [`markup`] models documents.
//! - [`merge_laws`], [`wave_laws`], [`chunk_laws`], [`record_laws`] and [`read_laws`]:
//!   what holds of writing and reading together.
//! - [`scan`] and [`library_scan`]: scans of a folder as state machines, which ask
//!   for one action at a time; [`scan_laws`] and [`run_laws`]: what holds of every run,
//!   and of every step.
//! - [`jobs`] and [`copies`]: copying files, changing many files at once, changing
//!   the metadata of one file; [`copy_laws`]: what copying does to a folder;
//!   [`job_laws`]: what each answer leads to.
//! - [`catalog`], [`tags`], [`paths`] and [`clock`]: the index and its rows, the tags
//!   of a file, file names and places, and time stamps; [`catalog_laws`],
//!   [`name_laws`] and [`text_laws`]: what holds of them and of texts.

pub mod catalog;
pub mod catalog_laws;
pub mod chunk_laws;
pub mod clock;
pub mod copies;
pub mod copy_laws;
pub mod ixml;
pub mod job_laws;
pub mod jobs;
pub mod library_scan;
pub mod markup;
pub mod merge_laws;
pub mod metadata;
pub mod name_laws;
pub mod paths;
pub mod read_laws;
pub mod record_laws;
pub mod riff;
pub mod run_laws;
pub mod scan;
pub mod scan_laws;
pub mod tags;
pub mod text;
pub mod text_laws;
pub mod ucs;
pub mod wave_laws;
pub mod xml;
