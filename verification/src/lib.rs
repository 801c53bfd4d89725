//! A repository of localization phrases: a base dictionary in one source
//! language, and one dictionary for each target language.
//!
//! The library works on values in memory. A `Repository` holds the files of
//! a dictionary directory; the operations read it and say what it holds
//! afterwards. Reading and writing the files, and talking to a translation
//! provider, is left to the caller.
//!
//! Translation runs are all or nothing: if a single translation of a run
//! fails, the run fails and no dictionary is written.
//!
//! One writer at a time is assumed. An operation says what a repository
//! holds after it, given what it held before; a caller that reads the
//! directory, calls the operation and writes the directory back has to keep
//! other writers away in between, in its own process and in others.
use vstd::prelude::*;

pub mod build_system;
pub mod config;
pub mod errors;
pub mod file_system;
pub mod json;
pub mod naming;
pub mod orchestrator;
pub mod parser;
pub mod patterns;
pub mod repository;
pub mod scanner;
pub mod static_translate;
pub mod text;
pub mod types;
pub mod web_api;
