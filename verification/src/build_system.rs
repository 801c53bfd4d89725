//! The export of the translated dictionaries to the layouts that the
//! consumers of the dictionaries read.
pub mod i18next_integration;
