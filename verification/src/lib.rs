//! Finds the packages that ship the header files a C or C++ source tree refers to.
//!
//! The library holds the rules of a run: lexical path canonicalisation,
//! the choice of source files, the extraction and filtering of header names, and
//! the resolution engine that turns header names into resolver queries and
//! resolver answers into newly found packages.

pub mod text;
pub mod paths;
pub mod matcher;
pub mod headers;
pub mod discovery;
pub mod engine;
pub mod run;
pub mod settings;
pub mod cli;
