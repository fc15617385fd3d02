//! The decisions of a Java build tool: what a manifest says, which artifacts a project needs,
//! where they come from, and what is run to build it.
pub mod cli;
pub mod document;
pub mod java;
pub mod laws;
pub mod manifest;
pub mod maven;
pub mod order;
pub mod paths;
pub mod project;
pub mod status;
pub mod text;
pub mod types;
