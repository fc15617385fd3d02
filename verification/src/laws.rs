//! What holds of the library as a whole: laws that relate what goes in to what comes out.
pub mod building;
pub mod commands;
pub mod fetching;
pub mod loading;
pub mod locking;
pub mod manifests;
pub mod names;
pub mod planning;
pub mod poms;
pub mod templates;
pub mod texts;
pub mod trees;
pub mod ways;
