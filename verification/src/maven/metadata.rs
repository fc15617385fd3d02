//! What a repository says of the versions of an artifact.
use vstd::prelude::*;
use crate::types::{ArtifactId, ArtifactVersion, GroupId};

verus! {

/// The metadata of an artifact, or of one version of it.
#[derive(Debug, PartialEq, Eq)]
pub struct ArtifactMetadata {
    pub group_id: GroupId,
    pub artifact_id: ArtifactId,
    pub versioning: ArtifactVersioning,
}

/// The versions of an artifact.
#[derive(Debug, PartialEq, Eq)]
pub struct ArtifactVersioning {
    pub versions: Option<ArtifactVersioningEntry>,
    pub snapshot: Option<ArtifactVersioningSnapshot>,
    pub last_updated: String,
}

/// The latest build of a snapshot.
#[derive(Debug, PartialEq, Eq)]
pub struct ArtifactVersioningSnapshot {
    pub timestamp: String,
    pub build_number: String,
}

/// A list of versions.
#[derive(Debug, PartialEq, Eq)]
pub struct ArtifactVersioningEntry {
    pub versions: Vec<ArtifactVersion>,
}

} // verus!
