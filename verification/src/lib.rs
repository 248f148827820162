//! Core of a collaborative document editor: an append-only causal patch log
//! with snapshots, a detector for concurrent conflicting edits, idempotent
//! conflict persistence, a per-approver approval workflow, and cross-document
//! transplantation of patches, decisions and comment threads.

pub mod conflict_detector;
pub mod conflict_store;
pub mod history;
pub mod models;
pub mod outside;
pub mod patch;
pub mod patch_bundle;
pub mod profile;
pub mod text;
pub mod transplant;

pub use conflict_detector::ConflictDetector;
pub use conflict_store::ConflictStore;
pub use history::History;
pub use patch_bundle::{
    AuthorInfo, BundlePreview, DocumentSyncState, ExportResult, ImportResult, PatchBundle,
    PatchEntry, SyncState,
};
pub use profile::UserProfile;
pub use models::{Conflict, ConflictStatus, ConflictType, ResolutionInput, TextSpan};
pub use patch::{
    Comment, CommentInput, DocumentRestoreResult, OpRecord, ParentPatchStatus, Patch, PatchData,
    PatchInput, PatchReview, RestoreResult, Snapshot,
};
