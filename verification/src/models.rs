//! Data model for detected conflicts between concurrent edits.

use vstd::prelude::*;

verus! {

/// How two concurrent edits clash.
#[derive(Debug, Clone, Copy, PartialEq, Eq, Structural)]
pub enum ConflictType {
    /// Both edited the same region.
    OverlappingEdit,
    /// One deleted text the other modified.
    DeleteModify,
    /// Both inserted at the same position.
    ConcurrentInsert,
    /// Structural conflict (e.g. both wrapped the region in different block types).
    StructuralConflict,
}

/// Resolution state of a stored conflict.
#[derive(Debug, Clone, Copy, PartialEq, Eq, Structural)]
pub enum ConflictStatus {
    Unresolved,
    /// Kept the local version.
    ResolvedLocal,
    /// Kept the remote version.
    ResolvedRemote,
    /// Manual merge.
    ResolvedMerged,
    /// Kept both versions.
    ResolvedBoth,
}

/// A span of text: a half-open character range `[start, end)` together with
/// the content, author and timestamp of the edit that produced it.
#[derive(Debug)]
pub struct TextSpan {
    pub start: usize,
    pub end: usize,
    pub content: String,
    pub author: String,
    pub timestamp: i64,
}

/// Mathematical image of a [`TextSpan`].
pub ghost struct TextSpanView {
    pub start: int,
    pub end: int,
    pub content: Seq<char>,
    pub author: Seq<char>,
    pub timestamp: int,
}

impl View for TextSpan {
    type V = TextSpanView;

    open spec fn view(&self) -> TextSpanView {
        TextSpanView {
            start: self.start as int,
            end: self.end as int,
            content: self.content@,
            author: self.author@,
            timestamp: self.timestamp as int,
        }
    }
}

impl DeepView for TextSpan {
    type V = TextSpanView;

    open spec fn deep_view(&self) -> TextSpanView {
        self.view()
    }
}

impl Clone for TextSpan {
    fn clone(&self) -> (r: Self)
        ensures
            r == *self,
    {
        TextSpan {
            start: self.start,
            end: self.end,
            content: self.content.clone(),
            author: self.author.clone(),
            timestamp: self.timestamp,
        }
    }
}

/// A detected pair of concurrent, overlapping edits from different authors.
#[derive(Debug)]
pub struct Conflict {
    pub id: String,
    pub conflict_type: ConflictType,
    /// Common ancestor region (content is not reconstructed).
    pub base_version: TextSpan,
    /// Our changes.
    pub local_version: TextSpan,
    /// Their changes.
    pub remote_version: TextSpan,
    pub status: ConflictStatus,
    pub detected_at: i64,
}

/// Mathematical image of a [`Conflict`].
pub ghost struct ConflictView {
    pub id: Seq<char>,
    pub conflict_type: ConflictType,
    pub base_version: TextSpanView,
    pub local_version: TextSpanView,
    pub remote_version: TextSpanView,
    pub status: ConflictStatus,
    pub detected_at: int,
}

impl View for Conflict {
    type V = ConflictView;

    open spec fn view(&self) -> ConflictView {
        ConflictView {
            id: self.id@,
            conflict_type: self.conflict_type,
            base_version: self.base_version@,
            local_version: self.local_version@,
            remote_version: self.remote_version@,
            status: self.status,
            detected_at: self.detected_at as int,
        }
    }
}

impl DeepView for Conflict {
    type V = ConflictView;

    open spec fn deep_view(&self) -> ConflictView {
        self.view()
    }
}

impl Clone for Conflict {
    fn clone(&self) -> (r: Self)
        ensures
            r == *self,
    {
        Conflict {
            id: self.id.clone(),
            conflict_type: self.conflict_type,
            base_version: self.base_version.clone(),
            local_version: self.local_version.clone(),
            remote_version: self.remote_version.clone(),
            status: self.status,
            detected_at: self.detected_at,
        }
    }
}

/// Input for resolving a stored conflict.
#[derive(Debug)]
pub struct ResolutionInput {
    pub conflict_id: String,
    pub resolution: ConflictStatus,
    /// Merged text, for a manual merge.
    pub merged_content: Option<String>,
}

} // verus!
