//! Patches, snapshots, decisions and comments: the records of one document's history.

use vstd::prelude::*;

verus! {

/// One element of a semantic-group payload: an edit operation as recorded,
/// before validation. Fields that the record did not carry (or carried with
/// the wrong shape) are `None`; validation decides which combinations form a
/// usable edit operation.
#[derive(Debug)]
pub struct OpRecord {
    /// Operation tag, e.g. `"insert_text"`, `"delete_text"`, `"replace_text"`.
    pub kind: String,
    /// Insertion position, for insert operations.
    pub at: Option<usize>,
    /// Start of the affected range, for delete/replace operations.
    pub range_start: Option<usize>,
    /// End of the affected range, for delete/replace operations.
    pub range_end: Option<usize>,
    /// Text that the operation inserted.
    pub inserted_text: Option<String>,
    /// Text that the operation removed.
    pub deleted_text: Option<String>,
}

/// Mathematical image of an [`OpRecord`].
pub ghost struct OpRecordV {
    pub kind: Seq<char>,
    pub at: Option<usize>,
    pub range_start: Option<usize>,
    pub range_end: Option<usize>,
    pub inserted_text: Option<Seq<char>>,
    pub deleted_text: Option<Seq<char>>,
}

impl DeepView for OpRecord {
    type V = OpRecordV;

    open spec fn deep_view(&self) -> OpRecordV {
        OpRecordV {
            kind: self.kind@,
            at: self.at,
            range_start: self.range_start,
            range_end: self.range_end,
            inserted_text: self.inserted_text.deep_view(),
            deleted_text: self.deleted_text.deep_view(),
        }
    }
}

impl Clone for OpRecord {
    fn clone(&self) -> (r: Self)
        ensures
            r == *self,
    {
        OpRecord {
            kind: self.kind.clone(),
            at: clone_opt_usize(&self.at),
            range_start: clone_opt_usize(&self.range_start),
            range_end: clone_opt_usize(&self.range_end),
            inserted_text: clone_opt_string(&self.inserted_text),
            deleted_text: clone_opt_string(&self.deleted_text),
        }
    }
}

/// The structured payload of a patch, holding exactly what the history logic
/// reads of it.
#[derive(Debug)]
pub enum PatchData {
    /// An ordered list of edit operations (a semantic-group payload).
    Ops(Vec<OpRecord>),
    /// A full-text checkpoint (a payload whose `snapshot` field holds text).
    Snapshot(String),
    /// Any other payload; carried along but never interpreted.
    Opaque,
}

/// Mathematical image of a [`PatchData`].
pub ghost enum PatchDataV {
    Ops(Seq<OpRecordV>),
    Snapshot(Seq<char>),
    Opaque,
}

impl PatchDataV {
    /// The checkpoint text embedded in this payload, if any.
    pub open spec fn snapshot_text(self) -> Option<Seq<char>> {
        match self {
            PatchDataV::Snapshot(s) => Some(s),
            _ => None,
        }
    }

    /// The edit operations this payload carries (empty unless it is a list of
    /// operations).
    pub open spec fn ops(self) -> Seq<OpRecordV> {
        match self {
            PatchDataV::Ops(v) => v,
            _ => Seq::empty(),
        }
    }
}

impl DeepView for PatchData {
    type V = PatchDataV;

    open spec fn deep_view(&self) -> PatchDataV {
        match self {
            PatchData::Ops(v) => PatchDataV::Ops(v.deep_view()),
            PatchData::Snapshot(s) => PatchDataV::Snapshot(s@),
            PatchData::Opaque => PatchDataV::Opaque,
        }
    }
}

impl Clone for PatchData {
    fn clone(&self) -> (r: Self)
        ensures
            r.deep_view() == self.deep_view(),
    {
        match self {
            PatchData::Ops(v) => {
                let mut ops: Vec<OpRecord> = Vec::new();
                let n = v.len();
                for i in 0..n
                    invariant
                        n == v.len(),
                        ops@ =~= v@.subrange(0, i as int),
                {
                    ops.push(v[i].clone());
                }
                proof {
                    assert(ops@ =~= v@);
                    assert(ops.deep_view() =~= v.deep_view());
                }
                PatchData::Ops(ops)
            },
            PatchData::Snapshot(s) => PatchData::Snapshot(s.clone()),
            PatchData::Opaque => PatchData::Opaque,
        }
    }
}

/// An atomic, immutable record of one change to a document.
#[derive(Debug)]
pub struct Patch {
    /// Local sequence number, assigned by the store.
    pub id: i64,
    /// Wall/logical time in milliseconds, supplied by the caller.
    pub timestamp: i64,
    /// Opaque identity of whoever made the change.
    pub author: String,
    /// Tag such as `"Save"` for checkpoints or `"semantic_group"` for edits.
    pub kind: String,
    pub data: PatchData,
    /// Globally unique identity; optional for legacy rows, unique when present.
    pub uuid: Option<String>,
    /// Causal predecessor, by uuid; not validated to exist.
    pub parent_uuid: Option<String>,
}

/// Mathematical image of a [`Patch`].
pub ghost struct PatchV {
    pub id: i64,
    pub timestamp: i64,
    pub author: Seq<char>,
    pub kind: Seq<char>,
    pub data: PatchDataV,
    pub uuid: Option<Seq<char>>,
    pub parent_uuid: Option<Seq<char>>,
}

impl DeepView for Patch {
    type V = PatchV;

    open spec fn deep_view(&self) -> PatchV {
        PatchV {
            id: self.id,
            timestamp: self.timestamp,
            author: self.author@,
            kind: self.kind@,
            data: self.data.deep_view(),
            uuid: self.uuid.deep_view(),
            parent_uuid: self.parent_uuid.deep_view(),
        }
    }
}

impl Clone for Patch {
    fn clone(&self) -> (r: Self)
        ensures
            r.deep_view() == self.deep_view(),
    {
        Patch {
            id: self.id,
            timestamp: self.timestamp,
            author: self.author.clone(),
            kind: self.kind.clone(),
            data: self.data.clone(),
            uuid: clone_opt_string(&self.uuid),
            parent_uuid: clone_opt_string(&self.parent_uuid),
        }
    }
}

/// What a caller supplies when recording a patch: everything but the local id.
#[derive(Debug)]
pub struct PatchInput {
    pub timestamp: i64,
    pub author: String,
    pub kind: String,
    pub data: PatchData,
    pub uuid: Option<String>,
    pub parent_uuid: Option<String>,
}

/// A full binary state checkpoint tied to a specific local patch id.
#[derive(Debug)]
pub struct Snapshot {
    pub id: i64,
    pub timestamp: i64,
    pub patch_id: i64,
    pub state: Vec<u8>,
}

/// Mathematical image of a [`Snapshot`].
pub ghost struct SnapshotV {
    pub id: i64,
    pub timestamp: i64,
    pub patch_id: i64,
    pub state: Seq<u8>,
}

impl DeepView for Snapshot {
    type V = SnapshotV;

    open spec fn deep_view(&self) -> SnapshotV {
        SnapshotV {
            id: self.id,
            timestamp: self.timestamp,
            patch_id: self.patch_id,
            state: self.state@,
        }
    }
}

impl Clone for Snapshot {
    fn clone(&self) -> (r: Self)
        ensures
            r.deep_view() == self.deep_view(),
    {
        let state = clone_bytes(&self.state);
        Snapshot { id: self.id, timestamp: self.timestamp, patch_id: self.patch_id, state }
    }
}

/// One approver's decision on one patch, keyed by `(patch_uuid, approver_id)`.
#[derive(Debug)]
pub struct PatchReview {
    pub patch_uuid: String,
    pub reviewer_id: String,
    /// `"accepted"` or `"rejected"`.
    pub decision: String,
    pub reviewer_name: Option<String>,
    pub reviewed_at: i64,
}

impl Clone for PatchReview {
    fn clone(&self) -> (r: Self)
        ensures
            r == *self,
    {
        PatchReview {
            patch_uuid: self.patch_uuid.clone(),
            reviewer_id: self.reviewer_id.clone(),
            decision: self.decision.clone(),
            reviewer_name: clone_opt_string(&self.reviewer_name),
            reviewed_at: self.reviewed_at,
        }
    }
}

/// A stored annotation on a span of the document, optionally a reply in a thread.
#[derive(Debug)]
pub struct Comment {
    pub id: i64,
    pub timestamp: i64,
    pub author: String,
    pub author_color: Option<String>,
    /// Serialized anchor for the start of the annotated span.
    pub start_anchor: String,
    /// Serialized anchor for the end of the annotated span.
    pub end_anchor: String,
    pub selected_text: String,
    pub content: String,
    /// `"unresolved"`, `"resolved"` or `"deleted"`.
    pub status: String,
    /// The comment this one replies to, if any.
    pub parent_id: Option<i64>,
}

/// Mathematical image of a [`Comment`].
pub ghost struct CommentV {
    pub id: i64,
    pub timestamp: i64,
    pub author: Seq<char>,
    pub author_color: Option<Seq<char>>,
    pub start_anchor: Seq<char>,
    pub end_anchor: Seq<char>,
    pub selected_text: Seq<char>,
    pub content: Seq<char>,
    pub status: Seq<char>,
    pub parent_id: Option<i64>,
}

impl DeepView for Comment {
    type V = CommentV;

    open spec fn deep_view(&self) -> CommentV {
        CommentV {
            id: self.id,
            timestamp: self.timestamp,
            author: self.author@,
            author_color: self.author_color.deep_view(),
            start_anchor: self.start_anchor@,
            end_anchor: self.end_anchor@,
            selected_text: self.selected_text@,
            content: self.content@,
            status: self.status@,
            parent_id: self.parent_id,
        }
    }
}

impl Clone for Comment {
    fn clone(&self) -> (r: Self)
        ensures
            r == *self,
    {
        Comment {
            id: self.id,
            timestamp: self.timestamp,
            author: self.author.clone(),
            author_color: clone_opt_string(&self.author_color),
            start_anchor: self.start_anchor.clone(),
            end_anchor: self.end_anchor.clone(),
            selected_text: self.selected_text.clone(),
            content: self.content.clone(),
            status: self.status.clone(),
            parent_id: clone_opt_i64(&self.parent_id),
        }
    }
}

/// What a caller supplies when creating a new comment.
#[derive(Debug)]
pub struct CommentInput {
    pub author: String,
    pub author_color: Option<String>,
    pub start_anchor: String,
    pub end_anchor: String,
    pub selected_text: String,
    pub content: String,
    pub parent_id: Option<i64>,
}

/// Result of restoring the document to a patch: the checkpoint text embedded
/// in that patch's payload, if any.
#[derive(Debug)]
pub struct RestoreResult {
    pub snapshot_content: Option<String>,
    pub patch_id: i64,
}

/// Result of restoring a managed document to a patch.
#[derive(Debug)]
pub struct DocumentRestoreResult {
    pub snapshot_content: Option<String>,
    pub patch_id: i64,
}

/// Whether a patch's declared causal parent was rejected by a given approver.
#[derive(Debug)]
pub struct ParentPatchStatus {
    pub has_parent: bool,
    pub parent_uuid: Option<String>,
    pub parent_rejected: bool,
    /// Display name of the approver who rejected the parent, if recorded.
    pub rejected_by_name: Option<String>,
}

/// Clones an optional string, keeping its value.
pub fn clone_opt_string(s: &Option<String>) -> (r: Option<String>)
    ensures
        r == *s,
{
    match s {
        Some(x) => Some(x.clone()),
        None => None,
    }
}

/// Clones an optional integer, keeping its value.
pub fn clone_opt_i64(s: &Option<i64>) -> (r: Option<i64>)
    ensures
        r == *s,
{
    match s {
        Some(x) => Some(*x),
        None => None,
    }
}

/// Clones an optional index, keeping its value.
pub fn clone_opt_usize(s: &Option<usize>) -> (r: Option<usize>)
    ensures
        r == *s,
{
    match s {
        Some(x) => Some(*x),
        None => None,
    }
}

/// Clones a byte vector, keeping its contents.
pub fn clone_bytes(v: &Vec<u8>) -> (r: Vec<u8>)
    ensures
        r@ == v@,
{
    let mut out: Vec<u8> = Vec::new();
    let n = v.len();
    for i in 0..n
        invariant
            n == v.len(),
            out@ =~= v@.subrange(0, i as int),
    {
        out.push(v[i]);
    }
    proof {
        assert(out@ =~= v@);
    }
    out
}

} // verus!
