//! One document's history: the append-only patch ledger, its snapshots, the
//! per-approver decision table and the comment threads.

use vstd::prelude::*;

use crate::outside::{new_uuid_string, sha256_digest, sha256_of};
use crate::patch::{
    clone_opt_i64, clone_opt_string, Comment, CommentInput, CommentV, DocumentRestoreResult,
    ParentPatchStatus, Patch, PatchData, PatchInput, PatchReview, PatchV, RestoreResult, Snapshot,
    SnapshotV,
};
use crate::patch::{OpRecord, OpRecordV, PatchDataV};
use crate::text::{
    dec_i64, dec_usize, hex_bytes_prefix, lemma_hex_bytes_len, spec_dec_int, spec_dec_nat,
    spec_hex_bytes, str_eq,
};
use vstd::utf8::encode_utf8;

verus! {

/// Largest snapshot payload accepted, in bytes (100 MiB).
pub const MAX_SNAPSHOT_SIZE: usize = 100 * 1024 * 1024;

/// One document's full history.
pub struct History {
    pub patches: Vec<Patch>,
    pub snapshots: Vec<Snapshot>,
    pub reviews: Vec<PatchReview>,
    pub comments: Vec<Comment>,
    /// Local id the next patch will get.
    pub next_patch_id: i64,
    /// Local id the next snapshot will get.
    pub next_snapshot_id: i64,
    /// Local id the next comment will get.
    pub next_comment_id: i64,
}

/// Whether some patch carries the given uuid.
pub open spec fn has_patch_uuid(s: Seq<PatchV>, u: Seq<char>) -> bool {
    exists|i: int| 0 <= i < s.len() && s[i].uuid == Some(u)
}

/// Whether some patch carries the given local id.
pub open spec fn has_patch_id(s: Seq<PatchV>, id: i64) -> bool {
    exists|i: int| 0 <= i < s.len() && s[i].id == id
}

/// Whether a decision decision is one of the two accepted words.
pub open spec fn valid_decision(d: Seq<char>) -> bool {
    d == "accepted"@ || d == "rejected"@
}

/// Whether some decision row carries the given `(patch uuid, approver)` key.
pub open spec fn has_review_key(s: Seq<PatchReview>, u: Seq<char>, rid: Seq<char>) -> bool {
    exists|i: int| 0 <= i < s.len() && s[i].patch_uuid@ == u && s[i].reviewer_id@ == rid
}

/// Whether no two decision rows share a `(patch uuid, approver)` key.
pub open spec fn reviews_unique(s: Seq<PatchReview>) -> bool {
    forall|i: int, j: int|
        0 <= i < s.len() && 0 <= j < s.len() && i != j ==> !((#[trigger] s[i]).patch_uuid@ == (
        #[trigger] s[j]).patch_uuid@ && s[i].reviewer_id@ == s[j].reviewer_id@)
}

/// Whether every decision row carries an accepted decision word.
pub open spec fn reviews_valid(s: Seq<PatchReview>) -> bool {
    forall|i: int| 0 <= i < s.len() ==> valid_decision((#[trigger] s[i]).decision@)
}

impl History {
    /// Patch ids are positive and strictly increasing below the next id,
    /// uuids are unique when present, snapshots point at existing patches
    /// with increasing ids of their own, decision rows are keyed uniquely with
    /// valid decisions, and comment ids are strictly increasing.
    pub open spec fn wf(self) -> bool {
        let ps = self.patches.deep_view();
        let ss = self.snapshots.deep_view();
        let rs = self.reviews@;
        let cs = self.comments.deep_view();
        &&& forall|i: int| 0 <= i < ps.len() ==> 1 <= #[trigger] ps[i].id < self.next_patch_id
        &&& forall|i: int, j: int| 0 <= i < j < ps.len() ==> ps[i].id < ps[j].id
        &&& forall|i: int, j: int|
            0 <= i < ps.len() && 0 <= j < ps.len() && i != j && ps[i].uuid is Some ==> ps[i].uuid
                != ps[j].uuid
        &&& forall|i: int| 0 <= i < ss.len() ==> 1 <= #[trigger] ss[i].id < self.next_snapshot_id
        &&& forall|i: int, j: int| 0 <= i < j < ss.len() ==> ss[i].id < ss[j].id
        &&& forall|i: int| 0 <= i < ss.len() ==> has_patch_id(ps, (#[trigger] ss[i]).patch_id)
        &&& reviews_unique(rs)
        &&& reviews_valid(rs)
        &&& forall|i: int| 0 <= i < cs.len() ==> 1 <= #[trigger] cs[i].id < self.next_comment_id
        &&& forall|i: int, j: int| 0 <= i < j < cs.len() ==> cs[i].id < cs[j].id
        &&& 1 <= self.next_patch_id
        &&& 1 <= self.next_snapshot_id
        &&& 1 <= self.next_comment_id
    }

    /// Creates an empty history.
    pub fn new() -> (r: Self)
        ensures
            r.wf(),
            r.patches.deep_view() == Seq::<PatchV>::empty(),
            r.snapshots.deep_view() == Seq::<SnapshotV>::empty(),
            r.reviews@ == Seq::<PatchReview>::empty(),
            r.comments.deep_view() == Seq::<CommentV>::empty(),
            r.next_patch_id == 1,
            r.next_snapshot_id == 1,
            r.next_comment_id == 1,
    {
        let h = History {
            patches: Vec::new(),
            snapshots: Vec::new(),
            reviews: Vec::new(),
            comments: Vec::new(),
            next_patch_id: 1,
            next_snapshot_id: 1,
            next_comment_id: 1,
        };
        proof {
            assert(h.patches.deep_view() =~= Seq::<PatchV>::empty());
            assert(h.snapshots.deep_view() =~= Seq::<SnapshotV>::empty());
            assert(h.comments.deep_view() =~= Seq::<CommentV>::empty());
        }
        h
    }

    /// Records one patch, assigning the next local id. The stored uuid is the
    /// input's, if it carries one, else a freshly drawn one; the stored causal
    /// parent is the input's, or the separately passed fallback. Fails, and
    /// changes nothing, when the uuid is already taken or the id space is
    /// exhausted; succeeds whenever the input carries a uuid that is not yet
    /// taken and ids remain.
    pub fn record_patch(&mut self, patch: PatchInput, parent_uuid: Option<String>) -> (r: Result<
        String,
        String,
    >)
        requires
            old(self).wf(),
        ensures
            final(self).wf(),
            r matches Err(_) ==> *final(self) == *old(self),
            (patch.uuid matches Some(u) && !has_patch_uuid(old(self).patches.deep_view(), u@)
                && old(self).next_patch_id < i64::MAX) ==> r is Ok,
            patch.uuid matches Some(u) && has_patch_uuid(old(self).patches.deep_view(), u@)
                ==> r is Err,
            r matches Ok(u) ==> {
                &&& !has_patch_uuid(old(self).patches.deep_view(), u@)
                &&& patch.uuid matches Some(x) ==> u@ == x@
                &&& final(self).patches.deep_view() == old(self).patches.deep_view().push(
                    PatchV {
                        id: old(self).next_patch_id,
                        timestamp: patch.timestamp,
                        author: patch.author@,
                        kind: patch.kind@,
                        data: patch.data.deep_view(),
                        uuid: Some(u@),
                        parent_uuid: match patch.parent_uuid {
                            Some(p) => Some(p@),
                            None => parent_uuid.deep_view(),
                        },
                    },
                )
                &&& final(self).next_patch_id == old(self).next_patch_id + 1
                &&& final(self).snapshots == old(self).snapshots
                &&& final(self).reviews == old(self).reviews
                &&& final(self).comments == old(self).comments
                &&& final(self).next_snapshot_id == old(self).next_snapshot_id
                &&& final(self).next_comment_id == old(self).next_comment_id
            },
    {
        let patch_uuid = match &patch.uuid {
            Some(u) => u.clone(),
            None => new_uuid_string(),
        };
        if self.next_patch_id == i64::MAX {
            return Err("patch id space exhausted".to_owned());
        }
        if self.find_patch_by_uuid(patch_uuid.as_str()).is_some() {
            return Err("a patch with this uuid already exists".to_owned());
        }
        let actual_parent = match patch.parent_uuid {
            Some(p) => Some(p),
            None => parent_uuid,
        };
        let id = self.next_patch_id;
        let ghost before = self.patches.deep_view();
        let stored = Patch {
            id,
            timestamp: patch.timestamp,
            author: patch.author,
            kind: patch.kind,
            data: patch.data,
            uuid: Some(patch_uuid.clone()),
            parent_uuid: actual_parent,
        };
        self.patches.push(stored);
        self.next_patch_id = id + 1;
        proof {
            assert(self.patches.deep_view() =~= before.push(
                PatchV {
                    id,
                    timestamp: patch.timestamp,
                    author: patch.author@,
                    kind: patch.kind@,
                    data: patch.data.deep_view(),
                    uuid: Some(patch_uuid@),
                    parent_uuid: match patch.parent_uuid {
                        Some(p) => Some(p@),
                        None => parent_uuid.deep_view(),
                    },
                },
            ));
            assert(self.patches.deep_view().take(before.len() as int) =~= before);
            lemma_wf_after_patch_push(*old(self), *self);
        }
        Ok(patch_uuid)
    }

    /// The position of the patch carrying the given uuid, if any.
    pub(crate) fn find_patch_by_uuid(&self, uuid: &str) -> (r: Option<usize>)
        ensures
            match r {
                Some(i) => i < self.patches@.len() && self.patches.deep_view()[i as int].uuid
                    == Some(uuid@),
                None => !has_patch_uuid(self.patches.deep_view(), uuid@),
            },
    {
        let n = self.patches.len();
        for i in 0..n
            invariant
                n == self.patches.len(),
                forall|k: int|
                    0 <= k < i ==> #[trigger] self.patches.deep_view()[k].uuid != Some(uuid@),
        {
            match &self.patches[i].uuid {
                Some(u) => {
                    if str_eq(u.as_str(), uuid) {
                        proof {
                            assert(self.patches.deep_view()[i as int].uuid == Some(uuid@));
                        }
                        return Some(i);
                    }
                },
                None => (),
            }
            proof {
                assert(self.patches.deep_view()[i as int].uuid != Some(uuid@));
            }
        }
        None
    }

    /// The position of the patch carrying the given local id, if any.
    fn find_patch_by_id(&self, id: i64) -> (r: Option<usize>)
        ensures
            match r {
                Some(i) => i < self.patches@.len() && self.patches.deep_view()[i as int].id == id,
                None => !has_patch_id(self.patches.deep_view(), id),
            },
    {
        let n = self.patches.len();
        for i in 0..n
            invariant
                n == self.patches.len(),
                forall|k: int| 0 <= k < i ==> #[trigger] self.patches.deep_view()[k].id != id,
        {
            if self.patches[i].id == id {
                proof {
                    assert(self.patches.deep_view()[i as int].id == id);
                }
                return Some(i);
            }
            proof {
                assert(self.patches.deep_view()[i as int].id == id || self.patches.deep_view()[
                    i as int
                ].id != id);
            }
        }
        None
    }

    /// Lists all patches in insertion (ascending id) order.
    pub fn list_patches(&self) -> (r: Result<Vec<Patch>, String>)
        ensures
            r matches Ok(v) && v.deep_view() == self.patches.deep_view(),
    {
        let mut out: Vec<Patch> = Vec::new();
        let n = self.patches.len();
        for i in 0..n
            invariant
                n == self.patches.len(),
                out.deep_view() =~= self.patches.deep_view().take(i as int),
        {
            let p = self.patches[i].clone();
            proof {
                assert(p.deep_view() == self.patches.deep_view()[i as int]);
            }
            let ghost pre = out.deep_view();
            out.push(p);
            proof {
                assert(out.deep_view() =~= pre.push(self.patches.deep_view()[i as int]));
                assert(out.deep_view() =~= self.patches.deep_view().take(i + 1));
            }
        }
        proof {
            assert(self.patches.deep_view().take(n as int) =~= self.patches.deep_view());
        }
        Ok(out)
    }

    /// Returns the patch with the given local id, and an error when no patch
    /// has it.
    pub fn get_patch(&self, id: i64) -> (r: Result<Patch, String>)
        ensures
            match r {
                Ok(p) => exists|i: int|
                    0 <= i < self.patches@.len() && p.deep_view() == self.patches.deep_view()[i]
                        && #[trigger] self.patches.deep_view()[i].id == id,
                Err(_) => !has_patch_id(self.patches.deep_view(), id),
            },
    {
        match self.find_patch_by_id(id) {
            Some(i) => {
                let p = self.patches[i].clone();
                proof {
                    assert(self.patches.deep_view()[i as int].id == id);
                }
                Ok(p)
            },
            None => Err("patch not found".to_owned()),
        }
    }

    /// Saves a binary state snapshot tied to a patch. Fails, changing
    /// nothing, exactly when the payload is empty or oversized, the patch id
    /// does not exist, or the snapshot id space is exhausted.
    pub fn save_snapshot(&mut self, patch_id: i64, state: Vec<u8>, timestamp: i64) -> (r: Result<
        (),
        String,
    >)
        requires
            old(self).wf(),
        ensures
            final(self).wf(),
            r matches Err(_) ==> *final(self) == *old(self),
            r is Err <==> (state@.len() == 0 || state@.len() > MAX_SNAPSHOT_SIZE
                || !has_patch_id(old(self).patches.deep_view(), patch_id) || old(
                self,
            ).next_snapshot_id == i64::MAX),
            r is Ok ==> {
                &&& final(self).snapshots.deep_view() == old(self).snapshots.deep_view().push(
                    SnapshotV {
                        id: old(self).next_snapshot_id,
                        timestamp,
                        patch_id,
                        state: state@,
                    },
                )
                &&& final(self).next_snapshot_id == old(self).next_snapshot_id + 1
                &&& final(self).patches == old(self).patches
                &&& final(self).reviews == old(self).reviews
                &&& final(self).comments == old(self).comments
                &&& final(self).next_patch_id == old(self).next_patch_id
                &&& final(self).next_comment_id == old(self).next_comment_id
            },
    {
        if state.len() == 0 {
            return Err("snapshot state cannot be empty".to_owned());
        }
        if state.len() > MAX_SNAPSHOT_SIZE {
            return Err("snapshot size exceeds the maximum allowed".to_owned());
        }
        if self.find_patch_by_id(patch_id).is_none() {
            return Err("snapshot refers to a patch that does not exist".to_owned());
        }
        if self.next_snapshot_id == i64::MAX {
            return Err("snapshot id space exhausted".to_owned());
        }
        let id = self.next_snapshot_id;
        let ghost before = self.snapshots.deep_view();
        self.snapshots.push(Snapshot { id, timestamp, patch_id, state });
        self.next_snapshot_id = id + 1;
        proof {
            assert(self.snapshots.deep_view() =~= before.push(
                SnapshotV { id, timestamp, patch_id, state: state@ },
            ));
            assert(self.snapshots.deep_view().take(before.len() as int) =~= before);
            lemma_wf_after_snapshot_push(*old(self), *self);
        }
        Ok(())
    }

    /// The most recent snapshot at or before a patch: among snapshots whose
    /// patch id is no greater than the requested one, the one with the
    /// greatest patch id, and of those the latest saved.
    pub fn get_snapshot_for_patch(&self, patch_id: i64) -> (r: Result<Option<Snapshot>, String>)
        ensures
            match r {
                Ok(None) => forall|i: int|
                    0 <= i < self.snapshots@.len() ==> #[trigger] self.snapshots.deep_view()[
                        i
                    ].patch_id > patch_id,
                Ok(Some(s)) => {
                    &&& exists|i: int|
                        0 <= i < self.snapshots@.len() && s.deep_view()
                            == #[trigger] self.snapshots.deep_view()[i]
                    &&& s.patch_id <= patch_id
                    &&& forall|i: int|
                        0 <= i < self.snapshots@.len()
                            && #[trigger] self.snapshots.deep_view()[i].patch_id <= patch_id
                            ==> self.snapshots.deep_view()[i].patch_id < s.patch_id || (
                        self.snapshots.deep_view()[i].patch_id == s.patch_id
                            && self.snapshots.deep_view()[i].id <= s.id)
                },
                Err(_) => false,
            },
    {
        let n = self.snapshots.len();
        let mut best: Option<usize> = None;
        for i in 0..n
            invariant
                n == self.snapshots.len(),
                match best {
                    None => forall|k: int|
                        0 <= k < i ==> #[trigger] self.snapshots.deep_view()[k].patch_id
                            > patch_id,
                    Some(b) => {
                        &&& b < i
                        &&& self.snapshots.deep_view()[b as int].patch_id <= patch_id
                        &&& forall|k: int|
                            0 <= k < i && #[trigger] self.snapshots.deep_view()[k].patch_id
                                <= patch_id ==> self.snapshots.deep_view()[k].patch_id
                                < self.snapshots.deep_view()[b as int].patch_id || (
                            self.snapshots.deep_view()[k].patch_id == self.snapshots.deep_view()[
                                b as int
                            ].patch_id && self.snapshots.deep_view()[k].id
                                <= self.snapshots.deep_view()[b as int].id)
                    },
                },
        {
            if self.snapshots[i].patch_id <= patch_id {
                match best {
                    Some(b) => {
                        if self.snapshots[i].patch_id > self.snapshots[b].patch_id || (
                        self.snapshots[i].patch_id == self.snapshots[b].patch_id
                            && self.snapshots[i].id >= self.snapshots[b].id) {
                            best = Some(i);
                        }
                    },
                    None => {
                        best = Some(i);
                    },
                }
            }
        }
        match best {
            Some(b) => Ok(Some(self.snapshots[b].clone())),
            None => Ok(None),
        }
    }

    /// The checkpoint text embedded in the payload of the patch with the
    /// given id: the text of its `snapshot` field when the patch exists and
    /// carries one, and nothing otherwise.
    pub open spec fn spec_restore_text(self, patch_id: i64) -> Option<Seq<char>> {
        if exists|i: int|
            0 <= i < self.patches.deep_view().len() && #[trigger] self.patches.deep_view()[i].id
                == patch_id {
            let i = choose|i: int|
                0 <= i < self.patches.deep_view().len()
                    && #[trigger] self.patches.deep_view()[i].id == patch_id;
            self.patches.deep_view()[i].data.snapshot_text()
        } else {
            None
        }
    }

    /// Surfaces the checkpoint text captured in a patch's payload, if any.
    /// This does not replay edits; it only returns an already-captured
    /// checkpoint.
    pub fn restore_to_patch(&self, patch_id: i64) -> (r: Result<RestoreResult, String>)
        requires
            self.wf(),
        ensures
            r matches Ok(res) && res.patch_id == patch_id && res.snapshot_content.deep_view()
                == self.spec_restore_text(patch_id),
    {
        let content = self.restore_text(patch_id);
        Ok(RestoreResult { snapshot_content: content, patch_id })
    }

    /// Surfaces the checkpoint text captured in a patch's payload, if any,
    /// for a managed document.
    pub fn restore_document_to_patch(&self, patch_id: i64) -> (r: Result<
        DocumentRestoreResult,
        String,
    >)
        requires
            self.wf(),
        ensures
            r matches Ok(res) && res.patch_id == patch_id && res.snapshot_content.deep_view()
                == self.spec_restore_text(patch_id),
    {
        let content = self.restore_text(patch_id);
        Ok(DocumentRestoreResult { snapshot_content: content, patch_id })
    }

    /// The checkpoint text of the patch with the given id, if present.
    fn restore_text(&self, patch_id: i64) -> (r: Option<String>)
        requires
            self.wf(),
        ensures
            r.deep_view() == self.spec_restore_text(patch_id),
    {
        match self.find_patch_by_id(patch_id) {
            Some(i) => {
                proof {
                    let ghost ps = self.patches.deep_view();
                    let j = choose|j: int| 0 <= j < ps.len() && #[trigger] ps[j].id == patch_id;
                    if j != i {
                        assert(ps[j].id == ps[i as int].id);
                        assert(false) by {
                            if j < i {
                                assert(ps[j].id < ps[i as int].id);
                            } else {
                                assert(ps[i as int].id < ps[j].id);
                            }
                        }
                    }
                }
                match &self.patches[i].data {
                    PatchData::Snapshot(s) => Some(s.clone()),
                    PatchData::Ops(_) => None,
                    PatchData::Opaque => None,
                }
            },
            None => None,
        }
    }
}

/// What upserting a decision row does: the row with the same key (unique in a
/// well formed history) is replaced, the new row going to the end; a new key
/// is simply appended.
pub open spec fn spec_upsert_review(s: Seq<PatchReview>, row: PatchReview) -> Seq<PatchReview> {
    if has_review_key(s, row.patch_uuid@, row.reviewer_id@) {
        let i = choose|i: int|
            0 <= i < s.len() && (#[trigger] s[i]).patch_uuid@ == row.patch_uuid@
                && s[i].reviewer_id@ == row.reviewer_id@;
        s.remove(i).push(row)
    } else {
        s.push(row)
    }
}

/// The decision rows for one patch, in storage order.
pub open spec fn spec_reviews_for(s: Seq<PatchReview>, u: Seq<char>) -> Seq<PatchReview>
    decreases s.len(),
{
    if s.len() == 0 {
        Seq::empty()
    } else {
        (if s[0].patch_uuid@ == u {
            seq![s[0]]
        } else {
            Seq::empty()
        }) + spec_reviews_for(s.drop_first(), u)
    }
}

/// Inserts a decision after every entry decided no earlier than it, keeping a
/// newest-first list sorted with ties in their old order.
pub open spec fn spec_insert_review_desc(s: Seq<PatchReview>, r: PatchReview) -> Seq<PatchReview>
    decreases s.len(),
{
    if s.len() == 0 {
        seq![r]
    } else if s[0].reviewed_at >= r.reviewed_at {
        seq![s[0]] + spec_insert_review_desc(s.drop_first(), r)
    } else {
        seq![r] + s
    }
}

/// Sorts decisions newest first; decisions of equal time keep their order.
pub open spec fn spec_sort_reviews_desc(s: Seq<PatchReview>) -> Seq<PatchReview>
    decreases s.len(),
{
    if s.len() == 0 {
        Seq::empty()
    } else {
        spec_insert_review_desc(spec_sort_reviews_desc(s.drop_last()), s.last())
    }
}

/// Whether one patch belongs in an approver's pending-approval listing: authored
/// by someone else, carrying a uuid, with no decision row from this approver.
pub open spec fn needs_review_entry(p: PatchV, rs: Seq<PatchReview>, reviewer: Seq<char>) -> bool {
    p.uuid matches Some(u) && p.author != reviewer && !has_review_key(rs, u, reviewer)
}

/// The patches an approver still has to decide on: authored by someone else,
/// carrying a uuid, with no decision row from this approver; in storage order.
pub open spec fn spec_needs_review(
    ps: Seq<PatchV>,
    rs: Seq<PatchReview>,
    reviewer: Seq<char>,
) -> Seq<PatchV>
    decreases ps.len(),
{
    if ps.len() == 0 {
        Seq::empty()
    } else {
        (if needs_review_entry(ps[0], rs, reviewer) {
            seq![ps[0]]
        } else {
            Seq::empty()
        }) + spec_needs_review(ps.drop_first(), rs, reviewer)
    }
}

/// Inserts a patch after every entry no younger than it, keeping an
/// oldest-first list sorted with ties in their old order.
pub open spec fn spec_insert_patch_asc(s: Seq<PatchV>, p: PatchV) -> Seq<PatchV>
    decreases s.len(),
{
    if s.len() == 0 {
        seq![p]
    } else if s[0].timestamp <= p.timestamp {
        seq![s[0]] + spec_insert_patch_asc(s.drop_first(), p)
    } else {
        seq![p] + s
    }
}

/// Sorts patches oldest first; patches of equal time keep their order.
pub open spec fn spec_sort_patches_asc(s: Seq<PatchV>) -> Seq<PatchV>
    decreases s.len(),
{
    if s.len() == 0 {
        Seq::empty()
    } else {
        spec_insert_patch_asc(spec_sort_patches_asc(s.drop_last()), s.last())
    }
}

/// The patch uuid a patch declares as its causal parent, looked up by the
/// patch's own uuid; nothing when no patch carries that uuid, or it has no
/// parent.
pub open spec fn spec_parent_uuid(ps: Seq<PatchV>, u: Seq<char>) -> Option<Seq<char>> {
    if has_patch_uuid(ps, u) {
        let i = choose|i: int| 0 <= i < ps.len() && (#[trigger] ps[i]).uuid == Some(u);
        ps[i].parent_uuid
    } else {
        None
    }
}

/// The decision row one approver filed for one patch, if any.
pub open spec fn spec_review_for(
    rs: Seq<PatchReview>,
    u: Seq<char>,
    rid: Seq<char>,
) -> Option<PatchReview> {
    if has_review_key(rs, u, rid) {
        let i = choose|i: int|
            0 <= i < rs.len() && (#[trigger] rs[i]).patch_uuid@ == u && rs[i].reviewer_id@ == rid;
        Some(rs[i])
    } else {
        None
    }
}

impl History {
    /// Records one approver's decision on one patch, overwriting any earlier
    /// decision by the same approver on the same patch. Fails, and persists
    /// nothing, exactly when the decision is neither `"accepted"` nor
    /// `"rejected"`.
    pub fn record_patch_review(
        &mut self,
        patch_uuid: String,
        reviewer_id: String,
        decision: String,
        reviewer_name: Option<String>,
        reviewed_at: i64,
    ) -> (r: Result<(), String>)
        requires
            old(self).wf(),
        ensures
            final(self).wf(),
            r is Err <==> !valid_decision(decision@),
            r is Err ==> *final(self) == *old(self),
            r is Ok ==> {
                &&& final(self).reviews@ == spec_upsert_review(
                    old(self).reviews@,
                    PatchReview {
                        patch_uuid,
                        reviewer_id,
                        decision,
                        reviewer_name,
                        reviewed_at,
                    },
                )
                &&& final(self).patches == old(self).patches
                &&& final(self).snapshots == old(self).snapshots
                &&& final(self).comments == old(self).comments
                &&& final(self).next_patch_id == old(self).next_patch_id
                &&& final(self).next_snapshot_id == old(self).next_snapshot_id
                &&& final(self).next_comment_id == old(self).next_comment_id
            },
    {
        let accepted = str_eq(decision.as_str(), "accepted");
        let rejected = str_eq(decision.as_str(), "rejected");
        if !accepted && !rejected {
            return Err("invalid decision: must be 'accepted' or 'rejected'".to_owned());
        }
        let row = PatchReview { patch_uuid, reviewer_id, decision, reviewer_name, reviewed_at };
        proof {
            assert(valid_decision(row.decision@));
        }
        let ghost rowg = row;
        let ghost rs0 = self.reviews@;
        let at = self.find_review_index(row.patch_uuid.as_str(), row.reviewer_id.as_str());
        match at {
            Some(idx) => {
                proof {
                    assert(rs0[idx as int].patch_uuid@ == row.patch_uuid@ && rs0[
                        idx as int
                    ].reviewer_id@ == row.reviewer_id@);
                    assert(has_review_key(rs0, row.patch_uuid@, row.reviewer_id@));
                    let j = choose|j: int|
                        0 <= j < rs0.len() && (#[trigger] rs0[j]).patch_uuid@ == row.patch_uuid@
                            && rs0[j].reviewer_id@ == row.reviewer_id@;
                    assert(j == idx);
                }
                self.reviews.remove(idx);
                self.reviews.push(row);
                proof {
                    assert(self.reviews@ == spec_upsert_review(rs0, rowg));
                    lemma_upsert_review_wf(rs0, self.reviews@);
                }
            },
            None => {
                self.reviews.push(row);
                proof {
                    assert(self.reviews@ == spec_upsert_review(rs0, rowg));
                    lemma_upsert_review_wf(rs0, self.reviews@);
                }
            },
        }
        Ok(())
    }

    /// Lists the decisions filed for one patch, newest first; decisions of equal
    /// time keep their storage order.
    pub fn get_patch_reviews(&self, patch_uuid: String) -> (r: Result<Vec<PatchReview>, String>)
        ensures
            r matches Ok(v) && v@ == spec_sort_reviews_desc(
                spec_reviews_for(self.reviews@, patch_uuid@),
            ),
    {
        let mut matching: Vec<PatchReview> = Vec::new();
        let n = self.reviews.len();
        for i in 0..n
            invariant
                n == self.reviews.len(),
                matching@ == spec_reviews_for(self.reviews@.take(i as int), patch_uuid@),
        {
            proof {
                lemma_reviews_for_take_step(self.reviews@, patch_uuid@, i as int);
            }
            if str_eq(self.reviews[i].patch_uuid.as_str(), patch_uuid.as_str()) {
                matching.push(self.reviews[i].clone());
            }
            proof {
                assert(matching@ =~= spec_reviews_for(
                    self.reviews@.take(i + 1),
                    patch_uuid@,
                ));
            }
        }
        proof {
            assert(self.reviews@.take(n as int) =~= self.reviews@);
        }
        Ok(sort_reviews_desc(matching))
    }

    /// Lists the patches that still need this approver's decision: patches by
    /// other authors, carrying a uuid, with no decision row from this approver;
    /// oldest first, ties in storage order.
    pub fn get_patches_needing_review(&self, reviewer_id: String) -> (r: Result<
        Vec<Patch>,
        String,
    >)
        ensures
            r matches Ok(v) && v.deep_view() == spec_sort_patches_asc(
                spec_needs_review(self.patches.deep_view(), self.reviews@, reviewer_id@),
            ),
    {
        let ghost ps = self.patches.deep_view();
        let mut matching: Vec<Patch> = Vec::new();
        let n = self.patches.len();
        for i in 0..n
            invariant
                n == self.patches.len(),
                ps == self.patches.deep_view(),
                matching.deep_view() == spec_needs_review(
                    ps.take(i as int),
                    self.reviews@,
                    reviewer_id@,
                ),
        {
            proof {
                lemma_needs_review_take_step(ps, self.reviews@, reviewer_id@, i as int);
            }
            let p = &self.patches[i];
            let wanted: bool = if str_eq(p.author.as_str(), reviewer_id.as_str()) {
                false
            } else {
                match &p.uuid {
                    Some(u) => !self.has_review(u.as_str(), reviewer_id.as_str()),
                    None => false,
                }
            };
            if wanted {
                let c = self.patches[i].clone();
                proof {
                    assert(c.deep_view() == ps[i as int]);
                }
                let ghost pre = matching.deep_view();
                matching.push(c);
                proof {
                    assert(matching.deep_view() =~= pre.push(ps[i as int]));
                }
            }
            proof {
                assert(matching.deep_view() =~= spec_needs_review(
                    ps.take(i + 1),
                    self.reviews@,
                    reviewer_id@,
                ));
            }
        }
        proof {
            assert(ps.take(n as int) =~= ps);
        }
        Ok(sort_patches_asc(matching))
    }

    /// The position of the decision row with the given key, if any.
    fn find_review_index(&self, patch_uuid: &str, reviewer_id: &str) -> (r: Option<usize>)
        ensures
            match r {
                Some(i) => i < self.reviews@.len() && self.reviews@[i as int].patch_uuid@
                    == patch_uuid@ && self.reviews@[i as int].reviewer_id@ == reviewer_id@,
                None => !has_review_key(self.reviews@, patch_uuid@, reviewer_id@),
            },
    {
        let n = self.reviews.len();
        for i in 0..n
            invariant
                n == self.reviews.len(),
                forall|k: int|
                    0 <= k < i ==> !((#[trigger] self.reviews@[k]).patch_uuid@ == patch_uuid@
                        && self.reviews@[k].reviewer_id@ == reviewer_id@),
        {
            if str_eq(self.reviews[i].patch_uuid.as_str(), patch_uuid) && str_eq(
                self.reviews[i].reviewer_id.as_str(),
                reviewer_id,
            ) {
                return Some(i);
            }
        }
        None
    }

    /// Whether this approver has filed a decision for this patch uuid.
    fn has_review(&self, patch_uuid: &str, reviewer_id: &str) -> (r: bool)
        ensures
            r == has_review_key(self.reviews@, patch_uuid@, reviewer_id@),
    {
        let n = self.reviews.len();
        for i in 0..n
            invariant
                n == self.reviews.len(),
                forall|k: int|
                    0 <= k < i ==> !((#[trigger] self.reviews@[k]).patch_uuid@ == patch_uuid@
                        && self.reviews@[k].reviewer_id@ == reviewer_id@),
        {
            if str_eq(self.reviews[i].patch_uuid.as_str(), patch_uuid) && str_eq(
                self.reviews[i].reviewer_id.as_str(),
                reviewer_id,
            ) {
                proof {
                    assert(has_review_key(self.reviews@, patch_uuid@, reviewer_id@));
                }
                return true;
            }
        }
        false
    }

    /// Looks up whether the causal parent of a patch was rejected by this
    /// approver, surfacing the rejecting approver's display name. A patch
    /// without a parent declaration, or an unknown patch uuid, has no parent
    /// to check; whether the parent patch itself exists is not verified.
    pub fn check_parent_patch_status(&self, patch_uuid: String, reviewer_id: String) -> (r: Result<
        ParentPatchStatus,
        String,
    >)
        requires
            self.wf(),
        ensures
            r matches Ok(st) && (match spec_parent_uuid(self.patches.deep_view(), patch_uuid@) {
                None => {
                    &&& !st.has_parent
                    &&& st.parent_uuid is None
                    &&& !st.parent_rejected
                    &&& st.rejected_by_name is None
                },
                Some(pu) => {
                    &&& st.has_parent
                    &&& st.parent_uuid.deep_view() == Some(pu)
                    &&& (match spec_review_for(self.reviews@, pu, reviewer_id@) {
                        Some(rv) => if rv.decision@ == "rejected"@ {
                            st.parent_rejected && st.rejected_by_name.deep_view()
                                == rv.reviewer_name.deep_view()
                        } else {
                            !st.parent_rejected && st.rejected_by_name is None
                        },
                        None => !st.parent_rejected && st.rejected_by_name is None,
                    })
                },
            }),
    {
        let ghost ps = self.patches.deep_view();
        let parent = match self.find_patch_by_uuid(patch_uuid.as_str()) {
            Some(i) => {
                proof {
                    let j = choose|j: int|
                        0 <= j < ps.len() && (#[trigger] ps[j]).uuid == Some(patch_uuid@);
                    assert(ps[j].uuid == ps[i as int].uuid);
                    assert(j == i);
                }
                clone_opt_string(&self.patches[i].parent_uuid)
            },
            None => None,
        };
        let parent_uuid = match parent {
            Some(pu) => pu,
            None => {
                return Ok(
                    ParentPatchStatus {
                        has_parent: false,
                        parent_uuid: None,
                        parent_rejected: false,
                        rejected_by_name: None,
                    },
                );
            },
        };
        let ghost rs = self.reviews@;
        let n = self.reviews.len();
        let mut i: usize = 0;
        while i < n
            invariant
                n == self.reviews.len(),
                i <= n,
                rs == self.reviews@,
                self.wf(),
                spec_parent_uuid(ps, patch_uuid@) == Some(parent_uuid@),
                ps == self.patches.deep_view(),
                forall|k: int|
                    0 <= k < i ==> !((#[trigger] rs[k]).patch_uuid@ == parent_uuid@
                        && rs[k].reviewer_id@ == reviewer_id@),
            decreases n - i,
        {
            if str_eq(self.reviews[i].patch_uuid.as_str(), parent_uuid.as_str()) && str_eq(
                self.reviews[i].reviewer_id.as_str(),
                reviewer_id.as_str(),
            ) {
                proof {
                    assert(has_review_key(rs, parent_uuid@, reviewer_id@));
                    let j = choose|j: int|
                        0 <= j < rs.len() && (#[trigger] rs[j]).patch_uuid@ == parent_uuid@ && rs[
                            j
                        ].reviewer_id@ == reviewer_id@;
                    assert(j == i);
                }
                if str_eq(self.reviews[i].decision.as_str(), "rejected") {
                    let name = clone_opt_string(&self.reviews[i].reviewer_name);
                    return Ok(
                        ParentPatchStatus {
                            has_parent: true,
                            parent_uuid: Some(parent_uuid),
                            parent_rejected: true,
                            rejected_by_name: name,
                        },
                    );
                } else {
                    return Ok(
                        ParentPatchStatus {
                            has_parent: true,
                            parent_uuid: Some(parent_uuid),
                            parent_rejected: false,
                            rejected_by_name: None,
                        },
                    );
                }
            }
            i = i + 1;
        }
        proof {
            assert(!has_review_key(rs, parent_uuid@, reviewer_id@));
        }
        Ok(
            ParentPatchStatus {
                has_parent: true,
                parent_uuid: Some(parent_uuid),
                parent_rejected: false,
                rejected_by_name: None,
            },
        )
    }
}

/// An upsert keeps decision keys unique and decision words valid, given the
/// new row's decision is valid.
proof fn lemma_upsert_review_wf(s0: Seq<PatchReview>, s1: Seq<PatchReview>)
    requires
        reviews_unique(s0),
        reviews_valid(s0),
        exists|row: PatchReview|
            s1 == spec_upsert_review(s0, row) && valid_decision(row.decision@),
    ensures
        reviews_unique(s1),
        reviews_valid(s1),
{
    let row = choose|row: PatchReview|
        s1 == spec_upsert_review(s0, row) && valid_decision(row.decision@);
    lemma_upsert_review_unique(s0, row);
    if has_review_key(s0, row.patch_uuid@, row.reviewer_id@) {
        let i = choose|i: int|
            0 <= i < s0.len() && (#[trigger] s0[i]).patch_uuid@ == row.patch_uuid@
                && s0[i].reviewer_id@ == row.reviewer_id@;
        assert forall|k: int| 0 <= k < s1.len() implies valid_decision(
            (#[trigger] s1[k]).decision@,
        ) by {
            if k < s1.len() - 1 {
                let k0 = if k < i {
                    k
                } else {
                    k + 1
                };
                assert(s1[k] == s0[k0]);
            } else {
                assert(s1[k] == row);
            }
        }
    } else {
        assert forall|k: int| 0 <= k < s1.len() implies valid_decision(
            (#[trigger] s1[k]).decision@,
        ) by {
            if k < s0.len() {
                assert(s1[k] == s0[k]);
            } else {
                assert(s1[k] == row);
            }
        }
    }
}

/// Extending the row list by one row appends it to one patch's listing when
/// it belongs to that patch.
proof fn lemma_reviews_for_take_step(s: Seq<PatchReview>, u: Seq<char>, k: int)
    requires
        0 <= k < s.len(),
    ensures
        spec_reviews_for(s.take(k + 1), u) == spec_reviews_for(s.take(k), u) + (if s[k].patch_uuid@
            == u {
            seq![s[k]]
        } else {
            Seq::<PatchReview>::empty()
        }),
    decreases k,
{
    if k == 0 {
        assert(s.take(1) =~= seq![s[0]]);
        assert(s.take(1).drop_first() =~= Seq::empty());
        assert(s.take(0) =~= Seq::empty());
        assert(spec_reviews_for(s.take(1), u) =~= spec_reviews_for(s.take(0), u) + (
        if s[0].patch_uuid@ == u {
            seq![s[0]]
        } else {
            Seq::<PatchReview>::empty()
        }));
    } else {
        lemma_reviews_for_take_step(s.drop_first(), u, k - 1);
        assert(s.take(k + 1).drop_first() =~= s.drop_first().take(k));
        assert(s.take(k).drop_first() =~= s.drop_first().take(k - 1));
        assert(s.take(k + 1)[0] == s[0]);
        assert(s.take(k)[0] == s[0]);
        assert(s.drop_first()[k - 1] == s[k]);
        assert(spec_reviews_for(s.take(k + 1), u) =~= spec_reviews_for(s.take(k), u) + (
        if s[k].patch_uuid@ == u {
            seq![s[k]]
        } else {
            Seq::<PatchReview>::empty()
        }));
    }
}

/// Extending the patch list by one patch appends it to the pending-approval
/// listing when it qualifies.
proof fn lemma_needs_review_take_step(
    ps: Seq<PatchV>,
    rs: Seq<PatchReview>,
    reviewer: Seq<char>,
    k: int,
)
    requires
        0 <= k < ps.len(),
    ensures
        spec_needs_review(ps.take(k + 1), rs, reviewer) == spec_needs_review(ps.take(k), rs, reviewer)
            + (if needs_review_entry(ps[k], rs, reviewer) {
            seq![ps[k]]
        } else {
            Seq::<PatchV>::empty()
        }),
    decreases k,
{
    if k == 0 {
        assert(ps.take(1) =~= seq![ps[0]]);
        assert(ps.take(1).drop_first() =~= Seq::empty());
        assert(ps.take(0) =~= Seq::empty());
        assert(spec_needs_review(ps.take(1), rs, reviewer) =~= spec_needs_review(
            ps.take(0),
            rs,
            reviewer,
        ) + (if needs_review_entry(ps[0], rs, reviewer) {
            seq![ps[0]]
        } else {
            Seq::<PatchV>::empty()
        }));
    } else {
        lemma_needs_review_take_step(ps.drop_first(), rs, reviewer, k - 1);
        assert(ps.take(k + 1).drop_first() =~= ps.drop_first().take(k));
        assert(ps.take(k).drop_first() =~= ps.drop_first().take(k - 1));
        assert(ps.take(k + 1)[0] == ps[0]);
        assert(ps.take(k)[0] == ps[0]);
        assert(ps.drop_first()[k - 1] == ps[k]);
        assert(spec_needs_review(ps.take(k + 1), rs, reviewer) =~= spec_needs_review(
            ps.take(k),
            rs,
            reviewer,
        ) + (if needs_review_entry(ps[k], rs, reviewer) {
            seq![ps[k]]
        } else {
            Seq::<PatchV>::empty()
        }));
    }
}

/// The position where a newest-first decision insertion lands is the first
/// index whose entry is older than the inserted one.
proof fn lemma_insert_review_desc_at(s: Seq<PatchReview>, r: PatchReview, pos: int)
    requires
        0 <= pos <= s.len(),
        forall|k: int| 0 <= k < pos ==> s[k].reviewed_at >= r.reviewed_at,
        pos < s.len() ==> s[pos].reviewed_at < r.reviewed_at,
    ensures
        spec_insert_review_desc(s, r) == s.insert(pos, r),
    decreases pos,
{
    if s.len() == 0 {
        assert(spec_insert_review_desc(s, r) =~= s.insert(0, r));
    } else if pos == 0 {
        assert(spec_insert_review_desc(s, r) =~= s.insert(0, r));
    } else {
        lemma_insert_review_desc_at(s.drop_first(), r, pos - 1);
        assert(s.drop_first().insert(pos - 1, r) =~= s.insert(pos, r).drop_first());
        assert(spec_insert_review_desc(s, r) =~= s.insert(pos, r));
    }
}

/// Sorts decisions newest first, keeping the relative order of decisions of
/// equal time.
fn sort_reviews_desc(v: Vec<PatchReview>) -> (r: Vec<PatchReview>)
    ensures
        r@ == spec_sort_reviews_desc(v@),
{
    let mut out: Vec<PatchReview> = Vec::new();
    let n = v.len();
    for i in 0..n
        invariant
            n == v.len(),
            out@ == spec_sort_reviews_desc(v@.take(i as int)),
    {
        let c = v[i].clone();
        let m = out.len();
        let mut pos: usize = 0;
        while pos < m && out[pos].reviewed_at >= c.reviewed_at
            invariant
                m == out.len(),
                pos <= m,
                c == v@[i as int],
                forall|k: int| 0 <= k < pos ==> out@[k].reviewed_at >= c.reviewed_at,
            decreases m - pos,
        {
            pos = pos + 1;
        }
        proof {
            lemma_insert_review_desc_at(out@, c, pos as int);
            assert(v@.take(i + 1).drop_last() =~= v@.take(i as int));
            assert(v@.take(i + 1).last() == v@[i as int]);
        }
        out.insert(pos, c);
    }
    proof {
        assert(v@.take(n as int) =~= v@);
    }
    out
}

/// The position where an oldest-first patch insertion lands is the first
/// index whose entry is younger than the inserted one.
proof fn lemma_insert_patch_asc_at(s: Seq<PatchV>, p: PatchV, pos: int)
    requires
        0 <= pos <= s.len(),
        forall|k: int| 0 <= k < pos ==> s[k].timestamp <= p.timestamp,
        pos < s.len() ==> s[pos].timestamp > p.timestamp,
    ensures
        spec_insert_patch_asc(s, p) == s.insert(pos, p),
    decreases pos,
{
    if s.len() == 0 {
        assert(spec_insert_patch_asc(s, p) =~= s.insert(0, p));
    } else if pos == 0 {
        assert(spec_insert_patch_asc(s, p) =~= s.insert(0, p));
    } else {
        lemma_insert_patch_asc_at(s.drop_first(), p, pos - 1);
        assert(s.drop_first().insert(pos - 1, p) =~= s.insert(pos, p).drop_first());
        assert(spec_insert_patch_asc(s, p) =~= s.insert(pos, p));
    }
}

/// Sorts patches oldest first, keeping the relative order of patches of
/// equal time.
pub fn sort_patches_asc(v: Vec<Patch>) -> (r: Vec<Patch>)
    ensures
        r.deep_view() == spec_sort_patches_asc(v.deep_view()),
{
    let ghost vv = v.deep_view();
    let mut out: Vec<Patch> = Vec::new();
    let n = v.len();
    for i in 0..n
        invariant
            n == v.len(),
            vv == v.deep_view(),
            out.deep_view() == spec_sort_patches_asc(vv.take(i as int)),
    {
        let c = v[i].clone();
        proof {
            assert(c.deep_view() == vv[i as int]);
        }
        let m = out.len();
        let mut pos: usize = 0;
        while pos < m && out[pos].timestamp <= c.timestamp
            invariant
                m == out.len(),
                pos <= m,
                c.deep_view() == vv[i as int],
                forall|k: int|
                    0 <= k < pos ==> (#[trigger] out.deep_view()[k]).timestamp
                        <= c.deep_view().timestamp,
            decreases m - pos,
        {
            proof {
                assert(out.deep_view()[pos as int].timestamp == out@[pos as int].timestamp);
            }
            pos = pos + 1;
        }
        proof {
            assert(pos < m ==> out.deep_view()[pos as int].timestamp
                > c.deep_view().timestamp);
            lemma_insert_patch_asc_at(out.deep_view(), c.deep_view(), pos as int);
            assert(vv.take(i + 1).drop_last() =~= vv.take(i as int));
            assert(vv.take(i + 1).last() == vv[i as int]);
        }
        let ghost pre = out.deep_view();
        out.insert(pos, c);
        proof {
            assert(out.deep_view() =~= pre.insert(pos as int, c.deep_view()));
        }
    }
    proof {
        assert(vv.take(n as int) =~= vv);
    }
    out
}

/// The comment with the given id, if any.
pub open spec fn spec_comment_by_id(cs: Seq<CommentV>, id: i64) -> Option<CommentV> {
    if exists|i: int| 0 <= i < cs.len() && (#[trigger] cs[i]).id == id {
        let i = choose|i: int| 0 <= i < cs.len() && (#[trigger] cs[i]).id == id;
        Some(cs[i])
    } else {
        None
    }
}

/// A comment row with its status replaced.
pub open spec fn comment_with_status(c: CommentV, status: Seq<char>) -> CommentV {
    CommentV {
        id: c.id,
        timestamp: c.timestamp,
        author: c.author,
        author_color: c.author_color,
        start_anchor: c.start_anchor,
        end_anchor: c.end_anchor,
        selected_text: c.selected_text,
        content: c.content,
        status,
        parent_id: c.parent_id,
    }
}

/// What a status change does: the comment with the given id, and every reply
/// to it, gets the new status when `cascade` holds; without `cascade` only
/// the comment itself does.
pub open spec fn spec_set_status(
    cs: Seq<CommentV>,
    id: i64,
    status: Seq<char>,
    cascade: bool,
) -> Seq<CommentV> {
    Seq::new(
        cs.len(),
        |i: int|
            if cs[i].id == id || (cascade && cs[i].parent_id == Some(id)) {
                comment_with_status(cs[i], status)
            } else {
                cs[i]
            },
    )
}

/// What a hard delete does: the comment with the given id, and every reply
/// to it, is removed.
pub open spec fn spec_delete_comments(cs: Seq<CommentV>, id: i64) -> Seq<CommentV>
    decreases cs.len(),
{
    if cs.len() == 0 {
        Seq::empty()
    } else {
        (if cs[0].id == id || cs[0].parent_id == Some(id) {
            Seq::empty()
        } else {
            seq![cs[0]]
        }) + spec_delete_comments(cs.drop_first(), id)
    }
}

/// The comments with one status, or all of them, in storage order.
pub open spec fn spec_comments_filtered(cs: Seq<CommentV>, status: Option<Seq<char>>) -> Seq<
    CommentV,
>
    decreases cs.len(),
{
    if cs.len() == 0 {
        Seq::empty()
    } else {
        (if match status {
            Some(f) => cs[0].status == f,
            None => true,
        } {
            seq![cs[0]]
        } else {
            Seq::empty()
        }) + spec_comments_filtered(cs.drop_first(), status)
    }
}

/// Inserts a comment after every entry no younger than it, keeping an
/// oldest-first list sorted with ties in their old order.
pub open spec fn spec_insert_comment_asc(s: Seq<CommentV>, c: CommentV) -> Seq<CommentV>
    decreases s.len(),
{
    if s.len() == 0 {
        seq![c]
    } else if s[0].timestamp <= c.timestamp {
        seq![s[0]] + spec_insert_comment_asc(s.drop_first(), c)
    } else {
        seq![c] + s
    }
}

/// Sorts comments oldest first; comments of equal time keep their order.
pub open spec fn spec_sort_comments_asc(s: Seq<CommentV>) -> Seq<CommentV>
    decreases s.len(),
{
    if s.len() == 0 {
        Seq::empty()
    } else {
        spec_insert_comment_asc(spec_sort_comments_asc(s.drop_last()), s.last())
    }
}

/// Whether a comment status filter is one of the three known words.
pub open spec fn valid_status_filter(f: Seq<char>) -> bool {
    f == "unresolved"@ || f == "resolved"@ || f == "deleted"@
}

impl History {
    /// Adds a comment with the next local id, in the `"unresolved"` state.
    /// Fails, changing nothing, exactly when the comment id space is
    /// exhausted.
    pub fn add_comment(&mut self, comment: CommentInput, timestamp: i64) -> (r: Result<
        i64,
        String,
    >)
        requires
            old(self).wf(),
        ensures
            final(self).wf(),
            r is Err <==> old(self).next_comment_id == i64::MAX,
            r matches Err(_) ==> *final(self) == *old(self),
            r matches Ok(id) ==> {
                &&& id == old(self).next_comment_id
                &&& final(self).comments.deep_view() == old(self).comments.deep_view().push(
                    CommentV {
                        id,
                        timestamp,
                        author: comment.author@,
                        author_color: comment.author_color.deep_view(),
                        start_anchor: comment.start_anchor@,
                        end_anchor: comment.end_anchor@,
                        selected_text: comment.selected_text@,
                        content: comment.content@,
                        status: "unresolved"@,
                        parent_id: comment.parent_id,
                    },
                )
                &&& final(self).next_comment_id == old(self).next_comment_id + 1
                &&& final(self).patches == old(self).patches
                &&& final(self).snapshots == old(self).snapshots
                &&& final(self).reviews == old(self).reviews
                &&& final(self).next_patch_id == old(self).next_patch_id
                &&& final(self).next_snapshot_id == old(self).next_snapshot_id
            },
    {
        if self.next_comment_id == i64::MAX {
            return Err("comment id space exhausted".to_owned());
        }
        let id = self.next_comment_id;
        let ghost before = self.comments.deep_view();
        let status = "unresolved".to_owned();
        let row = Comment {
            id,
            timestamp,
            author: comment.author,
            author_color: comment.author_color,
            start_anchor: comment.start_anchor,
            end_anchor: comment.end_anchor,
            selected_text: comment.selected_text,
            content: comment.content,
            status,
            parent_id: comment.parent_id,
        };
        let ghost rowv = row.deep_view();
        self.comments.push(row);
        self.next_comment_id = id + 1;
        proof {
            assert(self.comments.deep_view() =~= before.push(rowv));
            let cs = self.comments.deep_view();
            assert forall|a: int, b: int| 0 <= a < b < cs.len() implies cs[a].id < cs[b].id by {
                if b < before.len() {
                    assert(cs[a] == before[a] && cs[b] == before[b]);
                } else {
                    assert(cs[a].id < old(self).next_comment_id);
                }
            }
        }
        Ok(id)
    }

    /// Adds a reply under an existing comment, inheriting the parent's
    /// anchors and selected text. Fails, changing nothing, exactly when the
    /// parent does not exist or the comment id space is exhausted.
    pub fn add_reply(
        &mut self,
        parent_id: i64,
        content: String,
        author: String,
        author_color: Option<String>,
        timestamp: i64,
    ) -> (r: Result<i64, String>)
        requires
            old(self).wf(),
        ensures
            final(self).wf(),
            r is Err <==> (spec_comment_by_id(old(self).comments.deep_view(), parent_id) is None
                || old(self).next_comment_id == i64::MAX),
            r matches Err(_) ==> *final(self) == *old(self),
            r matches Ok(id) ==> {
                &&& id == old(self).next_comment_id
                &&& (spec_comment_by_id(old(self).comments.deep_view(), parent_id) matches Some(
                    parent,
                ) && final(self).comments.deep_view() == old(self).comments.deep_view().push(
                    CommentV {
                        id,
                        timestamp,
                        author: author@,
                        author_color: author_color.deep_view(),
                        start_anchor: parent.start_anchor,
                        end_anchor: parent.end_anchor,
                        selected_text: parent.selected_text,
                        content: content@,
                        status: "unresolved"@,
                        parent_id: Some(parent_id),
                    },
                ))
                &&& final(self).next_comment_id == old(self).next_comment_id + 1
                &&& final(self).patches == old(self).patches
                &&& final(self).snapshots == old(self).snapshots
                &&& final(self).reviews == old(self).reviews
            },
    {
        let ghost cs0 = self.comments.deep_view();
        let at = self.find_comment_by_id(parent_id);
        let idx = match at {
            Some(i) => i,
            None => {
                return Err("parent comment not found".to_owned());
            },
        };
        if self.next_comment_id == i64::MAX {
            return Err("comment id space exhausted".to_owned());
        }
        proof {
            let j = choose|j: int| 0 <= j < cs0.len() && (#[trigger] cs0[j]).id == parent_id;
            if j != idx {
                if j < idx {
                    assert(cs0[j].id < cs0[idx as int].id);
                } else {
                    assert(cs0[idx as int].id < cs0[j].id);
                }
                assert(false);
            }
        }
        let id = self.next_comment_id;
        let ghost before = self.comments.deep_view();
        let status = "unresolved".to_owned();
        let row = Comment {
            id,
            timestamp,
            author,
            author_color,
            start_anchor: self.comments[idx].start_anchor.clone(),
            end_anchor: self.comments[idx].end_anchor.clone(),
            selected_text: self.comments[idx].selected_text.clone(),
            content,
            status,
            parent_id: Some(parent_id),
        };
        let ghost rowv = row.deep_view();
        self.comments.push(row);
        self.next_comment_id = id + 1;
        proof {
            assert(self.comments.deep_view() =~= before.push(rowv));
            let cs = self.comments.deep_view();
            assert forall|a: int, b: int| 0 <= a < b < cs.len() implies cs[a].id < cs[b].id by {
                if b < before.len() {
                    assert(cs[a] == before[a] && cs[b] == before[b]);
                } else {
                    assert(cs[a].id < old(self).next_comment_id);
                }
            }
        }
        Ok(id)
    }

    /// The position of the comment with the given id, if any.
    fn find_comment_by_id(&self, id: i64) -> (r: Option<usize>)
        ensures
            match r {
                Some(i) => i < self.comments@.len() && self.comments.deep_view()[i as int].id
                    == id,
                None => spec_comment_by_id(self.comments.deep_view(), id) is None,
            },
    {
        let n = self.comments.len();
        for i in 0..n
            invariant
                n == self.comments.len(),
                forall|k: int| 0 <= k < i ==> #[trigger] self.comments.deep_view()[k].id != id,
        {
            if self.comments[i].id == id {
                proof {
                    assert(self.comments.deep_view()[i as int].id == id);
                }
                return Some(i);
            }
            proof {
                assert(self.comments.deep_view()[i as int].id != id);
            }
        }
        None
    }

    /// Marks one comment resolved. A missing id changes nothing; the call
    /// still succeeds.
    pub fn resolve_comment(&mut self, comment_id: i64) -> (r: Result<(), String>)
        requires
            old(self).wf(),
        ensures
            final(self).wf(),
            r is Ok,
            final(self).comments.deep_view() == spec_set_status(
                old(self).comments.deep_view(),
                comment_id,
                "resolved"@,
                false,
            ),
            final(self).patches == old(self).patches,
            final(self).snapshots == old(self).snapshots,
            final(self).reviews == old(self).reviews,
            final(self).next_patch_id == old(self).next_patch_id,
            final(self).next_snapshot_id == old(self).next_snapshot_id,
            final(self).next_comment_id == old(self).next_comment_id,
    {
        self.set_comment_status(comment_id, "resolved", false);
        Ok(())
    }

    /// Marks one comment and its replies deleted, keeping the rows. A
    /// missing id changes nothing; the call still succeeds.
    pub fn mark_comment_deleted(&mut self, comment_id: i64) -> (r: Result<(), String>)
        requires
            old(self).wf(),
        ensures
            final(self).wf(),
            r is Ok,
            final(self).comments.deep_view() == spec_set_status(
                old(self).comments.deep_view(),
                comment_id,
                "deleted"@,
                true,
            ),
            final(self).patches == old(self).patches,
            final(self).snapshots == old(self).snapshots,
            final(self).reviews == old(self).reviews,
            final(self).next_patch_id == old(self).next_patch_id,
            final(self).next_snapshot_id == old(self).next_snapshot_id,
            final(self).next_comment_id == old(self).next_comment_id,
    {
        self.set_comment_status(comment_id, "deleted", true);
        Ok(())
    }

    /// Restores one deleted comment and its replies to the unresolved state.
    /// A missing id changes nothing; the call still succeeds.
    pub fn restore_comment(&mut self, comment_id: i64) -> (r: Result<(), String>)
        requires
            old(self).wf(),
        ensures
            final(self).wf(),
            r is Ok,
            final(self).comments.deep_view() == spec_set_status(
                old(self).comments.deep_view(),
                comment_id,
                "unresolved"@,
                true,
            ),
            final(self).patches == old(self).patches,
            final(self).snapshots == old(self).snapshots,
            final(self).reviews == old(self).reviews,
            final(self).next_patch_id == old(self).next_patch_id,
            final(self).next_snapshot_id == old(self).next_snapshot_id,
            final(self).next_comment_id == old(self).next_comment_id,
    {
        self.set_comment_status(comment_id, "unresolved", true);
        Ok(())
    }

    /// Rewrites the status of the comment with the given id, and of its
    /// replies when `cascade` holds.
    fn set_comment_status(&mut self, comment_id: i64, status: &str, cascade: bool)
        requires
            old(self).wf(),
        ensures
            final(self).wf(),
            final(self).comments.deep_view() == spec_set_status(
                old(self).comments.deep_view(),
                comment_id,
                status@,
                cascade,
            ),
            final(self).patches == old(self).patches,
            final(self).snapshots == old(self).snapshots,
            final(self).reviews == old(self).reviews,
            final(self).next_patch_id == old(self).next_patch_id,
            final(self).next_snapshot_id == old(self).next_snapshot_id,
            final(self).next_comment_id == old(self).next_comment_id,
    {
        let ghost cs0 = self.comments.deep_view();
        let mut updated: Vec<Comment> = Vec::new();
        let n = self.comments.len();
        for i in 0..n
            invariant
                n == self.comments.len(),
                cs0 == self.comments.deep_view(),
                updated.deep_view() =~= spec_set_status(cs0, comment_id, status@, cascade).take(
                    i as int,
                ),
        {
            let c = &self.comments[i];
            let hit = c.id == comment_id || (cascade && match &c.parent_id {
                Some(p) => *p == comment_id,
                None => false,
            });
            let row = if hit {
                Comment {
                    id: c.id,
                    timestamp: c.timestamp,
                    author: c.author.clone(),
                    author_color: clone_opt_string(&c.author_color),
                    start_anchor: c.start_anchor.clone(),
                    end_anchor: c.end_anchor.clone(),
                    selected_text: c.selected_text.clone(),
                    content: c.content.clone(),
                    status: status.to_owned(),
                    parent_id: clone_opt_i64(&c.parent_id),
                }
            } else {
                self.comments[i].clone()
            };
            proof {
                assert(row.deep_view() == spec_set_status(cs0, comment_id, status@, cascade)[
                    i as int
                ]);
            }
            let ghost pre = updated.deep_view();
            updated.push(row);
            proof {
                assert(updated.deep_view() =~= pre.push(
                    spec_set_status(cs0, comment_id, status@, cascade)[i as int],
                ));
            }
        }
        self.comments = updated;
        proof {
            assert(self.comments.deep_view() =~= spec_set_status(
                cs0,
                comment_id,
                status@,
                cascade,
            ));
            let cs = self.comments.deep_view();
            assert forall|a: int, b: int| 0 <= a < b < cs.len() implies cs[a].id < cs[b].id by {
                assert(cs[a].id == cs0[a].id && cs[b].id == cs0[b].id);
            }
            assert forall|a: int| 0 <= a < cs.len() implies 1 <= #[trigger] cs[a].id
                < self.next_comment_id by {
                assert(cs[a].id == cs0[a].id);
            }
        }
    }

    /// Removes one comment and its replies outright. A missing id changes
    /// nothing; the call still succeeds.
    pub fn delete_comment(&mut self, comment_id: i64) -> (r: Result<(), String>)
        requires
            old(self).wf(),
        ensures
            final(self).wf(),
            r is Ok,
            final(self).comments.deep_view() == spec_delete_comments(
                old(self).comments.deep_view(),
                comment_id,
            ),
            final(self).patches == old(self).patches,
            final(self).snapshots == old(self).snapshots,
            final(self).reviews == old(self).reviews,
            final(self).next_patch_id == old(self).next_patch_id,
            final(self).next_snapshot_id == old(self).next_snapshot_id,
            final(self).next_comment_id == old(self).next_comment_id,
    {
        let ghost cs0 = self.comments.deep_view();
        let mut kept: Vec<Comment> = Vec::new();
        let n = self.comments.len();
        for i in 0..n
            invariant
                n == self.comments.len(),
                cs0 == self.comments.deep_view(),
                kept.deep_view() == spec_delete_comments(cs0.take(i as int), comment_id),
        {
            proof {
                lemma_delete_comments_take_step(cs0, comment_id, i as int);
            }
            let c = &self.comments[i];
            let hit = c.id == comment_id || (match &c.parent_id {
                Some(p) => *p == comment_id,
                None => false,
            });
            if !hit {
                let row = self.comments[i].clone();
                proof {
                    assert(row.deep_view() == cs0[i as int]);
                }
                let ghost pre = kept.deep_view();
                kept.push(row);
                proof {
                    assert(kept.deep_view() =~= pre.push(cs0[i as int]));
                }
            }
            proof {
                assert(kept.deep_view() =~= spec_delete_comments(cs0.take(i + 1), comment_id));
            }
        }
        proof {
            assert(cs0.take(n as int) =~= cs0);
        }
        self.comments = kept;
        proof {
            lemma_delete_comments_keeps_order(cs0, comment_id);
            let cs = self.comments.deep_view();
            assert forall|a: int| 0 <= a < cs.len() implies 1 <= #[trigger] cs[a].id
                < self.next_comment_id by {
                let j = choose|j: int|
                    0 <= j < cs0.len() && #[trigger] cs0[j] == spec_delete_comments(
                        cs0,
                        comment_id,
                    )[a];
            }
        }
        Ok(())
    }

    /// Lists comments, optionally only those in one state, oldest first with
    /// ties in storage order. Fails exactly when the filter names an unknown
    /// state.
    pub fn list_comments(&self, status_filter: Option<String>) -> (r: Result<Vec<Comment>, String>)
        ensures
            r is Err <==> (status_filter matches Some(f) && !valid_status_filter(f@)),
            r matches Ok(v) ==> v.deep_view() == spec_sort_comments_asc(
                spec_comments_filtered(self.comments.deep_view(), status_filter.deep_view()),
            ),
    {
        match &status_filter {
            Some(f) => {
                if !str_eq(f.as_str(), "unresolved") && !str_eq(f.as_str(), "resolved") && !str_eq(
                    f.as_str(),
                    "deleted",
                ) {
                    return Err(
                        "invalid status filter: must be unresolved, resolved or deleted".to_owned(),
                    );
                }
            },
            None => (),
        }
        let ghost cs = self.comments.deep_view();
        let ghost f = status_filter.deep_view();
        let mut matching: Vec<Comment> = Vec::new();
        let n = self.comments.len();
        for i in 0..n
            invariant
                n == self.comments.len(),
                cs == self.comments.deep_view(),
                f == status_filter.deep_view(),
                matching.deep_view() == spec_comments_filtered(cs.take(i as int), f),
        {
            proof {
                lemma_comments_filtered_take_step(cs, f, i as int);
            }
            let hit = match &status_filter {
                Some(fs) => str_eq(self.comments[i].status.as_str(), fs.as_str()),
                None => true,
            };
            if hit {
                let row = self.comments[i].clone();
                proof {
                    assert(row.deep_view() == cs[i as int]);
                }
                let ghost pre = matching.deep_view();
                matching.push(row);
                proof {
                    assert(matching.deep_view() =~= pre.push(cs[i as int]));
                }
            }
            proof {
                assert(matching.deep_view() =~= spec_comments_filtered(cs.take(i + 1), f));
            }
        }
        proof {
            assert(cs.take(n as int) =~= cs);
        }
        Ok(sort_comments_asc(matching))
    }
}

/// Extending the comment list by one row keeps it in the deletion's output
/// exactly when it survives.
proof fn lemma_delete_comments_take_step(cs: Seq<CommentV>, id: i64, k: int)
    requires
        0 <= k < cs.len(),
    ensures
        spec_delete_comments(cs.take(k + 1), id) == spec_delete_comments(cs.take(k), id) + (
        if cs[k].id == id || cs[k].parent_id == Some(id) {
            Seq::<CommentV>::empty()
        } else {
            seq![cs[k]]
        }),
    decreases k,
{
    if k == 0 {
        assert(cs.take(1) =~= seq![cs[0]]);
        assert(cs.take(1).drop_first() =~= Seq::empty());
        assert(cs.take(0) =~= Seq::empty());
        assert(spec_delete_comments(cs.take(1), id) =~= spec_delete_comments(cs.take(0), id) + (
        if cs[0].id == id || cs[0].parent_id == Some(id) {
            Seq::<CommentV>::empty()
        } else {
            seq![cs[0]]
        }));
    } else {
        lemma_delete_comments_take_step(cs.drop_first(), id, k - 1);
        assert(cs.take(k + 1).drop_first() =~= cs.drop_first().take(k));
        assert(cs.take(k).drop_first() =~= cs.drop_first().take(k - 1));
        assert(cs.take(k + 1)[0] == cs[0]);
        assert(cs.take(k)[0] == cs[0]);
        assert(cs.drop_first()[k - 1] == cs[k]);
        assert(spec_delete_comments(cs.take(k + 1), id) =~= spec_delete_comments(cs.take(k), id)
            + (if cs[k].id == id || cs[k].parent_id == Some(id) {
            Seq::<CommentV>::empty()
        } else {
            seq![cs[k]]
        }));
    }
}

/// Deleting keeps the surviving comments in order: every surviving row comes
/// from the input list, and ids stay strictly increasing.
proof fn lemma_delete_comments_keeps_order(cs: Seq<CommentV>, id: i64)
    requires
        forall|a: int, b: int| 0 <= a < b < cs.len() ==> cs[a].id < cs[b].id,
    ensures
        forall|a: int, b: int|
            0 <= a < b < spec_delete_comments(cs, id).len() ==> spec_delete_comments(cs, id)[a].id
                < spec_delete_comments(cs, id)[b].id,
        forall|a: int|
            0 <= a < spec_delete_comments(cs, id).len() ==> exists|j: int|
                0 <= j < cs.len() && #[trigger] cs[j] == #[trigger] spec_delete_comments(
                    cs,
                    id,
                )[a],
    decreases cs.len(),
{
    if cs.len() > 0 {
        assert(forall|a: int, b: int|
            0 <= a < b < cs.drop_first().len() ==> cs.drop_first()[a].id < cs.drop_first()[b].id);
        lemma_delete_comments_keeps_order(cs.drop_first(), id);
        let rest = spec_delete_comments(cs.drop_first(), id);
        let out = spec_delete_comments(cs, id);
        assert forall|a: int| #![trigger rest[a]]
            0 <= a < rest.len() implies exists|j: int|
            0 <= j < cs.len() && #[trigger] cs[j] == rest[a] by {
            let j0 = choose|j0: int|
                0 <= j0 < cs.drop_first().len() && #[trigger] cs.drop_first()[j0] == rest[a];
            assert(cs[j0 + 1] == rest[a]);
        }
        if cs[0].id == id || cs[0].parent_id == Some(id) {
            assert(out =~= rest);
        } else {
            assert(out =~= seq![cs[0]] + rest);
            assert forall|a: int, b: int| 0 <= a < b < out.len() implies out[a].id
                < out[b].id by {
                if a == 0 {
                    assert(out[0] == cs[0]);
                    assert(out[b] == rest[b - 1]);
                    let j = choose|j: int|
                        0 <= j < cs.drop_first().len() && #[trigger] cs.drop_first()[j] == rest[b
                            - 1];
                    assert(cs[j + 1] == rest[b - 1]);
                    assert(cs[0].id < cs[j + 1].id);
                } else {
                    assert(out[a] == rest[a - 1] && out[b] == rest[b - 1]);
                }
            }
            assert forall|a: int| #![trigger out[a]]
                0 <= a < out.len() implies exists|j: int|
                0 <= j < cs.len() && #[trigger] cs[j] == out[a] by {
                if a == 0 {
                    assert(cs[0] == out[0]);
                } else {
                    assert(out[a] == rest[a - 1]);
                    let j = choose|j: int|
                        0 <= j < cs.len() && #[trigger] cs[j] == rest[a - 1];
                }
            }
        }
    }
}

/// Extending the comment list by one row appends it to the filtered listing
/// when its status matches.
proof fn lemma_comments_filtered_take_step(cs: Seq<CommentV>, f: Option<Seq<char>>, k: int)
    requires
        0 <= k < cs.len(),
    ensures
        spec_comments_filtered(cs.take(k + 1), f) == spec_comments_filtered(cs.take(k), f) + (
        if match f {
            Some(fs) => cs[k].status == fs,
            None => true,
        } {
            seq![cs[k]]
        } else {
            Seq::<CommentV>::empty()
        }),
    decreases k,
{
    if k == 0 {
        assert(cs.take(1) =~= seq![cs[0]]);
        assert(cs.take(1).drop_first() =~= Seq::empty());
        assert(cs.take(0) =~= Seq::empty());
        assert(spec_comments_filtered(cs.take(1), f) =~= spec_comments_filtered(cs.take(0), f) + (
        if match f {
            Some(fs) => cs[0].status == fs,
            None => true,
        } {
            seq![cs[0]]
        } else {
            Seq::<CommentV>::empty()
        }));
    } else {
        lemma_comments_filtered_take_step(cs.drop_first(), f, k - 1);
        assert(cs.take(k + 1).drop_first() =~= cs.drop_first().take(k));
        assert(cs.take(k).drop_first() =~= cs.drop_first().take(k - 1));
        assert(cs.take(k + 1)[0] == cs[0]);
        assert(cs.take(k)[0] == cs[0]);
        assert(cs.drop_first()[k - 1] == cs[k]);
        assert(spec_comments_filtered(cs.take(k + 1), f) =~= spec_comments_filtered(
            cs.take(k),
            f,
        ) + (if match f {
            Some(fs) => cs[k].status == fs,
            None => true,
        } {
            seq![cs[k]]
        } else {
            Seq::<CommentV>::empty()
        }));
    }
}

/// Whether a decision list is ordered newest first.
pub open spec fn reviews_newest_first(s: Seq<PatchReview>) -> bool {
    forall|a: int, b: int| 0 <= a < b < s.len() ==> s[a].reviewed_at >= s[b].reviewed_at
}

/// A newest-first decision insertion keeps the list sorted, and introduces
/// no entry beyond the inserted one.
proof fn lemma_insert_review_desc_sorted(s: Seq<PatchReview>, r: PatchReview)
    requires
        reviews_newest_first(s),
    ensures
        reviews_newest_first(spec_insert_review_desc(s, r)),
        forall|k: int|
            0 <= k < spec_insert_review_desc(s, r).len() ==> (#[trigger] spec_insert_review_desc(
                s,
                r,
            )[k] == r || exists|j: int|
                0 <= j < s.len() && #[trigger] s[j] == spec_insert_review_desc(s, r)[k]),
    decreases s.len(),
{
    let out = spec_insert_review_desc(s, r);
    if s.len() == 0 {
        assert(out =~= seq![r]);
    } else if s[0].reviewed_at >= r.reviewed_at {
        assert(forall|a: int, b: int|
            0 <= a < b < s.drop_first().len() ==> s.drop_first()[a].reviewed_at
                >= s.drop_first()[b].reviewed_at);
        lemma_insert_review_desc_sorted(s.drop_first(), r);
        let rest = spec_insert_review_desc(s.drop_first(), r);
        assert(out =~= seq![s[0]] + rest);
        assert forall|a: int, b: int| 0 <= a < b < out.len() implies out[a].reviewed_at
            >= out[b].reviewed_at by {
            if a == 0 {
                assert(out[b] == rest[b - 1]);
                if rest[b - 1] != r {
                    let j = choose|j: int|
                        0 <= j < s.drop_first().len() && #[trigger] s.drop_first()[j] == rest[b
                            - 1];
                    assert(s[j + 1] == rest[b - 1]);
                    assert(s[0].reviewed_at >= s[j + 1].reviewed_at);
                }
            } else {
                assert(out[a] == rest[a - 1] && out[b] == rest[b - 1]);
            }
        }
        assert forall|k: int|
            0 <= k < out.len() implies (#[trigger] out[k] == r || exists|j: int|
            0 <= j < s.len() && #[trigger] s[j] == out[k]) by {
            if k == 0 {
                assert(s[0] == out[0]);
            } else {
                assert(out[k] == rest[k - 1]);
                if rest[k - 1] != r {
                    let j = choose|j: int|
                        0 <= j < s.drop_first().len() && #[trigger] s.drop_first()[j] == rest[k
                            - 1];
                    assert(s[j + 1] == out[k]);
                }
            }
        }
    } else {
        assert(out =~= seq![r] + s);
        assert forall|a: int, b: int| 0 <= a < b < out.len() implies out[a].reviewed_at
            >= out[b].reviewed_at by {
            if a == 0 {
                assert(out[b] == s[b - 1]);
                if b > 1 {
                    assert(s[0].reviewed_at >= s[b - 1].reviewed_at);
                }
            } else {
                assert(out[a] == s[a - 1] && out[b] == s[b - 1]);
            }
        }
        assert forall|k: int|
            0 <= k < out.len() implies (#[trigger] out[k] == r || exists|j: int|
            0 <= j < s.len() && #[trigger] s[j] == out[k]) by {
            if k > 0 {
                assert(s[k - 1] == out[k]);
            }
        }
    }
}

/// Law: a patch's decision listing is ordered newest first.
pub proof fn lemma_sort_reviews_desc_sorted(s: Seq<PatchReview>)
    ensures
        reviews_newest_first(spec_sort_reviews_desc(s)),
    decreases s.len(),
{
    if s.len() > 0 {
        lemma_sort_reviews_desc_sorted(s.drop_last());
        lemma_insert_review_desc_sorted(spec_sort_reviews_desc(s.drop_last()), s.last());
    }
}

/// Whether a comment list is ordered oldest first.
pub open spec fn comments_oldest_first(s: Seq<CommentV>) -> bool {
    forall|a: int, b: int| 0 <= a < b < s.len() ==> s[a].timestamp <= s[b].timestamp
}

/// An oldest-first comment insertion keeps the list sorted, and introduces
/// no entry beyond the inserted one.
proof fn lemma_insert_comment_asc_sorted(s: Seq<CommentV>, c: CommentV)
    requires
        comments_oldest_first(s),
    ensures
        comments_oldest_first(spec_insert_comment_asc(s, c)),
        forall|k: int|
            0 <= k < spec_insert_comment_asc(s, c).len() ==> (#[trigger] spec_insert_comment_asc(
                s,
                c,
            )[k] == c || exists|j: int|
                0 <= j < s.len() && #[trigger] s[j] == spec_insert_comment_asc(s, c)[k]),
    decreases s.len(),
{
    let out = spec_insert_comment_asc(s, c);
    if s.len() == 0 {
        assert(out =~= seq![c]);
    } else if s[0].timestamp <= c.timestamp {
        assert(forall|a: int, b: int|
            0 <= a < b < s.drop_first().len() ==> s.drop_first()[a].timestamp
                <= s.drop_first()[b].timestamp);
        lemma_insert_comment_asc_sorted(s.drop_first(), c);
        let rest = spec_insert_comment_asc(s.drop_first(), c);
        assert(out =~= seq![s[0]] + rest);
        assert forall|a: int, b: int| 0 <= a < b < out.len() implies out[a].timestamp
            <= out[b].timestamp by {
            if a == 0 {
                assert(out[b] == rest[b - 1]);
                if rest[b - 1] != c {
                    let j = choose|j: int|
                        0 <= j < s.drop_first().len() && #[trigger] s.drop_first()[j] == rest[b
                            - 1];
                    assert(s[j + 1] == rest[b - 1]);
                    assert(s[0].timestamp <= s[j + 1].timestamp);
                }
            } else {
                assert(out[a] == rest[a - 1] && out[b] == rest[b - 1]);
            }
        }
        assert forall|k: int|
            0 <= k < out.len() implies (#[trigger] out[k] == c || exists|j: int|
            0 <= j < s.len() && #[trigger] s[j] == out[k]) by {
            if k == 0 {
                assert(s[0] == out[0]);
            } else {
                assert(out[k] == rest[k - 1]);
                if rest[k - 1] != c {
                    let j = choose|j: int|
                        0 <= j < s.drop_first().len() && #[trigger] s.drop_first()[j] == rest[k
                            - 1];
                    assert(s[j + 1] == out[k]);
                }
            }
        }
    } else {
        assert(out =~= seq![c] + s);
        assert forall|a: int, b: int| 0 <= a < b < out.len() implies out[a].timestamp
            <= out[b].timestamp by {
            if a == 0 {
                assert(out[b] == s[b - 1]);
                if b > 1 {
                    assert(s[0].timestamp <= s[b - 1].timestamp);
                }
            } else {
                assert(out[a] == s[a - 1] && out[b] == s[b - 1]);
            }
        }
        assert forall|k: int|
            0 <= k < out.len() implies (#[trigger] out[k] == c || exists|j: int|
            0 <= j < s.len() && #[trigger] s[j] == out[k]) by {
            if k > 0 {
                assert(s[k - 1] == out[k]);
            }
        }
    }
}

/// Law: a comment listing is ordered oldest first.
pub proof fn lemma_sort_comments_asc_sorted(s: Seq<CommentV>)
    ensures
        comments_oldest_first(spec_sort_comments_asc(s)),
    decreases s.len(),
{
    if s.len() > 0 {
        lemma_sort_comments_asc_sorted(s.drop_last());
        lemma_insert_comment_asc_sorted(spec_sort_comments_asc(s.drop_last()), s.last());
    }
}

/// The position where an oldest-first comment insertion lands is the first
/// index whose entry is younger than the inserted one.
proof fn lemma_insert_comment_asc_at(s: Seq<CommentV>, c: CommentV, pos: int)
    requires
        0 <= pos <= s.len(),
        forall|k: int| 0 <= k < pos ==> s[k].timestamp <= c.timestamp,
        pos < s.len() ==> s[pos].timestamp > c.timestamp,
    ensures
        spec_insert_comment_asc(s, c) == s.insert(pos, c),
    decreases pos,
{
    if s.len() == 0 {
        assert(spec_insert_comment_asc(s, c) =~= s.insert(0, c));
    } else if pos == 0 {
        assert(spec_insert_comment_asc(s, c) =~= s.insert(0, c));
    } else {
        lemma_insert_comment_asc_at(s.drop_first(), c, pos - 1);
        assert(s.drop_first().insert(pos - 1, c) =~= s.insert(pos, c).drop_first());
        assert(spec_insert_comment_asc(s, c) =~= s.insert(pos, c));
    }
}

/// Sorts comments oldest first, keeping the relative order of comments of
/// equal time.
fn sort_comments_asc(v: Vec<Comment>) -> (r: Vec<Comment>)
    ensures
        r.deep_view() == spec_sort_comments_asc(v.deep_view()),
{
    let ghost vv = v.deep_view();
    let mut out: Vec<Comment> = Vec::new();
    let n = v.len();
    for i in 0..n
        invariant
            n == v.len(),
            vv == v.deep_view(),
            out.deep_view() == spec_sort_comments_asc(vv.take(i as int)),
    {
        let c = v[i].clone();
        proof {
            assert(c.deep_view() == vv[i as int]);
        }
        let m = out.len();
        let mut pos: usize = 0;
        while pos < m && out[pos].timestamp <= c.timestamp
            invariant
                m == out.len(),
                pos <= m,
                c.deep_view() == vv[i as int],
                forall|k: int|
                    0 <= k < pos ==> (#[trigger] out.deep_view()[k]).timestamp
                        <= c.deep_view().timestamp,
            decreases m - pos,
        {
            proof {
                assert(out.deep_view()[pos as int].timestamp == out@[pos as int].timestamp);
            }
            pos = pos + 1;
        }
        proof {
            assert(pos < m ==> out.deep_view()[pos as int].timestamp > c.deep_view().timestamp);
            lemma_insert_comment_asc_at(out.deep_view(), c.deep_view(), pos as int);
            assert(vv.take(i + 1).drop_last() =~= vv.take(i as int));
            assert(vv.take(i + 1).last() == vv[i as int]);
        }
        let ghost pre = out.deep_view();
        out.insert(pos, c);
        proof {
            assert(out.deep_view() =~= pre.insert(pos as int, c.deep_view()));
        }
    }
    proof {
        assert(vv.take(n as int) =~= vv);
    }
    out
}

/// Law: recording one decision and then another for the same
/// `(patch uuid, approver)` key leaves exactly one row with that key, and it
/// holds the second decision. In particular, recording `"rejected"` and then
/// `"accepted"` leaves exactly one row, with decision `"accepted"`.
pub proof fn lemma_review_upsert_overwrites(s: Seq<PatchReview>, r1: PatchReview, r2: PatchReview)
    requires
        reviews_unique(s),
        r1.patch_uuid@ == r2.patch_uuid@,
        r1.reviewer_id@ == r2.reviewer_id@,
    ensures
        ({
            let t = spec_upsert_review(spec_upsert_review(s, r1), r2);
            exists|k: int|
                0 <= k < t.len() && #[trigger] t[k] == r2 && forall|m: int|
                    0 <= m < t.len() && m != k ==> !((#[trigger] t[m]).patch_uuid@
                        == r2.patch_uuid@ && t[m].reviewer_id@ == r2.reviewer_id@)
        }),
{
    let s1 = spec_upsert_review(s, r1);
    lemma_upsert_review_unique(s, r1);
    assert(s1.last() == r1);
    assert(s1[s1.len() - 1] == r1);
    assert(has_review_key(s1, r2.patch_uuid@, r2.reviewer_id@));
    let j = choose|j: int|
        0 <= j < s1.len() && (#[trigger] s1[j]).patch_uuid@ == r2.patch_uuid@ && s1[
            j
        ].reviewer_id@ == r2.reviewer_id@;
    let t = s1.remove(j).push(r2);
    assert(spec_upsert_review(s1, r2) == t);
    let k = t.len() - 1;
    assert(t[k] == r2);
    assert forall|m: int| 0 <= m < t.len() && m != k implies !((#[trigger] t[m]).patch_uuid@
        == r2.patch_uuid@ && t[m].reviewer_id@ == r2.reviewer_id@) by {
        let m0 = if m < j {
            m
        } else {
            m + 1
        };
        assert(t[m] == s1[m0]);
        if s1[m0].patch_uuid@ == r2.patch_uuid@ && s1[m0].reviewer_id@ == r2.reviewer_id@ {
            assert(m0 == j);
            assert(false);
        }
    }
}

/// An upsert keeps decision keys unique.
proof fn lemma_upsert_review_unique(s0: Seq<PatchReview>, row: PatchReview)
    requires
        reviews_unique(s0),
    ensures
        reviews_unique(spec_upsert_review(s0, row)),
{
    let s1 = spec_upsert_review(s0, row);
    if has_review_key(s0, row.patch_uuid@, row.reviewer_id@) {
        let i = choose|i: int|
            0 <= i < s0.len() && (#[trigger] s0[i]).patch_uuid@ == row.patch_uuid@
                && s0[i].reviewer_id@ == row.reviewer_id@;
        assert forall|a: int, b: int|
            0 <= a < s1.len() && 0 <= b < s1.len() && a != b implies !((
        #[trigger] s1[a]).patch_uuid@ == (#[trigger] s1[b]).patch_uuid@ && s1[a].reviewer_id@
            == s1[b].reviewer_id@) by {
            if a < s1.len() - 1 && b < s1.len() - 1 {
                let a0 = if a < i {
                    a
                } else {
                    a + 1
                };
                let b0 = if b < i {
                    b
                } else {
                    b + 1
                };
                assert(s1[a] == s0[a0]);
                assert(s1[b] == s0[b0]);
            } else if a == s1.len() - 1 {
                let b0 = if b < i {
                    b
                } else {
                    b + 1
                };
                assert(s1[b] == s0[b0]);
                assert(s1[a] == row);
                if s0[b0].patch_uuid@ == row.patch_uuid@ && s0[b0].reviewer_id@
                    == row.reviewer_id@ {
                    assert(b0 == i);
                    assert(false);
                }
            } else {
                let a0 = if a < i {
                    a
                } else {
                    a + 1
                };
                assert(s1[a] == s0[a0]);
                assert(s1[b] == row);
                if s0[a0].patch_uuid@ == row.patch_uuid@ && s0[a0].reviewer_id@
                    == row.reviewer_id@ {
                    assert(a0 == i);
                    assert(false);
                }
            }
        }
    } else {
        assert forall|a: int, b: int|
            0 <= a < s1.len() && 0 <= b < s1.len() && a != b implies !((
        #[trigger] s1[a]).patch_uuid@ == (#[trigger] s1[b]).patch_uuid@ && s1[a].reviewer_id@
            == s1[b].reviewer_id@) by {
            if a < s0.len() && b < s0.len() {
                assert(s1[a] == s0[a]);
                assert(s1[b] == s0[b]);
            } else if a == s0.len() {
                assert(s1[b] == s0[b]);
                assert(s1[a] == row);
                if s0[b].patch_uuid@ == row.patch_uuid@ && s0[b].reviewer_id@
                    == row.reviewer_id@ {
                    assert(has_review_key(s0, row.patch_uuid@, row.reviewer_id@));
                    assert(false);
                }
            } else {
                assert(s1[a] == s0[a]);
                assert(s1[b] == row);
                if s0[a].patch_uuid@ == row.patch_uuid@ && s0[a].reviewer_id@
                    == row.reviewer_id@ {
                    assert(has_review_key(s0, row.patch_uuid@, row.reviewer_id@));
                    assert(false);
                }
            }
        }
    }
}

/// Every patch in a pending-approval listing is authored by someone else.
proof fn lemma_needs_review_filter_excludes(
    ps: Seq<PatchV>,
    rs: Seq<PatchReview>,
    reviewer: Seq<char>,
)
    ensures
        forall|k: int|
            0 <= k < spec_needs_review(ps, rs, reviewer).len() ==> (#[trigger] spec_needs_review(
                ps,
                rs,
                reviewer,
            )[k]).author != reviewer,
    decreases ps.len(),
{
    if ps.len() > 0 {
        lemma_needs_review_filter_excludes(ps.drop_first(), rs, reviewer);
    }
}

/// An oldest-first insertion of a patch by another author keeps the listing
/// free of the approver's own patches.
proof fn lemma_insert_patch_asc_excludes(s: Seq<PatchV>, p: PatchV, reviewer: Seq<char>)
    requires
        forall|k: int| 0 <= k < s.len() ==> (#[trigger] s[k]).author != reviewer,
        p.author != reviewer,
    ensures
        forall|k: int|
            0 <= k < spec_insert_patch_asc(s, p).len() ==> (#[trigger] spec_insert_patch_asc(
                s,
                p,
            )[k]).author != reviewer,
    decreases s.len(),
{
    if s.len() == 0 {
    } else if s[0].timestamp <= p.timestamp {
        assert(forall|k: int|
            0 <= k < s.drop_first().len() ==> (#[trigger] s.drop_first()[k]).author != reviewer);
        lemma_insert_patch_asc_excludes(s.drop_first(), p, reviewer);
        let t = seq![s[0]] + spec_insert_patch_asc(s.drop_first(), p);
        assert forall|k: int| 0 <= k < t.len() implies (#[trigger] t[k]).author != reviewer by {
            if k == 0 {
                assert(t[0] == s[0]);
            } else {
                assert(t[k] == spec_insert_patch_asc(s.drop_first(), p)[k - 1]);
            }
        }
    } else {
        let t = seq![p] + s;
        assert forall|k: int| 0 <= k < t.len() implies (#[trigger] t[k]).author != reviewer by {
            if k == 0 {
                assert(t[0] == p);
            } else {
                assert(t[k] == s[k - 1]);
            }
        }
    }
}

/// Sorting keeps a listing free of the approver's own patches.
proof fn lemma_sort_patches_asc_excludes(s: Seq<PatchV>, reviewer: Seq<char>)
    requires
        forall|k: int| 0 <= k < s.len() ==> (#[trigger] s[k]).author != reviewer,
    ensures
        forall|k: int|
            0 <= k < spec_sort_patches_asc(s).len() ==> (#[trigger] spec_sort_patches_asc(
                s,
            )[k]).author != reviewer,
    decreases s.len(),
{
    if s.len() > 0 {
        assert(forall|k: int|
            0 <= k < s.drop_last().len() ==> (#[trigger] s.drop_last()[k]).author != reviewer);
        lemma_sort_patches_asc_excludes(s.drop_last(), reviewer);
        assert(s.last().author != reviewer);
        lemma_insert_patch_asc_excludes(spec_sort_patches_asc(s.drop_last()), s.last(), reviewer);
    }
}

/// Law: a patch authored by the querying approver never appears in their own
/// pending-approval listing, even if nobody has decided it.
pub proof fn lemma_needs_review_excludes_author(
    ps: Seq<PatchV>,
    rs: Seq<PatchReview>,
    reviewer: Seq<char>,
)
    ensures
        ({
            let listing = spec_sort_patches_asc(spec_needs_review(ps, rs, reviewer));
            forall|k: int|
                0 <= k < listing.len() ==> (#[trigger] listing[k]).author != reviewer
        }),
{
    lemma_needs_review_filter_excludes(ps, rs, reviewer);
    lemma_sort_patches_asc_excludes(spec_needs_review(ps, rs, reviewer), reviewer);
}

/// Pushing a patch with the next id and a fresh uuid keeps a history well
/// formed.
pub(crate) proof fn lemma_wf_after_patch_push(before: History, after: History)
    requires
        before.wf(),
        after.patches.deep_view().len() == before.patches.deep_view().len() + 1,
        after.patches.deep_view().take(before.patches.deep_view().len() as int)
            == before.patches.deep_view(),
        after.patches.deep_view().last().id == before.next_patch_id,
        after.patches.deep_view().last().uuid matches Some(u) && !has_patch_uuid(
            before.patches.deep_view(),
            u,
        ),
        after.next_patch_id == before.next_patch_id + 1,
        after.snapshots == before.snapshots,
        after.reviews == before.reviews,
        after.comments == before.comments,
        after.next_snapshot_id == before.next_snapshot_id,
        after.next_comment_id == before.next_comment_id,
    ensures
        after.wf(),
{
    let ps0 = before.patches.deep_view();
    let ps = after.patches.deep_view();
    let n = ps0.len() as int;
    assert(forall|i: int| 0 <= i < n ==> ps[i] == ps0[i]);
    assert forall|i: int| 0 <= i < ps.len() implies 1 <= #[trigger] ps[i].id
        < after.next_patch_id by {
        if i < n {
            assert(ps[i] == ps0[i]);
        }
    }
    assert forall|i: int, j: int| 0 <= i < j < ps.len() implies ps[i].id < ps[j].id by {
        if j < n {
            assert(ps0[i].id < ps0[j].id);
        } else {
            assert(ps[i].id < before.next_patch_id);
        }
    }
    assert forall|i: int, j: int|
        0 <= i < ps.len() && 0 <= j < ps.len() && i != j && ps[i].uuid is Some implies ps[i].uuid
        != ps[j].uuid by {
        if i < n && j < n {
            assert(ps0[i].uuid is Some ==> ps0[i].uuid != ps0[j].uuid);
            if ps0[j].uuid is Some {
                assert(ps0[j].uuid != ps0[i].uuid);
            }
        } else if i == n {
            assert(!has_patch_uuid(ps0, ps[i].uuid->Some_0));
            assert(ps[j] == ps0[j]);
            if ps[j].uuid == ps[i].uuid {
                assert(has_patch_uuid(ps0, ps[i].uuid->Some_0));
            }
        } else {
            assert(j == n);
            assert(ps[i] == ps0[i]);
            if ps[i].uuid == ps[j].uuid {
                assert(has_patch_uuid(ps0, ps[j].uuid->Some_0));
            }
        }
    }
    assert forall|i: int| 0 <= i < after.snapshots.deep_view().len() implies has_patch_id(
        ps,
        (#[trigger] after.snapshots.deep_view()[i]).patch_id,
    ) by {
        assert(has_patch_id(ps0, before.snapshots.deep_view()[i].patch_id));
        let k = choose|k: int|
            0 <= k < ps0.len() && #[trigger] ps0[k].id == before.snapshots.deep_view()[
                i
            ].patch_id;
        assert(ps[k].id == after.snapshots.deep_view()[i].patch_id);
    }
}

/// Pushing a snapshot with the next id for an existing patch keeps a history
/// well formed.
pub(crate) proof fn lemma_wf_after_snapshot_push(before: History, after: History)
    requires
        before.wf(),
        after.snapshots.deep_view().len() == before.snapshots.deep_view().len() + 1,
        after.snapshots.deep_view().take(before.snapshots.deep_view().len() as int)
            == before.snapshots.deep_view(),
        after.snapshots.deep_view().last().id == before.next_snapshot_id,
        has_patch_id(before.patches.deep_view(), after.snapshots.deep_view().last().patch_id),
        after.next_snapshot_id == before.next_snapshot_id + 1,
        after.patches == before.patches,
        after.reviews == before.reviews,
        after.comments == before.comments,
        after.next_patch_id == before.next_patch_id,
        after.next_comment_id == before.next_comment_id,
    ensures
        after.wf(),
{
    let ss0 = before.snapshots.deep_view();
    let ss = after.snapshots.deep_view();
    let n = ss0.len() as int;
    assert(forall|i: int| 0 <= i < n ==> ss[i] == ss0[i]);
    assert forall|i: int| 0 <= i < ss.len() implies 1 <= #[trigger] ss[i].id
        < after.next_snapshot_id by {
        if i < n {
            assert(ss[i] == ss0[i]);
        }
    }
    assert forall|i: int, j: int| 0 <= i < j < ss.len() implies ss[i].id < ss[j].id by {
        if j < n {
            assert(ss0[i].id < ss0[j].id);
        } else {
            assert(ss[i].id < before.next_snapshot_id);
        }
    }
    assert forall|i: int| 0 <= i < ss.len() implies has_patch_id(
        after.patches.deep_view(),
        (#[trigger] ss[i]).patch_id,
    ) by {
        if i < n {
            assert(ss[i] == ss0[i]);
            assert(has_patch_id(before.patches.deep_view(), ss0[i].patch_id));
        }
    }
}


/// Assigns a freshly drawn identity to every patch that still lacks one, as
/// the migration of a legacy history does. Fails, leaving the earlier rows
/// already migrated, only if a drawn identity collides with an existing one.
pub fn ensure_uuids(history: &mut History) -> (r: Result<(), String>)
    requires
        old(history).wf(),
    ensures
        final(history).wf(),
        final(history).patches@.len() == old(history).patches@.len(),
        forall|i: int|
            0 <= i < old(history).patches.deep_view().len() && (
            #[trigger] old(history).patches.deep_view()[i]).uuid is Some
                ==> final(history).patches.deep_view()[i] == old(history).patches.deep_view()[i],
        forall|i: int|
            0 <= i < old(history).patches.deep_view().len() ==> {
                let p0 = #[trigger] old(history).patches.deep_view()[i];
                let p1 = final(history).patches.deep_view()[i];
                p1.id == p0.id && p1.timestamp == p0.timestamp && p1.author == p0.author
                    && p1.kind == p0.kind && p1.data == p0.data && p1.parent_uuid
                    == p0.parent_uuid
            },
        r is Ok ==> forall|i: int|
            0 <= i < final(history).patches.deep_view().len()
                ==> (#[trigger] final(history).patches.deep_view()[i]).uuid is Some,
        final(history).snapshots == old(history).snapshots,
        final(history).reviews == old(history).reviews,
        final(history).comments == old(history).comments,
        final(history).next_patch_id == old(history).next_patch_id,
        final(history).next_snapshot_id == old(history).next_snapshot_id,
        final(history).next_comment_id == old(history).next_comment_id,
{
    let ghost ps0 = history.patches.deep_view();
    let n = history.patches.len();
    let mut i: usize = 0;
    while i < n
        invariant
            n == history.patches.len(),
            i <= n,
            history.wf(),
            ps0 == old(history).patches.deep_view(),
            ps0.len() == n as int,
            forall|k: int|
                0 <= k < n as int && (#[trigger] ps0[k]).uuid is Some
                    ==> history.patches.deep_view()[k] == ps0[k],
            forall|k: int|
                0 <= k < n as int ==> {
                    let p0 = #[trigger] ps0[k];
                    let p1 = history.patches.deep_view()[k];
                    p1.id == p0.id && p1.timestamp == p0.timestamp && p1.author == p0.author
                        && p1.kind == p0.kind && p1.data == p0.data && p1.parent_uuid
                        == p0.parent_uuid
                },
            forall|k: int|
                0 <= k < i ==> (#[trigger] history.patches.deep_view()[k]).uuid is Some,
            history.snapshots == old(history).snapshots,
            history.reviews == old(history).reviews,
            history.comments == old(history).comments,
            history.next_patch_id == old(history).next_patch_id,
            history.next_snapshot_id == old(history).next_snapshot_id,
            history.next_comment_id == old(history).next_comment_id,
        decreases n - i,
    {
        let needs_one = history.patches[i].uuid.is_none();
        if needs_one {
            let fresh = new_uuid_string();
            if history.find_patch_by_uuid(fresh.as_str()).is_some() {
                return Err("a freshly drawn uuid collides with an existing one".to_owned());
            }
            let ghost before = *history;
            let old_row = history.patches.remove(i);
            let new_row = Patch {
                id: old_row.id,
                timestamp: old_row.timestamp,
                author: old_row.author,
                kind: old_row.kind,
                data: old_row.data,
                uuid: Some(fresh),
                parent_uuid: old_row.parent_uuid,
            };
            let ghost new_rowv = new_row.deep_view();
            history.patches.insert(i, new_row);
            proof {
                assert(history.patches.deep_view() =~= before.patches.deep_view().update(
                    i as int,
                    new_rowv,
                ));
                let ps = history.patches.deep_view();
                let psb = before.patches.deep_view();
                assert forall|a: int, b: int|
                    0 <= a < ps.len() && 0 <= b < ps.len() && a != b && ps[a].uuid is Some implies
                    ps[a].uuid != ps[b].uuid by {
                    if a != i && b != i {
                        assert(ps[a] == psb[a] && ps[b] == psb[b]);
                    } else if a == i {
                        assert(ps[b] == psb[b]);
                        if ps[b].uuid == ps[a].uuid {
                            assert(has_patch_uuid(psb, new_rowv.uuid->Some_0));
                        }
                    } else {
                        assert(ps[a] == psb[a]);
                        if ps[a].uuid == ps[b].uuid {
                            assert(has_patch_uuid(psb, new_rowv.uuid->Some_0));
                        }
                    }
                }
                assert forall|a: int, b: int| 0 <= a < b < ps.len() implies ps[a].id
                    < ps[b].id by {
                    assert(ps[a].id == psb[a].id && ps[b].id == psb[b].id);
                }
                assert forall|a: int| 0 <= a < ps.len() implies 1 <= (#[trigger] ps[a]).id
                    < history.next_patch_id by {
                    assert(ps[a].id == psb[a].id);
                }
                assert forall|a: int|
                    0 <= a < history.snapshots.deep_view().len() implies has_patch_id(
                    ps,
                    (#[trigger] history.snapshots.deep_view()[a]).patch_id,
                ) by {
                    assert(has_patch_id(psb, history.snapshots.deep_view()[a].patch_id));
                    let w = choose|w: int|
                        0 <= w < psb.len() && (#[trigger] psb[w]).id
                            == history.snapshots.deep_view()[a].patch_id;
                    assert(ps[w].id == history.snapshots.deep_view()[a].patch_id);
                }
            }
        }
        i = i + 1;
    }
    Ok(())
}

/// One encoded optional position: its decimal digits, or nothing.
pub open spec fn spec_encode_opt_num(v: Option<usize>) -> Seq<u8> {
    match v {
        Some(n) => encode_utf8(spec_dec_nat(n as nat)),
        None => Seq::empty(),
    }
}

/// One encoded optional text: its UTF-8 bytes, or nothing.
pub open spec fn spec_encode_opt_text(v: Option<Seq<char>>) -> Seq<u8> {
    match v {
        Some(t) => encode_utf8(t),
        None => Seq::empty(),
    }
}

/// One operation record, encoded canonically: its fields in order, separated
/// by unit separators and closed by a record separator.
pub open spec fn spec_encode_op(op: OpRecordV) -> Seq<u8> {
    encode_utf8(op.kind) + seq![31u8] + spec_encode_opt_num(op.at) + seq![31u8]
        + spec_encode_opt_num(op.range_start) + seq![31u8] + spec_encode_opt_num(op.range_end)
        + seq![31u8] + spec_encode_opt_text(op.inserted_text) + seq![31u8] + spec_encode_opt_text(
        op.deleted_text,
    ) + seq![30u8]
}

/// A list of operation records, encoded in order.
pub open spec fn spec_encode_ops(ops: Seq<OpRecordV>) -> Seq<u8>
    decreases ops.len(),
{
    if ops.len() == 0 {
        Seq::empty()
    } else {
        spec_encode_op(ops[0]) + spec_encode_ops(ops.drop_first())
    }
}

/// A patch payload, encoded canonically: checkpoint text as its UTF-8 bytes,
/// operations as their canonical encoding, anything else as nothing.
pub open spec fn spec_encode_data(d: PatchDataV) -> Seq<u8> {
    match d {
        PatchDataV::Snapshot(s) => encode_utf8(s),
        PatchDataV::Ops(v) => spec_encode_ops(v),
        PatchDataV::Opaque => Seq::empty(),
    }
}

/// The bytes a patch identity is computed over: author, timestamp and
/// payload, separated by `|`.
pub open spec fn spec_uid_preimage(author: Seq<char>, ts: int, d: PatchDataV) -> Seq<u8> {
    encode_utf8(author) + seq![124u8] + encode_utf8(spec_dec_int(ts)) + seq![124u8]
        + spec_encode_data(d)
}

/// Appends the canonical encoding of one optional position.
fn encode_opt_num(v: &Option<usize>, out: &mut Vec<u8>)
    ensures
        final(out)@ == old(out)@ + spec_encode_opt_num(*v),
{
    match v {
        Some(n) => {
            let s = dec_usize(*n);
            out.extend_from_slice(s.as_str().as_bytes());
            proof {
                assert(final(out)@ =~= old(out)@ + spec_encode_opt_num(*v));
            }
        },
        None => {
            proof {
                assert(final(out)@ =~= old(out)@ + spec_encode_opt_num(*v));
            }
        },
    }
}

/// Appends the canonical encoding of one optional text.
fn encode_opt_text(v: &Option<String>, out: &mut Vec<u8>)
    ensures
        final(out)@ == old(out)@ + spec_encode_opt_text(v.deep_view()),
{
    match v {
        Some(t) => {
            out.extend_from_slice(t.as_str().as_bytes());
            proof {
                assert(final(out)@ =~= old(out)@ + spec_encode_opt_text(v.deep_view()));
            }
        },
        None => {
            proof {
                assert(final(out)@ =~= old(out)@ + spec_encode_opt_text(v.deep_view()));
            }
        },
    }
}

/// Appends the canonical encoding of one operation record.
fn encode_op(op: &OpRecord, out: &mut Vec<u8>)
    ensures
        final(out)@ == old(out)@ + spec_encode_op(op.deep_view()),
{
    out.extend_from_slice(op.kind.as_str().as_bytes());
    out.push(31);
    encode_opt_num(&op.at, out);
    out.push(31);
    encode_opt_num(&op.range_start, out);
    out.push(31);
    encode_opt_num(&op.range_end, out);
    out.push(31);
    encode_opt_text(&op.inserted_text, out);
    out.push(31);
    encode_opt_text(&op.deleted_text, out);
    out.push(30);
    proof {
        assert(final(out)@ =~= old(out)@ + spec_encode_op(op.deep_view()));
    }
}

/// Extending an operation list by one record appends its encoding.
proof fn lemma_encode_ops_take_step(ops: Seq<OpRecordV>, k: int)
    requires
        0 <= k < ops.len(),
    ensures
        spec_encode_ops(ops.take(k + 1)) == spec_encode_ops(ops.take(k)) + spec_encode_op(ops[k]),
    decreases k,
{
    if k == 0 {
        assert(ops.take(1) =~= seq![ops[0]]);
        assert(ops.take(1).drop_first() =~= Seq::empty());
        assert(ops.take(0) =~= Seq::empty());
        assert(spec_encode_ops(ops.take(1)) =~= spec_encode_ops(ops.take(0)) + spec_encode_op(
            ops[0],
        ));
    } else {
        lemma_encode_ops_take_step(ops.drop_first(), k - 1);
        assert(ops.take(k + 1).drop_first() =~= ops.drop_first().take(k));
        assert(ops.take(k).drop_first() =~= ops.drop_first().take(k - 1));
        assert(ops.take(k + 1)[0] == ops[0]);
        assert(ops.take(k)[0] == ops[0]);
        assert(ops.drop_first()[k - 1] == ops[k]);
        assert(spec_encode_ops(ops.take(k + 1)) =~= spec_encode_ops(ops.take(k)) + spec_encode_op(
            ops[k],
        ));
    }
}

/// Appends the canonical encoding of a patch payload.
fn encode_patch_data(data: &PatchData, out: &mut Vec<u8>)
    ensures
        final(out)@ == old(out)@ + spec_encode_data(data.deep_view()),
{
    match data {
        PatchData::Snapshot(s) => {
            out.extend_from_slice(s.as_str().as_bytes());
            proof {
                assert(final(out)@ =~= old(out)@ + spec_encode_data(data.deep_view()));
            }
        },
        PatchData::Ops(ops) => {
            let ghost ov = ops.deep_view();
            let ghost base = out@;
            let n = ops.len();
            for k in 0..n
                invariant
                    n == ops.len(),
                    ov == ops.deep_view(),
                    out@ == base + spec_encode_ops(ov.take(k as int)),
            {
                proof {
                    lemma_encode_ops_take_step(ov, k as int);
                }
                encode_op(&ops[k], out);
                proof {
                    assert(out@ =~= base + spec_encode_ops(ov.take(k + 1)));
                }
            }
            proof {
                assert(ov.take(n as int) =~= ov);
            }
        },
        PatchData::Opaque => {
            proof {
                assert(final(out)@ =~= old(out)@ + spec_encode_data(data.deep_view()));
            }
        },
    }
}

/// A deterministic patch identity from content: the first 16 hex digits of
/// the SHA-256 digest of author, timestamp and payload. For checkpoint
/// payloads the embedded text alone identifies the payload, so equal
/// checkpoints from different recordings deduplicate to the same identity.
pub fn generate_patch_uid(author: &str, timestamp: i64, data: &PatchData) -> (r: String)
    ensures
        r@ == spec_hex_bytes(
            sha256_of(spec_uid_preimage(author@, timestamp as int, data.deep_view())).take(8),
        ),
        r@.len() == 16,
{
    let mut preimage: Vec<u8> = Vec::new();
    preimage.extend_from_slice(author.as_bytes());
    preimage.push(124);
    let ts = dec_i64(timestamp);
    preimage.extend_from_slice(ts.as_str().as_bytes());
    preimage.push(124);
    encode_patch_data(data, &mut preimage);
    proof {
        assert(preimage@ =~= spec_uid_preimage(author@, timestamp as int, data.deep_view()));
    }
    let digest = sha256_digest(&preimage);
    let r = hex_bytes_prefix(&digest, 8);
    proof {
        lemma_hex_bytes_len(digest@.take(8));
    }
    r
}

} // verus!
