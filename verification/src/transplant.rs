//! Cross-document transplantation: merging one document's checkpoint
//! patches, snapshots, decisions and comment threads into another's history,
//! deduplicating by identity.

use vstd::prelude::*;

use crate::history::{
    has_patch_id, has_patch_uuid, lemma_wf_after_patch_push, lemma_wf_after_snapshot_push,
    sort_patches_asc, spec_sort_patches_asc, spec_upsert_review, History,
};
use crate::patch::{clone_bytes, clone_opt_string, Comment, CommentV, Patch, PatchReview, PatchV, Snapshot, SnapshotV};
use crate::outside::new_uuid_string;
use crate::text::str_eq;

verus! {

/// The patch ledger and snapshot table of a history, with their id counters:
/// the part of the state that transplanting checkpoints changes.
pub ghost struct LedgerState {
    pub patches: Seq<PatchV>,
    pub snapshots: Seq<SnapshotV>,
    pub next_patch_id: int,
    pub next_snapshot_id: int,
}

/// The ledger part of a history.
pub open spec fn ledger_of(h: History) -> LedgerState {
    LedgerState {
        patches: h.patches.deep_view(),
        snapshots: h.snapshots.deep_view(),
        next_patch_id: h.next_patch_id as int,
        next_snapshot_id: h.next_snapshot_id as int,
    }
}

/// The checkpoint (`"Save"`-kind) patches of a ledger, in storage order.
pub open spec fn spec_save_patches(ps: Seq<PatchV>) -> Seq<PatchV>
    decreases ps.len(),
{
    if ps.len() == 0 {
        Seq::empty()
    } else {
        (if ps[0].kind == "Save"@ {
            seq![ps[0]]
        } else {
            Seq::empty()
        }) + spec_save_patches(ps.drop_first())
    }
}

/// The first stored snapshot for a patch id, in storage order.
pub open spec fn spec_first_snapshot_for(ss: Seq<SnapshotV>, patch_id: i64) -> Option<SnapshotV>
    decreases ss.len(),
{
    if ss.len() == 0 {
        None
    } else if ss[0].patch_id == patch_id {
        Some(ss[0])
    } else {
        spec_first_snapshot_for(ss.drop_first(), patch_id)
    }
}

/// The identity one source patch is imported under: its own uuid, or the
/// freshly drawn one at its position.
pub open spec fn import_uuid(p: PatchV, fresh: Seq<Seq<char>>, k: int) -> Seq<char> {
    match p.uuid {
        Some(u) => u,
        None => fresh[k],
    }
}

/// What importing one source checkpoint does to the target ledger: nothing
/// when the target already holds its identity; otherwise the patch is stored
/// under a fresh local id, and its first source snapshot, if any, is
/// re-pointed at that id.
pub open spec fn spec_import_one(
    p: PatchV,
    u: Seq<char>,
    src_snaps: Seq<SnapshotV>,
    st: LedgerState,
) -> LedgerState {
    if has_patch_uuid(st.patches, u) {
        st
    } else {
        let newp = PatchV {
            id: st.next_patch_id as i64,
            timestamp: p.timestamp,
            author: p.author,
            kind: p.kind,
            data: p.data,
            uuid: Some(u),
            parent_uuid: p.parent_uuid,
        };
        match spec_first_snapshot_for(src_snaps, p.id) {
            Some(sv) => LedgerState {
                patches: st.patches.push(newp),
                snapshots: st.snapshots.push(
                    SnapshotV {
                        id: st.next_snapshot_id as i64,
                        timestamp: p.timestamp,
                        patch_id: st.next_patch_id as i64,
                        state: sv.state,
                    },
                ),
                next_patch_id: st.next_patch_id + 1,
                next_snapshot_id: st.next_snapshot_id + 1,
            },
            None => LedgerState {
                patches: st.patches.push(newp),
                snapshots: st.snapshots,
                next_patch_id: st.next_patch_id + 1,
                next_snapshot_id: st.next_snapshot_id,
            },
        }
    }
}

/// The patches the import of one source checkpoint reports: the newly stored
/// patch, or nothing when it was skipped.
pub open spec fn spec_import_one_reported(p: PatchV, u: Seq<char>, st: LedgerState) -> Seq<
    PatchV,
> {
    if has_patch_uuid(st.patches, u) {
        Seq::empty()
    } else {
        seq![
            PatchV {
                id: st.next_patch_id as i64,
                timestamp: p.timestamp,
                author: p.author,
                kind: p.kind,
                data: p.data,
                uuid: Some(u),
                parent_uuid: p.parent_uuid,
            },
        ]
    }
}

/// The target ledger after importing the first `k` checkpoints of the sorted
/// source list.
pub open spec fn spec_import_state(
    sorted: Seq<PatchV>,
    src_snaps: Seq<SnapshotV>,
    st0: LedgerState,
    fresh: Seq<Seq<char>>,
    k: int,
) -> LedgerState
    decreases k,
{
    if k <= 0 {
        st0
    } else {
        let st = spec_import_state(sorted, src_snaps, st0, fresh, k - 1);
        spec_import_one(sorted[k - 1], import_uuid(sorted[k - 1], fresh, k - 1), src_snaps, st)
    }
}

/// The patches reported after importing the first `k` checkpoints of the
/// sorted source list.
pub open spec fn spec_import_reported(
    sorted: Seq<PatchV>,
    src_snaps: Seq<SnapshotV>,
    st0: LedgerState,
    fresh: Seq<Seq<char>>,
    k: int,
) -> Seq<PatchV>
    decreases k,
{
    if k <= 0 {
        Seq::empty()
    } else {
        let st = spec_import_state(sorted, src_snaps, st0, fresh, k - 1);
        spec_import_reported(sorted, src_snaps, st0, fresh, k - 1) + spec_import_one_reported(
            sorted[k - 1],
            import_uuid(sorted[k - 1], fresh, k - 1),
            st,
        )
    }
}

/// The target decision table after upserting the first `k` source decisions, in
/// order.
pub open spec fn spec_import_reviews(
    src: Seq<PatchReview>,
    tgt0: Seq<PatchReview>,
    k: int,
) -> Seq<PatchReview>
    decreases k,
{
    if k <= 0 {
        tgt0
    } else {
        spec_upsert_review(spec_import_reviews(src, tgt0, k - 1), src[k - 1])
    }
}

/// The target id an old source id was mapped to, if any: the first mapping
/// entered for it.
pub open spec fn spec_map_lookup(m: Seq<(i64, i64)>, key: i64) -> Option<i64>
    decreases m.len(),
{
    if m.len() == 0 {
        None
    } else if m[0].0 == key {
        Some(m[0].1)
    } else {
        spec_map_lookup(m.drop_first(), key)
    }
}

/// The first comment matching on `(timestamp, author, content)`, the
/// heuristic identity used to deduplicate comments.
pub open spec fn spec_find_comment_match(cs: Seq<CommentV>, c: CommentV) -> Option<CommentV>
    decreases cs.len(),
{
    if cs.len() == 0 {
        None
    } else if cs[0].timestamp == c.timestamp && cs[0].author == c.author && cs[0].content
        == c.content {
        Some(cs[0])
    } else {
        spec_find_comment_match(cs.drop_first(), c)
    }
}

/// The comment table, id map and id counter after merging the first `k`
/// source comments: a source comment matching an existing one (by timestamp,
/// author and content) only extends the id map; a new one is inserted under
/// a fresh id with its reply parent remapped through the map built so far.
pub open spec fn spec_import_comments(
    src: Seq<CommentV>,
    tgt0: Seq<CommentV>,
    next0: int,
    k: int,
) -> (Seq<CommentV>, Seq<(i64, i64)>, int)
    decreases k,
{
    if k <= 0 {
        (tgt0, Seq::empty(), next0)
    } else {
        let (tgt, m, next) = spec_import_comments(src, tgt0, next0, k - 1);
        let c = src[k - 1];
        match spec_find_comment_match(tgt, c) {
            Some(hit) => (tgt, m.push((c.id, hit.id)), next),
            None => {
                let newc = CommentV {
                    id: next as i64,
                    timestamp: c.timestamp,
                    author: c.author,
                    author_color: c.author_color,
                    start_anchor: c.start_anchor,
                    end_anchor: c.end_anchor,
                    selected_text: c.selected_text,
                    content: c.content,
                    status: c.status,
                    parent_id: match c.parent_id {
                        Some(p) => spec_map_lookup(m, p),
                        None => None,
                    },
                };
                (tgt.push(newc), m.push((c.id, next as i64)), next + 1)
            },
        }
    }
}

/// The sorted checkpoint list an import walks: the source's `"Save"`-kind
/// patches, oldest first, ties in storage order.
pub open spec fn spec_import_order(src_patches: Seq<PatchV>) -> Seq<PatchV> {
    spec_sort_patches_asc(spec_save_patches(src_patches))
}

/// A prefix import reads only the fresh identities before `k`.
proof fn lemma_import_fresh_agree(
    sorted: Seq<PatchV>,
    src_snaps: Seq<SnapshotV>,
    st0: LedgerState,
    f1: Seq<Seq<char>>,
    f2: Seq<Seq<char>>,
    k: int,
)
    requires
        k <= f1.len(),
        k <= f2.len(),
        forall|j: int| 0 <= j < k ==> f1[j] == f2[j],
    ensures
        spec_import_state(sorted, src_snaps, st0, f1, k) == spec_import_state(
            sorted,
            src_snaps,
            st0,
            f2,
            k,
        ),
        spec_import_reported(sorted, src_snaps, st0, f1, k) == spec_import_reported(
            sorted,
            src_snaps,
            st0,
            f2,
            k,
        ),
    decreases k,
{
    if k > 0 {
        lemma_import_fresh_agree(sorted, src_snaps, st0, f1, f2, k - 1);
        assert(import_uuid(sorted[k - 1], f1, k - 1) == import_uuid(sorted[k - 1], f2, k - 1));
    }
}

/// One import step never removes a patch: any identity present stays present.
proof fn lemma_import_one_keeps_uuid(
    p: PatchV,
    u: Seq<char>,
    src_snaps: Seq<SnapshotV>,
    st: LedgerState,
    w: Seq<char>,
)
    requires
        has_patch_uuid(st.patches, w),
    ensures
        has_patch_uuid(spec_import_one(p, u, src_snaps, st).patches, w),
{
    let i = choose|i: int| 0 <= i < st.patches.len() && (#[trigger] st.patches[i]).uuid == Some(w);
    assert(spec_import_one(p, u, src_snaps, st).patches[i].uuid == Some(w));
}

/// After importing the first `k` checkpoints, every one of them that carried
/// its own identity is present in the target.
proof fn lemma_import_uuid_present(
    sorted: Seq<PatchV>,
    src_snaps: Seq<SnapshotV>,
    st0: LedgerState,
    fresh: Seq<Seq<char>>,
    j: int,
    k: int,
)
    requires
        0 <= j < k <= sorted.len(),
        sorted[j].uuid is Some,
    ensures
        has_patch_uuid(
            spec_import_state(sorted, src_snaps, st0, fresh, k).patches,
            sorted[j].uuid->Some_0,
        ),
    decreases k,
{
    let u = sorted[j].uuid->Some_0;
    if k == j + 1 {
        let st = spec_import_state(sorted, src_snaps, st0, fresh, j);
        assert(import_uuid(sorted[j], fresh, j) == u);
        if has_patch_uuid(st.patches, u) {
            lemma_import_one_keeps_uuid(sorted[j], u, src_snaps, st, u);
        } else {
            let after = spec_import_one(sorted[j], u, src_snaps, st);
            assert(after.patches.last().uuid == Some(u));
            assert(has_patch_uuid(after.patches, u));
        }
    } else {
        lemma_import_uuid_present(sorted, src_snaps, st0, fresh, j, k - 1);
        let st = spec_import_state(sorted, src_snaps, st0, fresh, k - 1);
        lemma_import_one_keeps_uuid(
            sorted[k - 1],
            import_uuid(sorted[k - 1], fresh, k - 1),
            src_snaps,
            st,
            u,
        );
    }
}

/// Law: importing the same source history twice leaves exactly the ledger
/// that importing it once leaves — provided every checkpoint in the source
/// carries its own identity (a uuid-less checkpoint is imported under a
/// freshly drawn identity each time and cannot be recognized as already
/// present).
pub proof fn lemma_transplant_dedup(
    sorted: Seq<PatchV>,
    src_snaps: Seq<SnapshotV>,
    st0: LedgerState,
    fresh1: Seq<Seq<char>>,
    fresh2: Seq<Seq<char>>,
)
    requires
        forall|k: int| 0 <= k < sorted.len() ==> (#[trigger] sorted[k]).uuid is Some,
    ensures
        spec_import_state(
            sorted,
            src_snaps,
            spec_import_state(sorted, src_snaps, st0, fresh1, sorted.len() as int),
            fresh2,
            sorted.len() as int,
        ) == spec_import_state(sorted, src_snaps, st0, fresh1, sorted.len() as int),
        spec_import_reported(
            sorted,
            src_snaps,
            spec_import_state(sorted, src_snaps, st0, fresh1, sorted.len() as int),
            fresh2,
            sorted.len() as int,
        ) == Seq::<PatchV>::empty(),
{
    lemma_second_import_prefix_stalls(sorted, src_snaps, st0, fresh1, fresh2, sorted.len() as int);
}

/// A second import of an all-identified source changes nothing, prefix by
/// prefix.
proof fn lemma_second_import_prefix_stalls(
    sorted: Seq<PatchV>,
    src_snaps: Seq<SnapshotV>,
    st0: LedgerState,
    fresh1: Seq<Seq<char>>,
    fresh2: Seq<Seq<char>>,
    k: int,
)
    requires
        forall|j: int| 0 <= j < sorted.len() ==> (#[trigger] sorted[j]).uuid is Some,
        0 <= k <= sorted.len(),
    ensures
        spec_import_state(
            sorted,
            src_snaps,
            spec_import_state(sorted, src_snaps, st0, fresh1, sorted.len() as int),
            fresh2,
            k,
        ) == spec_import_state(sorted, src_snaps, st0, fresh1, sorted.len() as int),
        spec_import_reported(
            sorted,
            src_snaps,
            spec_import_state(sorted, src_snaps, st0, fresh1, sorted.len() as int),
            fresh2,
            k,
        ) == Seq::<PatchV>::empty(),
    decreases k,
{
    let st1 = spec_import_state(sorted, src_snaps, st0, fresh1, sorted.len() as int);
    if k > 0 {
        lemma_second_import_prefix_stalls(sorted, src_snaps, st0, fresh1, fresh2, k - 1);
        let u = sorted[k - 1].uuid->Some_0;
        assert(import_uuid(sorted[k - 1], fresh2, k - 1) == u);
        lemma_import_uuid_present(sorted, src_snaps, st0, fresh1, k - 1, sorted.len() as int);
        assert(has_patch_uuid(st1.patches, u));
        assert(spec_import_reported(sorted, src_snaps, st1, fresh2, k) =~= Seq::<
            PatchV,
        >::empty());
    }
}

/// What a completed import states: the ledger and the reported patches are
/// the fold of the per-checkpoint step over the source's checkpoints in
/// timestamp order (under some assignment of fresh identities to uuid-less
/// checkpoints), the decision table is the fold of the upserts, and the comment
/// table and its id counter are the fold of the comment merge.
pub open spec fn import_post(
    src: History,
    t0: History,
    t1: History,
    imported: Seq<PatchV>,
    fresh: Seq<Seq<char>>,
) -> bool {
    let sorted = spec_import_order(src.patches.deep_view());
    let (cs, m, next) = spec_import_comments(
        src.comments.deep_view(),
        t0.comments.deep_view(),
        t0.next_comment_id as int,
        src.comments@.len() as int,
    );
    &&& ledger_of(t1) == spec_import_state(
        sorted,
        src.snapshots.deep_view(),
        ledger_of(t0),
        fresh,
        sorted.len() as int,
    )
    &&& imported == spec_import_reported(
        sorted,
        src.snapshots.deep_view(),
        ledger_of(t0),
        fresh,
        sorted.len() as int,
    )
    &&& t1.reviews@ == spec_import_reviews(src.reviews@, t0.reviews@, src.reviews@.len() as int)
    &&& t1.comments.deep_view() == cs
    &&& t1.next_comment_id as int == next
}

/// Merges another document's checkpoint history into this one: its
/// `"Save"`-kind patches in timestamp order, deduplicated by uuid, each with
/// its snapshot re-pointed at its new local id; then its decisions, upserted by
/// `(patch uuid, approver)`; then its comment threads, deduplicated by
/// `(timestamp, author, content)` with reply links remapped. Returns the
/// newly inserted patches. Fails, changing nothing, exactly when an id space
/// would not fit the source's records.
#[verifier::rlimit(100)]
#[verifier::spinoff_prover]
pub fn import_patches_from_document(source: &History, target: &mut History) -> (r: Result<
    Vec<Patch>,
    String,
>)
    requires
        source.wf(),
        old(target).wf(),
    ensures
        final(target).wf(),
        r matches Err(_) ==> *final(target) == *old(target),
        r is Err <==> (old(target).next_patch_id as int + spec_import_order(
            source.patches.deep_view(),
        ).len() > i64::MAX as int || old(target).next_snapshot_id as int + spec_import_order(
            source.patches.deep_view(),
        ).len() > i64::MAX as int || old(target).next_comment_id as int + source.comments@.len()
            > i64::MAX as int),
        r matches Ok(v) ==> exists|fresh: Seq<Seq<char>>|
            #[trigger] import_post(*source, *old(target), *final(target), v.deep_view(), fresh),
{
    let ghost src_snaps = source.snapshots.deep_view();
    let ghost st0 = ledger_of(*old(target));

    // Collect the source's checkpoint patches, oldest first.
    let mut save: Vec<Patch> = Vec::new();
    let n_src = source.patches.len();
    for i in 0..n_src
        invariant
            n_src == source.patches.len(),
            save.deep_view() == spec_save_patches(source.patches.deep_view().take(i as int)),
    {
        proof {
            lemma_save_patches_take_step(source.patches.deep_view(), i as int);
        }
        if str_eq(source.patches[i].kind.as_str(), "Save") {
            let p = source.patches[i].clone();
            proof {
                assert(p.deep_view() == source.patches.deep_view()[i as int]);
            }
            let ghost pre = save.deep_view();
            save.push(p);
            proof {
                assert(save.deep_view() =~= pre.push(source.patches.deep_view()[i as int]));
            }
        }
        proof {
            assert(save.deep_view() =~= spec_save_patches(
                source.patches.deep_view().take(i + 1),
            ));
        }
    }
    proof {
        assert(source.patches.deep_view().take(n_src as int) =~= source.patches.deep_view());
    }
    let sorted = sort_patches_asc(save);
    let ghost sortedv = sorted.deep_view();
    proof {
        assert(sortedv == spec_import_order(source.patches.deep_view()));
    }

    // Make sure every id space can absorb the source's records.
    let n = sorted.len();
    let n_comments = source.comments.len();
    if (target.next_patch_id as i128) + (n as i128) > (i64::MAX as i128) {
        return Err("patch id space cannot absorb the import".to_owned());
    }
    if (target.next_snapshot_id as i128) + (n as i128) > (i64::MAX as i128) {
        return Err("snapshot id space cannot absorb the import".to_owned());
    }
    if (target.next_comment_id as i128) + (n_comments as i128) > (i64::MAX as i128) {
        return Err("comment id space cannot absorb the import".to_owned());
    }

    // Import the checkpoints, deduplicating by uuid.
    let mut imported: Vec<Patch> = Vec::new();
    let ghost mut fresh: Seq<Seq<char>> = Seq::empty();
    let mut k: usize = 0;
    while k < n
        invariant
            n == sorted.len(),
            sortedv == sorted.deep_view(),
            src_snaps == source.snapshots.deep_view(),
            source.wf(),
            target.wf(),
            fresh.len() == k as int,
            k <= n,
            ledger_of(*target) == spec_import_state(sortedv, src_snaps, st0, fresh, k as int),
            imported.deep_view() == spec_import_reported(sortedv, src_snaps, st0, fresh, k as int),
            target.next_patch_id as int <= st0.next_patch_id + k as int,
            target.next_snapshot_id as int <= st0.next_snapshot_id + k as int,
            st0.next_patch_id + n as int <= i64::MAX as int,
            st0.next_snapshot_id + n as int <= i64::MAX as int,
            target.reviews == old(target).reviews,
            target.comments == old(target).comments,
            target.next_comment_id == old(target).next_comment_id,
        decreases n - k,
    {
        let p = &sorted[k];
        let u: String = match &p.uuid {
            Some(x) => x.clone(),
            None => new_uuid_string(),
        };
        proof {
            let fresh2 = fresh.push(u@);
            lemma_import_fresh_agree(sortedv, src_snaps, st0, fresh, fresh2, k as int);
            fresh = fresh2;
            assert(import_uuid(sortedv[k as int], fresh, k as int) == u@);
        }
        let ghost st_before = ledger_of(*target);
        let found = target.find_patch_by_uuid(u.as_str());
        if found.is_some() {
            proof {
                assert(has_patch_uuid(st_before.patches, u@));
                assert(spec_import_one(
                    sortedv[k as int],
                    u@,
                    src_snaps,
                    st_before,
                ) == st_before);
            }
        } else {
            proof {
                assert(!has_patch_uuid(st_before.patches, u@));
            }
            let new_id = target.next_patch_id;
            let stored = Patch {
                id: new_id,
                timestamp: p.timestamp,
                author: p.author.clone(),
                kind: p.kind.clone(),
                data: p.data.clone(),
                uuid: Some(u.clone()),
                parent_uuid: clone_opt_string(&p.parent_uuid),
            };
            let reported = stored.clone();
            let ghost target_pre = *target;
            let ghost storedv = stored.deep_view();
            target.patches.push(stored);
            target.next_patch_id = new_id + 1;
            proof {
                assert(target.patches.deep_view() =~= target_pre.patches.deep_view().push(
                    storedv,
                ));
                assert(target.patches.deep_view().take(
                    target_pre.patches.deep_view().len() as int,
                ) =~= target_pre.patches.deep_view());
                lemma_wf_after_patch_push(target_pre, *target);
            }
            match find_first_snapshot(&source.snapshots, p.id) {
                Some(si) => {
                    let state = clone_bytes(&source.snapshots[si].state);
                    let snap_id = target.next_snapshot_id;
                    let snap = Snapshot {
                        id: snap_id,
                        timestamp: p.timestamp,
                        patch_id: new_id,
                        state,
                    };
                    let ghost target_mid = *target;
                    let ghost snapv = snap.deep_view();
                    target.snapshots.push(snap);
                    target.next_snapshot_id = snap_id + 1;
                    proof {
                        assert(target.snapshots.deep_view()
                            =~= target_mid.snapshots.deep_view().push(snapv));
                        assert(target.snapshots.deep_view().take(
                            target_mid.snapshots.deep_view().len() as int,
                        ) =~= target_mid.snapshots.deep_view());
                        assert(has_patch_id(target_mid.patches.deep_view(), new_id));
                        lemma_wf_after_snapshot_push(target_mid, *target);
                    }
                },
                None => (),
            }
            let ghost pre_imported = imported.deep_view();
            imported.push(reported);
            proof {
                assert(imported.deep_view() =~= pre_imported.push(storedv));
                assert(ledger_of(*target) == spec_import_one(
                    sortedv[k as int],
                    u@,
                    src_snaps,
                    st_before,
                )) by {
                    assert(ledger_of(*target).patches =~= spec_import_one(
                        sortedv[k as int],
                        u@,
                        src_snaps,
                        st_before,
                    ).patches);
                    assert(ledger_of(*target).snapshots =~= spec_import_one(
                        sortedv[k as int],
                        u@,
                        src_snaps,
                        st_before,
                    ).snapshots);
                }
                assert(imported.deep_view() =~= spec_import_reported(
                    sortedv,
                    src_snaps,
                    st0,
                    fresh,
                    k as int + 1,
                ));
            }
        }
        proof {
            assert(ledger_of(*target) == spec_import_state(
                sortedv,
                src_snaps,
                st0,
                fresh,
                k as int + 1,
            ));
            assert(imported.deep_view() =~= spec_import_reported(
                sortedv,
                src_snaps,
                st0,
                fresh,
                k as int + 1,
            ));
        }
        k = k + 1;
    }

    // Merge the decisions, upserting by key.
    let ghost rs0 = target.reviews@;
    let n_reviews = source.reviews.len();
    let mut j: usize = 0;
    while j < n_reviews
        invariant
            n_reviews == source.reviews.len(),
            source.wf(),
            target.wf(),
            j <= n_reviews,
            target.reviews@ == spec_import_reviews(source.reviews@, rs0, j as int),
            target.comments == old(target).comments,
            target.next_comment_id == old(target).next_comment_id,
            ledger_of(*target) == spec_import_state(
                sortedv,
                src_snaps,
                st0,
                fresh,
                n as int,
            ),
            imported.deep_view() == spec_import_reported(
                sortedv,
                src_snaps,
                st0,
                fresh,
                n as int,
            ),
            fresh.len() == n as int,
            sortedv == sorted.deep_view(),
            src_snaps == source.snapshots.deep_view(),
        decreases n_reviews - j,
    {
        let row = &source.reviews[j];
        proof {
            assert(crate::history::valid_decision(source.reviews@[j as int].decision@));
        }
        let res = target.record_patch_review(
            row.patch_uuid.clone(),
            row.reviewer_id.clone(),
            row.decision.clone(),
            clone_opt_string(&row.reviewer_name),
            row.reviewed_at,
        );
        proof {
            assert(res is Ok);
            assert(target.reviews@ == spec_import_reviews(source.reviews@, rs0, j as int + 1));
        }
        j = j + 1;
    }

    // Merge the comment threads, deduplicating and remapping replies.
    let ghost cs0 = target.comments.deep_view();
    let ghost next_c0: int = target.next_comment_id as int;
    let mut id_map: Vec<(i64, i64)> = Vec::new();
    let n_c = source.comments.len();
    let mut t: usize = 0;
    while t < n_c
        invariant
            n_c == source.comments.len(),
            source.wf(),
            target.wf(),
            t <= n_c,
            ({
                let (cs, m, next) = spec_import_comments(
                    source.comments.deep_view(),
                    cs0,
                    next_c0,
                    t as int,
                );
                target.comments.deep_view() == cs && id_map@ == m
                    && target.next_comment_id as int == next
            }),
            target.next_comment_id as int <= next_c0 + t as int,
            next_c0 + n_c as int <= i64::MAX as int,
            ledger_of(*target) == spec_import_state(sortedv, src_snaps, st0, fresh, n as int),
            imported.deep_view() == spec_import_reported(sortedv, src_snaps, st0, fresh, n as int),
            target.reviews@ == spec_import_reviews(
                source.reviews@,
                rs0,
                n_reviews as int,
            ),
            fresh.len() == n as int,
            sortedv == sorted.deep_view(),
            src_snaps == source.snapshots.deep_view(),
        decreases n_c - t,
    {
        let c = &source.comments[t];
        let ghost cv = source.comments.deep_view()[t as int];
        let hit = find_comment_match(&target.comments, c);
        match hit {
            Some(hi) => {
                id_map.push((c.id, hi));
            },
            None => {
                let parent = match &c.parent_id {
                    Some(p) => map_lookup(&id_map, *p),
                    None => None,
                };
                let new_id = target.next_comment_id;
                let row = Comment {
                    id: new_id,
                    timestamp: c.timestamp,
                    author: c.author.clone(),
                    author_color: clone_opt_string(&c.author_color),
                    start_anchor: c.start_anchor.clone(),
                    end_anchor: c.end_anchor.clone(),
                    selected_text: c.selected_text.clone(),
                    content: c.content.clone(),
                    status: c.status.clone(),
                    parent_id: parent,
                };
                let ghost target_pre = *target;
                let ghost rowv = row.deep_view();
                target.comments.push(row);
                target.next_comment_id = new_id + 1;
                id_map.push((c.id, new_id));
                proof {
                    assert(target.comments.deep_view()
                        =~= target_pre.comments.deep_view().push(rowv));
                    let cs = target.comments.deep_view();
                    let pre = target_pre.comments.deep_view();
                    assert forall|a: int, b: int| 0 <= a < b < cs.len() implies cs[a].id
                        < cs[b].id by {
                        if b < pre.len() {
                            assert(cs[a] == pre[a] && cs[b] == pre[b]);
                        } else {
                            assert(cs[a].id < target_pre.next_comment_id);
                        }
                    }
                }
            },
        }
        proof {
            let (cs_next, m_next, nx_next) = spec_import_comments(
                source.comments.deep_view(),
                cs0,
                next_c0,
                t as int + 1,
            );
            assert(target.comments.deep_view() =~= cs_next);
            assert(id_map@ =~= m_next);
        }
        t = t + 1;
    }

    let ghost impv = imported.deep_view();
    let r: Result<Vec<Patch>, String> = Ok(imported);
    proof {
        assert(sortedv.len() == n as int);
        assert(r matches Ok(v) && v.deep_view() == impv);
        assert(import_post(*source, *old(target), *target, impv, fresh));
        assert(exists|f: Seq<Seq<char>>|
            #[trigger] import_post(*source, *old(target), *target, impv, f));
    }
    r
}

/// Extending the patch list by one patch appends it to the checkpoint
/// listing when it is a checkpoint.
proof fn lemma_save_patches_take_step(ps: Seq<PatchV>, k: int)
    requires
        0 <= k < ps.len(),
    ensures
        spec_save_patches(ps.take(k + 1)) == spec_save_patches(ps.take(k)) + (if ps[k].kind
            == "Save"@ {
            seq![ps[k]]
        } else {
            Seq::<PatchV>::empty()
        }),
    decreases k,
{
    if k == 0 {
        assert(ps.take(1) =~= seq![ps[0]]);
        assert(ps.take(1).drop_first() =~= Seq::empty());
        assert(ps.take(0) =~= Seq::empty());
        assert(spec_save_patches(ps.take(1)) =~= spec_save_patches(ps.take(0)) + (if ps[0].kind
            == "Save"@ {
            seq![ps[0]]
        } else {
            Seq::<PatchV>::empty()
        }));
    } else {
        lemma_save_patches_take_step(ps.drop_first(), k - 1);
        assert(ps.take(k + 1).drop_first() =~= ps.drop_first().take(k));
        assert(ps.take(k).drop_first() =~= ps.drop_first().take(k - 1));
        assert(ps.take(k + 1)[0] == ps[0]);
        assert(ps.take(k)[0] == ps[0]);
        assert(ps.drop_first()[k - 1] == ps[k]);
        assert(spec_save_patches(ps.take(k + 1)) =~= spec_save_patches(ps.take(k)) + (
        if ps[k].kind == "Save"@ {
            seq![ps[k]]
        } else {
            Seq::<PatchV>::empty()
        }));
    }
}

/// The first stored snapshot for a patch id, by position.
fn find_first_snapshot(snapshots: &Vec<Snapshot>, patch_id: i64) -> (r: Option<usize>)
    ensures
        match r {
            Some(i) => i < snapshots@.len() && snapshots.deep_view()[i as int].patch_id == patch_id
                && spec_first_snapshot_for(snapshots.deep_view(), patch_id) == Some(
                snapshots.deep_view()[i as int],
            ),
            None => spec_first_snapshot_for(snapshots.deep_view(), patch_id) is None,
        },
{
    let ghost ss = snapshots.deep_view();
    proof {
        assert(ss.skip(0) =~= ss);
    }
    let n = snapshots.len();
    for i in 0..n
        invariant
            n == snapshots.len(),
            ss == snapshots.deep_view(),
            spec_first_snapshot_for(ss, patch_id) == spec_first_snapshot_for(
                ss.skip(i as int),
                patch_id,
            ),
            forall|k: int| 0 <= k < i ==> #[trigger] ss[k].patch_id != patch_id,
    {
        proof {
            assert(ss.skip(i as int)[0] == ss[i as int]);
            assert(ss.skip(i as int).drop_first() =~= ss.skip(i + 1));
        }
        if snapshots[i].patch_id == patch_id {
            return Some(i);
        }
    }
    proof {
        assert(ss.skip(n as int) =~= Seq::<SnapshotV>::empty());
    }
    None
}

/// The first comment in the list matching the given one on timestamp, author
/// and content, reported by its id.
fn find_comment_match(comments: &Vec<Comment>, c: &Comment) -> (r: Option<i64>)
    ensures
        match r {
            Some(id) => spec_find_comment_match(comments.deep_view(), c.deep_view()) matches Some(
                hit,
            ) && hit.id == id,
            None => spec_find_comment_match(comments.deep_view(), c.deep_view()) is None,
        },
{
    let ghost cs = comments.deep_view();
    let ghost cv = c.deep_view();
    proof {
        assert(cs.skip(0) =~= cs);
    }
    let n = comments.len();
    for i in 0..n
        invariant
            n == comments.len(),
            cs == comments.deep_view(),
            cv == c.deep_view(),
            spec_find_comment_match(cs, cv) == spec_find_comment_match(cs.skip(i as int), cv),
    {
        proof {
            assert(cs.skip(i as int)[0] == cs[i as int]);
            assert(cs.skip(i as int).drop_first() =~= cs.skip(i + 1));
        }
        if comments[i].timestamp == c.timestamp && str_eq(
            comments[i].author.as_str(),
            c.author.as_str(),
        ) && str_eq(comments[i].content.as_str(), c.content.as_str()) {
            return Some(comments[i].id);
        }
    }
    proof {
        assert(cs.skip(n as int) =~= Seq::<CommentV>::empty());
    }
    None
}

/// The target id an old source id was mapped to, if any.
fn map_lookup(m: &Vec<(i64, i64)>, key: i64) -> (r: Option<i64>)
    ensures
        r == spec_map_lookup(m@, key),
{
    proof {
        assert(m@.skip(0) =~= m@);
    }
    let n = m.len();
    for i in 0..n
        invariant
            n == m.len(),
            spec_map_lookup(m@, key) == spec_map_lookup(m@.skip(i as int), key),
    {
        proof {
            assert(m@.skip(i as int)[0] == m@[i as int]);
            assert(m@.skip(i as int).drop_first() =~= m@.skip(i + 1));
        }
        if m[i].0 == key {
            return Some(m[i].1);
        }
    }
    proof {
        assert(m@.skip(n as int) =~= Seq::<(i64, i64)>::empty());
    }
    None
}

} // verus!
