//! Patch bundles: sharing spans of one document's history with collaborators,
//! pdecisioning and merging what they send back, and remembering per-
//! collaborator sync positions.

use vstd::prelude::*;

use crate::history::History;
use crate::outside::default_hash64_of;
use crate::patch::{clone_opt_i64, clone_opt_string, Patch, PatchData, PatchDataV, PatchV};
use crate::profile::UserProfile;
use crate::text::{hex_fixed_u64, lemma_hex_fixed_len, spec_hex_fixed, str_eq};

verus! {

/// Two patches closer in time than this, from different authors, count as a
/// potential conflict.
pub const CONFLICT_WINDOW_MS: i64 = 60000;

/// Author identity carried inside a bundle.
#[derive(Debug)]
pub struct AuthorInfo {
    pub id: String,
    pub name: String,
    pub email: Option<String>,
}

impl Clone for AuthorInfo {
    fn clone(&self) -> (r: Self)
        ensures
            r == *self,
    {
        AuthorInfo {
            id: self.id.clone(),
            name: self.name.clone(),
            email: clone_opt_string(&self.email),
        }
    }
}

impl From<UserProfile> for AuthorInfo {
    fn from(profile: UserProfile) -> (r: Self) {
        AuthorInfo { id: profile.id, name: profile.name, email: profile.email }
    }
}

impl vstd::std_specs::convert::FromSpecImpl<UserProfile> for AuthorInfo {
    open spec fn obeys_from_spec() -> bool {
        true
    }

    open spec fn from_spec(profile: UserProfile) -> AuthorInfo {
        AuthorInfo { id: profile.id, name: profile.name, email: profile.email }
    }
}

/// One patch as carried in a bundle: the patch without its uuid links.
#[derive(Debug)]
pub struct PatchEntry {
    pub id: i64,
    pub timestamp: i64,
    pub author: String,
    pub kind: String,
    pub data: PatchData,
}

/// Mathematical image of a [`PatchEntry`].
pub ghost struct PatchEntryV {
    pub id: i64,
    pub timestamp: i64,
    pub author: Seq<char>,
    pub kind: Seq<char>,
    pub data: PatchDataV,
}

impl DeepView for PatchEntry {
    type V = PatchEntryV;

    open spec fn deep_view(&self) -> PatchEntryV {
        PatchEntryV {
            id: self.id,
            timestamp: self.timestamp,
            author: self.author@,
            kind: self.kind@,
            data: self.data.deep_view(),
        }
    }
}

impl Clone for PatchEntry {
    fn clone(&self) -> (r: Self)
        ensures
            r.deep_view() == self.deep_view(),
    {
        PatchEntry {
            id: self.id,
            timestamp: self.timestamp,
            author: self.author.clone(),
            kind: self.kind.clone(),
            data: self.data.clone(),
        }
    }
}

/// The entry view a stored patch is bundled as.
pub open spec fn spec_entry_of(p: PatchV) -> PatchEntryV {
    PatchEntryV { id: p.id, timestamp: p.timestamp, author: p.author, kind: p.kind, data: p.data }
}

impl PatchEntry {
    /// Strips a stored patch down to its bundled form.
    pub fn from_patch(p: &Patch) -> (r: Self)
        ensures
            r.deep_view() == spec_entry_of(p.deep_view()),
    {
        PatchEntry {
            id: p.id,
            timestamp: p.timestamp,
            author: p.author.clone(),
            kind: p.kind.clone(),
            data: p.data.clone(),
        }
    }
}

/// A bundle of changes for sharing, e.g. over email.
#[derive(Debug)]
pub struct PatchBundle {
    pub id: String,
    pub document_id: String,
    pub document_title: String,
    pub author: AuthorInfo,
    /// Creation time in milliseconds since the Unix epoch.
    pub created_at: i64,
    pub base_state_hash: String,
    pub patches: Vec<PatchEntry>,
}

/// Sync position kept for one collaborator.
#[derive(Debug)]
pub struct SyncState {
    pub collaborator_id: String,
    pub collaborator_name: String,
    /// Time of the last bundle sent to them, milliseconds since the epoch.
    pub last_sent: Option<i64>,
    /// Time of the last bundle received from them.
    pub last_received: Option<i64>,
    pub last_sent_patch_id: Option<i64>,
    pub last_received_patch_id: Option<i64>,
}

impl Clone for SyncState {
    fn clone(&self) -> (r: Self)
        ensures
            r == *self,
    {
        SyncState {
            collaborator_id: self.collaborator_id.clone(),
            collaborator_name: self.collaborator_name.clone(),
            last_sent: clone_opt_i64(&self.last_sent),
            last_received: clone_opt_i64(&self.last_received),
            last_sent_patch_id: clone_opt_i64(&self.last_sent_patch_id),
            last_received_patch_id: clone_opt_i64(&self.last_received_patch_id),
        }
    }
}

/// All collaborators' sync positions for one document.
#[derive(Debug)]
pub struct DocumentSyncState {
    pub document_id: String,
    pub collaborators: Vec<SyncState>,
}

/// Result of exporting a bundle.
#[derive(Debug)]
pub struct ExportResult {
    pub path: String,
    pub patch_count: usize,
    pub bundle_id: String,
    pub message: String,
}

/// Result of importing a bundle.
#[derive(Debug)]
pub struct ImportResult {
    pub success: bool,
    pub patches_imported: usize,
    pub conflicts_detected: usize,
    pub author: AuthorInfo,
    pub document_title: String,
    pub message: String,
}

/// What a bundle holds, summarized before importing it.
#[derive(Debug)]
pub struct BundlePreview {
    pub author: AuthorInfo,
    pub document_id: String,
    pub document_title: String,
    pub patch_count: usize,
    /// Earliest and latest patch timestamp, when the bundle has patches.
    pub date_range: Option<(i64, i64)>,
    pub potential_conflicts: usize,
    pub is_same_document: bool,
}

/// A 16-digit hexadecimal fingerprint of a binary document state, used to
/// recognize diverged bases cheaply.
pub fn calculate_state_hash(state: &Vec<u8>) -> (r: String)
    ensures
        r@ == spec_hex_fixed(default_hash64_of(state@) as nat, 16),
        r@.len() == 16,
{
    let h = crate::outside::default_hash64(state);
    let r = hex_fixed_u64(h, 16);
    proof {
        lemma_hex_fixed_len(h as nat, 16);
    }
    r
}

/// The bundled entries of the patches with local ids above `since`, in
/// storage order; all patches when `since` is absent.
pub open spec fn spec_patches_since(ps: Seq<PatchV>, since: Option<i64>) -> Seq<PatchEntryV>
    decreases ps.len(),
{
    if ps.len() == 0 {
        Seq::empty()
    } else {
        (if match since {
            Some(b) => ps[0].id > b,
            None => true,
        } {
            seq![spec_entry_of(ps[0])]
        } else {
            Seq::empty()
        }) + spec_patches_since(ps.drop_first(), since)
    }
}

/// The patches recorded after a given local id (all of them, absent an id),
/// in bundled form, insertion order.
pub fn get_patches_since(history: &History, since_id: Option<i64>) -> (r: Vec<PatchEntry>)
    ensures
        r.deep_view() == spec_patches_since(history.patches.deep_view(), since_id),
{
    let ghost ps = history.patches.deep_view();
    let mut out: Vec<PatchEntry> = Vec::new();
    let n = history.patches.len();
    for i in 0..n
        invariant
            n == history.patches.len(),
            ps == history.patches.deep_view(),
            out.deep_view() == spec_patches_since(ps.take(i as int), since_id),
    {
        proof {
            lemma_patches_since_take_step(ps, since_id, i as int);
        }
        let hit = match since_id {
            Some(b) => history.patches[i].id > b,
            None => true,
        };
        if hit {
            let e = PatchEntry::from_patch(&history.patches[i]);
            proof {
                assert(e.deep_view() == spec_entry_of(ps[i as int]));
            }
            let ghost pre = out.deep_view();
            out.push(e);
            proof {
                assert(out.deep_view() =~= pre.push(spec_entry_of(ps[i as int])));
            }
        }
        proof {
            assert(out.deep_view() =~= spec_patches_since(ps.take(i + 1), since_id));
        }
    }
    proof {
        assert(ps.take(n as int) =~= ps);
    }
    out
}

/// How many patches were recorded after a given local id.
pub fn get_patches_count_since(history: &History, since_id: Option<i64>) -> (r: usize)
    ensures
        r == spec_patches_since(history.patches.deep_view(), since_id).len(),
{
    let ghost ps = history.patches.deep_view();
    let mut count: usize = 0;
    let n = history.patches.len();
    for i in 0..n
        invariant
            n == history.patches.len(),
            ps == history.patches.deep_view(),
            count == spec_patches_since(ps.take(i as int), since_id).len(),
            count <= i,
    {
        proof {
            lemma_patches_since_take_step(ps, since_id, i as int);
        }
        let hit = match since_id {
            Some(b) => history.patches[i].id > b,
            None => true,
        };
        if hit {
            count = count + 1;
        }
    }
    proof {
        assert(ps.take(n as int) =~= ps);
    }
    count
}

/// Whether an incoming patch potentially conflicts with some local patch:
/// another author, within the conflict window.
pub open spec fn spec_entry_conflicts(local: Seq<PatchEntryV>, p: PatchEntryV) -> bool {
    exists|i: int|
        0 <= i < local.len() && (#[trigger] local[i]).author != p.author && -(
        CONFLICT_WINDOW_MS as int) <= local[i].timestamp - p.timestamp <= CONFLICT_WINDOW_MS as int
}

/// How many incoming patches potentially conflict with the local history.
pub open spec fn spec_count_potential_conflicts(
    local: Seq<PatchEntryV>,
    incoming: Seq<PatchEntryV>,
) -> nat
    decreases incoming.len(),
{
    if incoming.len() == 0 {
        0
    } else {
        (if spec_entry_conflicts(local, incoming[0]) {
            1nat
        } else {
            0nat
        }) + spec_count_potential_conflicts(local, incoming.drop_first())
    }
}

/// Counts the incoming patches that fall within the conflict window of some
/// local patch by a different author; each incoming patch counts at most
/// once.
pub fn count_potential_conflicts(local: &Vec<PatchEntry>, incoming: &Vec<PatchEntry>) -> (r: usize)
    ensures
        r == spec_count_potential_conflicts(local.deep_view(), incoming.deep_view()),
{
    let ghost lv = local.deep_view();
    let ghost iv = incoming.deep_view();
    let mut conflicts: usize = 0;
    let n = incoming.len();
    for i in 0..n
        invariant
            n == incoming.len(),
            lv == local.deep_view(),
            iv == incoming.deep_view(),
            conflicts == spec_count_potential_conflicts(lv, iv.take(i as int)),
            conflicts <= i,
    {
        proof {
            lemma_count_potential_take_step(lv, iv, i as int);
        }
        let hit = entry_conflicts_with(local, &incoming[i]);
        if hit {
            conflicts = conflicts + 1;
        }
        proof {
            assert(conflicts == spec_count_potential_conflicts(lv, iv.take(i + 1)));
        }
    }
    proof {
        assert(iv.take(n as int) =~= iv);
    }
    conflicts
}


/// Whether this patch falls within the conflict window of some local patch by
/// a different author.
fn entry_conflicts_with(local: &Vec<PatchEntry>, p: &PatchEntry) -> (r: bool)
    ensures
        r == spec_entry_conflicts(local.deep_view(), p.deep_view()),
{
    let ghost lv = local.deep_view();
    let m = local.len();
    for j in 0..m
        invariant
            m == local.len(),
            lv == local.deep_view(),
            forall|k: int|
                0 <= k < j ==> !((#[trigger] lv[k]).author != p.deep_view().author && -(
                CONFLICT_WINDOW_MS as int) <= lv[k].timestamp - p.deep_view().timestamp
                    <= CONFLICT_WINDOW_MS as int),
    {
        let same_author = str_eq(local[j].author.as_str(), p.author.as_str());
        if !same_author {
            let diff: i128 = (local[j].timestamp as i128) - (p.timestamp as i128);
            if -(CONFLICT_WINDOW_MS as i128) <= diff && diff <= CONFLICT_WINDOW_MS as i128 {
                proof {
                    assert(lv[j as int].author != p.deep_view().author);
                    assert(spec_entry_conflicts(lv, p.deep_view()));
                }
                return true;
            }
        }
    }
    false
}

/// Whether some stored patch shares an entry's timestamp, author and kind:
/// the identity bundled patches are deduplicated by.
pub open spec fn spec_has_entry_identity(ps: Seq<PatchV>, e: PatchEntryV) -> bool {
    exists|i: int|
        0 <= i < ps.len() && (#[trigger] ps[i]).timestamp == e.timestamp && ps[i].author
            == e.author && ps[i].kind == e.kind
}

/// The patch ledger, its next id, and how many entries were taken, after
/// merging the first `k` bundled entries: an entry whose timestamp, author
/// and kind are already present is skipped; a new one is stored under a fresh
/// local id, without uuid links.
pub open spec fn spec_bundle_import(
    entries: Seq<PatchEntryV>,
    ps0: Seq<PatchV>,
    next0: int,
    k: int,
) -> (Seq<PatchV>, int, nat)
    decreases k,
{
    if k <= 0 {
        (ps0, next0, 0)
    } else {
        let (ps, next, count) = spec_bundle_import(entries, ps0, next0, k - 1);
        let e = entries[k - 1];
        if spec_has_entry_identity(ps, e) {
            (ps, next, count)
        } else {
            (
                ps.push(
                    PatchV {
                        id: next as i64,
                        timestamp: e.timestamp,
                        author: e.author,
                        kind: e.kind,
                        data: e.data,
                        uuid: None,
                        parent_uuid: None,
                    },
                ),
                next + 1,
                count + 1,
            )
        }
    }
}

/// Merges bundled patches into a history, skipping entries whose timestamp,
/// author and kind are already present, and reports how many were stored.
/// Fails, changing nothing, exactly when the patch id space would not fit the
/// bundle.
pub fn import_patches_to_history(history: &mut History, patches: &Vec<PatchEntry>) -> (r: Result<
    usize,
    String,
>)
    requires
        old(history).wf(),
    ensures
        final(history).wf(),
        r matches Err(_) ==> *final(history) == *old(history),
        r is Err <==> old(history).next_patch_id as int + patches@.len() > i64::MAX as int,
        r matches Ok(count) ==> ({
            let (ps, next, c) = spec_bundle_import(
                patches.deep_view(),
                old(history).patches.deep_view(),
                old(history).next_patch_id as int,
                patches@.len() as int,
            );
            &&& final(history).patches.deep_view() == ps
            &&& final(history).next_patch_id as int == next
            &&& count == c
            &&& final(history).snapshots == old(history).snapshots
            &&& final(history).reviews == old(history).reviews
            &&& final(history).comments == old(history).comments
            &&& final(history).next_snapshot_id == old(history).next_snapshot_id
            &&& final(history).next_comment_id == old(history).next_comment_id
        }),
{
    let ghost ev = patches.deep_view();
    let ghost ps0 = history.patches.deep_view();
    let ghost next0: int = history.next_patch_id as int;
    let n = patches.len();
    if (history.next_patch_id as i128) + (n as i128) > (i64::MAX as i128) {
        return Err("patch id space cannot absorb the bundle".to_owned());
    }
    let mut imported: usize = 0;
    let mut k: usize = 0;
    while k < n
        invariant
            n == patches.len(),
            ev == patches.deep_view(),
            history.wf(),
            k <= n,
            ({
                let (ps, next, c) = spec_bundle_import(ev, ps0, next0, k as int);
                history.patches.deep_view() == ps && history.next_patch_id as int == next
                    && imported as int == c
            }),
            imported <= k,
            history.next_patch_id as int <= next0 + k as int,
            next0 + n as int <= i64::MAX as int,
            history.snapshots == old(history).snapshots,
            history.reviews == old(history).reviews,
            history.comments == old(history).comments,
            history.next_snapshot_id == old(history).next_snapshot_id,
            history.next_comment_id == old(history).next_comment_id,
        decreases n - k,
    {
        let e = &patches[k];
        let known = has_entry_identity(history, e);
        if !known {
            let new_id = history.next_patch_id;
            let stored = Patch {
                id: new_id,
                timestamp: e.timestamp,
                author: e.author.clone(),
                kind: e.kind.clone(),
                data: e.data.clone(),
                uuid: None,
                parent_uuid: None,
            };
            let ghost pre = *history;
            let ghost storedv = stored.deep_view();
            history.patches.push(stored);
            history.next_patch_id = new_id + 1;
            imported = imported + 1;
            proof {
                assert(history.patches.deep_view() =~= pre.patches.deep_view().push(storedv));
                let ps = history.patches.deep_view();
                let psp = pre.patches.deep_view();
                assert forall|a: int| 0 <= a < ps.len() implies 1 <= (#[trigger] ps[a]).id
                    < history.next_patch_id by {
                    if a < psp.len() {
                        assert(ps[a] == psp[a]);
                    }
                }
                assert forall|a: int, b: int| 0 <= a < b < ps.len() implies ps[a].id
                    < ps[b].id by {
                    if b < psp.len() {
                        assert(ps[a] == psp[a] && ps[b] == psp[b]);
                    } else {
                        assert(ps[a].id < pre.next_patch_id);
                    }
                }
                assert forall|a: int, b: int|
                    0 <= a < ps.len() && 0 <= b < ps.len() && a != b && ps[a].uuid is Some implies
                    ps[a].uuid != ps[b].uuid by {
                    if a < psp.len() && b < psp.len() {
                        assert(ps[a] == psp[a] && ps[b] == psp[b]);
                    } else if a == psp.len() {
                        assert(ps[a].uuid is None);
                    }
                }
                assert forall|a: int|
                    0 <= a < history.snapshots.deep_view().len() implies crate::history::has_patch_id(
                    ps,
                    (#[trigger] history.snapshots.deep_view()[a]).patch_id,
                ) by {
                    assert(crate::history::has_patch_id(
                        psp,
                        history.snapshots.deep_view()[a].patch_id,
                    ));
                    let w = choose|w: int|
                        0 <= w < psp.len() && (#[trigger] psp[w]).id == history.snapshots.deep_view()[
                            a
                        ].patch_id;
                    assert(ps[w].id == history.snapshots.deep_view()[a].patch_id);
                }
            }
        }
        k = k + 1;
    }
    Ok(imported)
}

/// Whether the history holds a patch with the entry's timestamp, author and
/// kind.
fn has_entry_identity(history: &History, e: &PatchEntry) -> (r: bool)
    ensures
        r == spec_has_entry_identity(history.patches.deep_view(), e.deep_view()),
{
    let ghost ps = history.patches.deep_view();
    let n = history.patches.len();
    for i in 0..n
        invariant
            n == history.patches.len(),
            ps == history.patches.deep_view(),
            forall|k: int|
                0 <= k < i ==> !((#[trigger] ps[k]).timestamp == e.deep_view().timestamp && ps[
                    k
                ].author == e.deep_view().author && ps[k].kind == e.deep_view().kind),
    {
        if history.patches[i].timestamp == e.timestamp && str_eq(
            history.patches[i].author.as_str(),
            e.author.as_str(),
        ) && str_eq(history.patches[i].kind.as_str(), e.kind.as_str()) {
            proof {
                assert(ps[i as int].timestamp == e.deep_view().timestamp && ps[i as int].author
                    == e.deep_view().author && ps[i as int].kind == e.deep_view().kind);
            }
            return true;
        }
    }
    false
}

/// The earliest timestamp among bundled patches (of a non-empty list).
pub open spec fn spec_min_ts(es: Seq<PatchEntryV>) -> i64
    decreases es.len(),
{
    if es.len() <= 1 {
        es[0].timestamp
    } else {
        let m = spec_min_ts(es.drop_last());
        if es.last().timestamp < m {
            es.last().timestamp
        } else {
            m
        }
    }
}

/// The latest timestamp among bundled patches (of a non-empty list).
pub open spec fn spec_max_ts(es: Seq<PatchEntryV>) -> i64
    decreases es.len(),
{
    if es.len() <= 1 {
        es[0].timestamp
    } else {
        let m = spec_max_ts(es.drop_last());
        if es.last().timestamp > m {
            es.last().timestamp
        } else {
            m
        }
    }
}

/// The earliest and latest timestamp among bundled patches, when there are
/// any.
pub open spec fn spec_date_range(es: Seq<PatchEntryV>) -> Option<(i64, i64)> {
    if es.len() == 0 {
        None
    } else {
        Some((spec_min_ts(es), spec_max_ts(es)))
    }
}

/// Summarizes a bundle against the local document: its author and title, how
/// many patches it carries and over what time span, how many of them fall in
/// the conflict window of local patches by other authors, and whether it was
/// exported from the same document.
pub fn preview_patch_bundle(
    bundle: &PatchBundle,
    active_document_uuid: &Option<String>,
    local: &Vec<PatchEntry>,
) -> (r: BundlePreview)
    ensures
        r.author == bundle.author,
        r.document_id@ == bundle.document_id@,
        r.document_title@ == bundle.document_title@,
        r.patch_count == bundle.patches@.len(),
        r.potential_conflicts == spec_count_potential_conflicts(
            local.deep_view(),
            bundle.patches.deep_view(),
        ),
        r.is_same_document == (active_document_uuid matches Some(u) && u@ == bundle.document_id@),
        r.date_range == spec_date_range(bundle.patches.deep_view()),
{
    let is_same_document = match active_document_uuid {
        Some(u) => str_eq(u.as_str(), bundle.document_id.as_str()),
        None => false,
    };
    let n = bundle.patches.len();
    let ghost es = bundle.patches.deep_view();
    let date_range: Option<(i64, i64)> = if n == 0 {
        None
    } else {
        let mut lo = bundle.patches[0].timestamp;
        let mut hi = bundle.patches[0].timestamp;
        proof {
            assert(es.take(1).len() == 1);
            assert(es.take(1)[0] == es[0]);
        }
        for i in 1..n
            invariant
                n == bundle.patches.len(),
                es == bundle.patches.deep_view(),
                1 <= i <= n,
                lo == spec_min_ts(es.take(i as int)),
                hi == spec_max_ts(es.take(i as int)),
        {
            proof {
                assert(es.take(i + 1).drop_last() =~= es.take(i as int));
                assert(es.take(i + 1).last() == es[i as int]);
            }
            if bundle.patches[i].timestamp < lo {
                lo = bundle.patches[i].timestamp;
            }
            if bundle.patches[i].timestamp > hi {
                hi = bundle.patches[i].timestamp;
            }
        }
        proof {
            assert(es.take(n as int) =~= es);
        }
        Some((lo, hi))
    };
    let potential_conflicts = count_potential_conflicts(local, &bundle.patches);
    BundlePreview {
        author: bundle.author.clone(),
        document_id: bundle.document_id.clone(),
        document_title: bundle.document_title.clone(),
        patch_count: n,
        date_range,
        potential_conflicts,
        is_same_document,
    }
}


/// The position of the first record for this collaborator, if any.
fn find_collaborator(collaborators: &Vec<SyncState>, cid: &str) -> (r: Option<usize>)
    ensures
        match r {
            Some(idx) => idx < collaborators@.len() && collaborators@[
                idx as int
            ].collaborator_id@ == cid@ && forall|k: int|
                0 <= k < idx ==> (#[trigger] collaborators@[k]).collaborator_id@ != cid@,
            None => forall|k: int|
                0 <= k < collaborators@.len() ==> (
                #[trigger] collaborators@[k]).collaborator_id@ != cid@,
        },
{
    let n = collaborators.len();
    for i in 0..n
        invariant
            n == collaborators.len(),
            forall|k: int| 0 <= k < i ==> (#[trigger] collaborators@[k]).collaborator_id@ != cid@,
    {
        if str_eq(collaborators[i].collaborator_id.as_str(), cid) {
            return Some(i);
        }
    }
    None
}

/// What noting a sent bundle does to the collaborator table: the first record
/// for this collaborator gets the send time and last patch id; a collaborator
/// without a record gets a fresh one named after their id.
pub open spec fn spec_note_sent(
    cs: Seq<SyncState>,
    cid: Seq<char>,
    now: i64,
    last_patch_id: Option<i64>,
) -> Seq<SyncState>
    decreases cs.len(),
{
    if cs.len() == 0 {
        cs
    } else if cs[0].collaborator_id@ == cid {
        seq![
            SyncState {
                collaborator_id: cs[0].collaborator_id,
                collaborator_name: cs[0].collaborator_name,
                last_sent: Some(now),
                last_received: cs[0].last_received,
                last_sent_patch_id: last_patch_id,
                last_received_patch_id: cs[0].last_received_patch_id,
            },
        ] + cs.drop_first()
    } else {
        seq![cs[0]] + spec_note_sent(cs.drop_first(), cid, now, last_patch_id)
    }
}

/// Whether some record belongs to this collaborator.
pub open spec fn has_collaborator(cs: Seq<SyncState>, cid: Seq<char>) -> bool {
    exists|i: int| 0 <= i < cs.len() && (#[trigger] cs[i]).collaborator_id@ == cid
}

/// Notes that a bundle was just sent to a collaborator: their record (the
/// first, if several) gets the send time and the last patch id sent; a
/// collaborator without a record gets a fresh one, named after their id.
pub fn note_sent(
    state: &mut DocumentSyncState,
    collaborator_id: String,
    now: i64,
    last_patch_id: Option<i64>,
)
    ensures
        final(state).document_id == old(state).document_id,
        has_collaborator(old(state).collaborators@, collaborator_id@)
            ==> final(state).collaborators@ == spec_note_sent(
            old(state).collaborators@,
            collaborator_id@,
            now,
            last_patch_id,
        ),
        !has_collaborator(old(state).collaborators@, collaborator_id@)
            ==> final(state).collaborators@ == old(state).collaborators@.push(
            SyncState {
                collaborator_id,
                collaborator_name: collaborator_id,
                last_sent: Some(now),
                last_received: None,
                last_sent_patch_id: last_patch_id,
                last_received_patch_id: None,
            },
        ),
{
    let ghost cs0 = state.collaborators@;
    let at = find_collaborator(&state.collaborators, collaborator_id.as_str());
    match at {
        Some(idx) => {
            proof {
                assert(has_collaborator(cs0, collaborator_id@));
            }
            let row = state.collaborators.remove(idx);
            let updated = SyncState {
                collaborator_id: row.collaborator_id,
                collaborator_name: row.collaborator_name,
                last_sent: Some(now),
                last_received: row.last_received,
                last_sent_patch_id: last_patch_id,
                last_received_patch_id: row.last_received_patch_id,
            };
            state.collaborators.insert(idx, updated);
            proof {
                lemma_note_sent_at(cs0, collaborator_id@, now, last_patch_id, idx as int);
                assert(state.collaborators@ =~= spec_note_sent(
                    cs0,
                    collaborator_id@,
                    now,
                    last_patch_id,
                ));
            }
        },
        None => {
            proof {
                assert(!has_collaborator(cs0, collaborator_id@));
            }
            state.collaborators.push(
                SyncState {
                    collaborator_id: collaborator_id.clone(),
                    collaborator_name: collaborator_id,
                    last_sent: Some(now),
                    last_received: None,
                    last_sent_patch_id: last_patch_id,
                    last_received_patch_id: None,
                },
            );
        },
    }
}

/// What noting a received bundle does: like noting a sent one, on the
/// receive-side fields.
pub open spec fn spec_note_received(
    cs: Seq<SyncState>,
    cid: Seq<char>,
    now: i64,
    last_patch_id: Option<i64>,
) -> Seq<SyncState>
    decreases cs.len(),
{
    if cs.len() == 0 {
        cs
    } else if cs[0].collaborator_id@ == cid {
        seq![
            SyncState {
                collaborator_id: cs[0].collaborator_id,
                collaborator_name: cs[0].collaborator_name,
                last_sent: cs[0].last_sent,
                last_received: Some(now),
                last_sent_patch_id: cs[0].last_sent_patch_id,
                last_received_patch_id: last_patch_id,
            },
        ] + cs.drop_first()
    } else {
        seq![cs[0]] + spec_note_received(cs.drop_first(), cid, now, last_patch_id)
    }
}

/// Notes that a bundle was just received from a collaborator: their record
/// (the first, if several) gets the receive time and the last patch id
/// received; an unknown collaborator gets a fresh record under their display
/// name.
pub fn note_received(
    state: &mut DocumentSyncState,
    collaborator_id: String,
    collaborator_name: String,
    now: i64,
    last_patch_id: Option<i64>,
)
    ensures
        final(state).document_id == old(state).document_id,
        has_collaborator(old(state).collaborators@, collaborator_id@)
            ==> final(state).collaborators@ == spec_note_received(
            old(state).collaborators@,
            collaborator_id@,
            now,
            last_patch_id,
        ),
        !has_collaborator(old(state).collaborators@, collaborator_id@)
            ==> final(state).collaborators@ == old(state).collaborators@.push(
            SyncState {
                collaborator_id,
                collaborator_name,
                last_sent: None,
                last_received: Some(now),
                last_sent_patch_id: None,
                last_received_patch_id: last_patch_id,
            },
        ),
{
    let ghost cs0 = state.collaborators@;
    let at = find_collaborator(&state.collaborators, collaborator_id.as_str());
    match at {
        Some(idx) => {
            proof {
                assert(has_collaborator(cs0, collaborator_id@));
            }
            let row = state.collaborators.remove(idx);
            let updated = SyncState {
                collaborator_id: row.collaborator_id,
                collaborator_name: row.collaborator_name,
                last_sent: row.last_sent,
                last_received: Some(now),
                last_sent_patch_id: row.last_sent_patch_id,
                last_received_patch_id: last_patch_id,
            };
            state.collaborators.insert(idx, updated);
            proof {
                lemma_note_received_at(cs0, collaborator_id@, now, last_patch_id, idx as int);
                assert(state.collaborators@ =~= spec_note_received(
                    cs0,
                    collaborator_id@,
                    now,
                    last_patch_id,
                ));
            }
        },
        None => {
            proof {
                assert(!has_collaborator(cs0, collaborator_id@));
            }
            state.collaborators.push(
                SyncState {
                    collaborator_id,
                    collaborator_name,
                    last_sent: None,
                    last_received: Some(now),
                    last_sent_patch_id: None,
                    last_received_patch_id: last_patch_id,
                },
            );
        },
    }
}

/// The last patch id sent to a collaborator, if a collaborator is named and
/// has a record with one: the point pending-change counts start from.
pub fn last_sent_patch_id_for(state: &DocumentSyncState, collaborator_id: &Option<String>) -> (r:
    Option<i64>)
    ensures
        match collaborator_id {
            Some(cid) => r == spec_last_sent_for(state.collaborators@, cid@),
            None => r is None,
        },
{
    let cid = match collaborator_id {
        Some(c) => c,
        None => {
            return None;
        },
    };
    proof {
        assert(match collaborator_id {
            Some(x) => x@ == cid@,
            None => false,
        });
    }
    let ghost cs = state.collaborators@;
    proof {
        assert(cs.skip(0) =~= cs);
    }
    let n = state.collaborators.len();
    for i in 0..n
        invariant
            n == state.collaborators.len(),
            cs == state.collaborators@,
            match collaborator_id {
                Some(x) => x@ == cid@,
                None => false,
            },
            spec_last_sent_for(cs, cid@) == spec_last_sent_for(cs.skip(i as int), cid@),
    {
        proof {
            assert(cs.skip(i as int)[0] == cs[i as int]);
            assert(cs.skip(i as int).drop_first() =~= cs.skip(i + 1));
        }
        if str_eq(state.collaborators[i].collaborator_id.as_str(), cid.as_str()) {
            let r = clone_opt_i64(&state.collaborators[i].last_sent_patch_id);
            proof {
                assert(cs.skip(i as int)[0].collaborator_id@ == cid@);
                assert(spec_last_sent_for(cs, cid@) == cs[i as int].last_sent_patch_id);
            }
            return r;
        }
    }
    proof {
        assert(cs.skip(n as int) =~= Seq::<SyncState>::empty());
    }
    None
}

/// The last patch id sent to a collaborator, from their first record.
pub open spec fn spec_last_sent_for(cs: Seq<SyncState>, cid: Seq<char>) -> Option<i64>
    decreases cs.len(),
{
    if cs.len() == 0 {
        None
    } else if cs[0].collaborator_id@ == cid {
        cs[0].last_sent_patch_id
    } else {
        spec_last_sent_for(cs.drop_first(), cid)
    }
}

/// Extending the patch list by one patch appends its entry when it lies after
/// the cut.
proof fn lemma_patches_since_take_step(ps: Seq<PatchV>, since: Option<i64>, k: int)
    requires
        0 <= k < ps.len(),
    ensures
        spec_patches_since(ps.take(k + 1), since) == spec_patches_since(ps.take(k), since) + (
        if match since {
            Some(b) => ps[k].id > b,
            None => true,
        } {
            seq![spec_entry_of(ps[k])]
        } else {
            Seq::<PatchEntryV>::empty()
        }),
    decreases k,
{
    if k == 0 {
        assert(ps.take(1) =~= seq![ps[0]]);
        assert(ps.take(1).drop_first() =~= Seq::empty());
        assert(ps.take(0) =~= Seq::empty());
        assert(spec_patches_since(ps.take(1), since) =~= spec_patches_since(ps.take(0), since) + (
        if match since {
            Some(b) => ps[0].id > b,
            None => true,
        } {
            seq![spec_entry_of(ps[0])]
        } else {
            Seq::<PatchEntryV>::empty()
        }));
    } else {
        lemma_patches_since_take_step(ps.drop_first(), since, k - 1);
        assert(ps.take(k + 1).drop_first() =~= ps.drop_first().take(k));
        assert(ps.take(k).drop_first() =~= ps.drop_first().take(k - 1));
        assert(ps.take(k + 1)[0] == ps[0]);
        assert(ps.take(k)[0] == ps[0]);
        assert(ps.drop_first()[k - 1] == ps[k]);
        assert(spec_patches_since(ps.take(k + 1), since) =~= spec_patches_since(ps.take(k), since)
            + (if match since {
            Some(b) => ps[k].id > b,
            None => true,
        } {
            seq![spec_entry_of(ps[k])]
        } else {
            Seq::<PatchEntryV>::empty()
        }));
    }
}

/// Extending the incoming list by one patch adds one to the count exactly
/// when it conflicts.
proof fn lemma_count_potential_take_step(local: Seq<PatchEntryV>, iv: Seq<PatchEntryV>, k: int)
    requires
        0 <= k < iv.len(),
    ensures
        spec_count_potential_conflicts(local, iv.take(k + 1)) == spec_count_potential_conflicts(
            local,
            iv.take(k),
        ) + (if spec_entry_conflicts(local, iv[k]) {
            1nat
        } else {
            0nat
        }),
    decreases k,
{
    if k == 0 {
        assert(iv.take(1) =~= seq![iv[0]]);
        assert(iv.take(1).drop_first() =~= Seq::empty());
        assert(iv.take(0) =~= Seq::empty());
        assert(spec_count_potential_conflicts(local, iv.take(1))
            == spec_count_potential_conflicts(local, iv.take(0)) + (if spec_entry_conflicts(
            local,
            iv[0],
        ) {
            1nat
        } else {
            0nat
        }));
    } else {
        lemma_count_potential_take_step(local, iv.drop_first(), k - 1);
        assert(iv.take(k + 1).drop_first() =~= iv.drop_first().take(k));
        assert(iv.take(k).drop_first() =~= iv.drop_first().take(k - 1));
        assert(iv.take(k + 1)[0] == iv[0]);
        assert(iv.take(k)[0] == iv[0]);
        assert(iv.drop_first()[k - 1] == iv[k]);
        assert(spec_count_potential_conflicts(local, iv.take(k + 1))
            == spec_count_potential_conflicts(local, iv.take(k)) + (if spec_entry_conflicts(
            local,
            iv[k],
        ) {
            1nat
        } else {
            0nat
        }));
    }
}

/// Updating the first record of a collaborator rewrites exactly that
/// position.
proof fn lemma_note_sent_at(
    cs: Seq<SyncState>,
    cid: Seq<char>,
    now: i64,
    last_patch_id: Option<i64>,
    idx: int,
)
    requires
        0 <= idx < cs.len(),
        cs[idx].collaborator_id@ == cid,
        forall|k: int| 0 <= k < idx ==> (#[trigger] cs[k]).collaborator_id@ != cid,
    ensures
        spec_note_sent(cs, cid, now, last_patch_id) == cs.update(
            idx,
            SyncState {
                collaborator_id: cs[idx].collaborator_id,
                collaborator_name: cs[idx].collaborator_name,
                last_sent: Some(now),
                last_received: cs[idx].last_received,
                last_sent_patch_id: last_patch_id,
                last_received_patch_id: cs[idx].last_received_patch_id,
            },
        ),
    decreases idx,
{
    if idx == 0 {
        assert(spec_note_sent(cs, cid, now, last_patch_id) =~= cs.update(
            0,
            SyncState {
                collaborator_id: cs[0].collaborator_id,
                collaborator_name: cs[0].collaborator_name,
                last_sent: Some(now),
                last_received: cs[0].last_received,
                last_sent_patch_id: last_patch_id,
                last_received_patch_id: cs[0].last_received_patch_id,
            },
        ));
    } else {
        lemma_note_sent_at(cs.drop_first(), cid, now, last_patch_id, idx - 1);
        assert(cs.drop_first()[idx - 1] == cs[idx]);
        assert(cs.drop_first().update(
            idx - 1,
            SyncState {
                collaborator_id: cs[idx].collaborator_id,
                collaborator_name: cs[idx].collaborator_name,
                last_sent: Some(now),
                last_received: cs[idx].last_received,
                last_sent_patch_id: last_patch_id,
                last_received_patch_id: cs[idx].last_received_patch_id,
            },
        ) =~= cs.update(
            idx,
            SyncState {
                collaborator_id: cs[idx].collaborator_id,
                collaborator_name: cs[idx].collaborator_name,
                last_sent: Some(now),
                last_received: cs[idx].last_received,
                last_sent_patch_id: last_patch_id,
                last_received_patch_id: cs[idx].last_received_patch_id,
            },
        ).drop_first());
        assert(spec_note_sent(cs, cid, now, last_patch_id) =~= cs.update(
            idx,
            SyncState {
                collaborator_id: cs[idx].collaborator_id,
                collaborator_name: cs[idx].collaborator_name,
                last_sent: Some(now),
                last_received: cs[idx].last_received,
                last_sent_patch_id: last_patch_id,
                last_received_patch_id: cs[idx].last_received_patch_id,
            },
        ));
    }
}

/// Updating the first record of a collaborator rewrites exactly that
/// position.
proof fn lemma_note_received_at(
    cs: Seq<SyncState>,
    cid: Seq<char>,
    now: i64,
    last_patch_id: Option<i64>,
    idx: int,
)
    requires
        0 <= idx < cs.len(),
        cs[idx].collaborator_id@ == cid,
        forall|k: int| 0 <= k < idx ==> (#[trigger] cs[k]).collaborator_id@ != cid,
    ensures
        spec_note_received(cs, cid, now, last_patch_id) == cs.update(
            idx,
            SyncState {
                collaborator_id: cs[idx].collaborator_id,
                collaborator_name: cs[idx].collaborator_name,
                last_sent: cs[idx].last_sent,
                last_received: Some(now),
                last_sent_patch_id: cs[idx].last_sent_patch_id,
                last_received_patch_id: last_patch_id,
            },
        ),
    decreases idx,
{
    if idx == 0 {
        assert(spec_note_received(cs, cid, now, last_patch_id) =~= cs.update(
            0,
            SyncState {
                collaborator_id: cs[0].collaborator_id,
                collaborator_name: cs[0].collaborator_name,
                last_sent: cs[0].last_sent,
                last_received: Some(now),
                last_sent_patch_id: cs[0].last_sent_patch_id,
                last_received_patch_id: last_patch_id,
            },
        ));
    } else {
        lemma_note_received_at(cs.drop_first(), cid, now, last_patch_id, idx - 1);
        assert(cs.drop_first()[idx - 1] == cs[idx]);
        assert(cs.drop_first().update(
            idx - 1,
            SyncState {
                collaborator_id: cs[idx].collaborator_id,
                collaborator_name: cs[idx].collaborator_name,
                last_sent: cs[idx].last_sent,
                last_received: Some(now),
                last_sent_patch_id: cs[idx].last_sent_patch_id,
                last_received_patch_id: last_patch_id,
            },
        ) =~= cs.update(
            idx,
            SyncState {
                collaborator_id: cs[idx].collaborator_id,
                collaborator_name: cs[idx].collaborator_name,
                last_sent: cs[idx].last_sent,
                last_received: Some(now),
                last_sent_patch_id: cs[idx].last_sent_patch_id,
                last_received_patch_id: last_patch_id,
            },
        ).drop_first());
        assert(spec_note_received(cs, cid, now, last_patch_id) =~= cs.update(
            idx,
            SyncState {
                collaborator_id: cs[idx].collaborator_id,
                collaborator_name: cs[idx].collaborator_name,
                last_sent: cs[idx].last_sent,
                last_received: Some(now),
                last_sent_patch_id: cs[idx].last_sent_patch_id,
                last_received_patch_id: last_patch_id,
            },
        ));
    }
}

} // verus!
