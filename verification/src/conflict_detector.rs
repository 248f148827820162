//! Detection of conflicting concurrent edits.
//!
//! The detector walks an ordered patch list, groups patches by a chained time
//! window, and within every group that has more than one author compares each
//! pair of edit operations from different authors, emitting a [`Conflict`] for
//! every overlapping pair.

use vstd::prelude::*;

use crate::models::{Conflict, ConflictStatus, ConflictType, ConflictView, TextSpan, TextSpanView};
use crate::outside::now_millis;
use crate::patch::{OpRecord, OpRecordV, Patch, PatchData, PatchV};
use crate::text::{dec_i64, dec_usize, spec_dec_int, spec_dec_nat, str_eq};

verus! {

/// The shape of a single edit operation.
#[derive(Debug, Clone, Copy, PartialEq, Eq, Structural)]
pub enum EditType {
    Insert,
    Delete,
    Replace,
}

/// One validated edit operation, flattened out of a patch payload.
#[derive(Debug)]
pub struct EditInfo {
    pub start: usize,
    pub end: usize,
    pub content: String,
    pub author: String,
    pub timestamp: i64,
    pub edit_type: EditType,
}

/// Mathematical image of an [`EditInfo`].
pub ghost struct EditView {
    pub start: int,
    pub end: int,
    pub content: Seq<char>,
    pub author: Seq<char>,
    pub timestamp: int,
    pub edit_type: EditType,
}

impl Clone for EditInfo {
    fn clone(&self) -> (r: Self)
        ensures
            r == *self,
    {
        EditInfo {
            start: self.start,
            end: self.end,
            content: self.content.clone(),
            author: self.author.clone(),
            timestamp: self.timestamp,
            edit_type: self.edit_type,
        }
    }
}

impl DeepView for EditInfo {
    type V = EditView;

    open spec fn deep_view(&self) -> EditView {
        EditView {
            start: self.start as int,
            end: self.end as int,
            content: self.content@,
            author: self.author@,
            timestamp: self.timestamp as int,
            edit_type: self.edit_type,
        }
    }
}

/// The edit operation that an operation record describes, if the record has
/// the right shape for its tag; `None` for malformed or unrecognized records.
pub open spec fn spec_parse_op(op: OpRecordV, author: Seq<char>, ts: int) -> Option<EditView> {
    if op.kind == "insert_text"@ {
        match op.at {
            Some(at) => match op.inserted_text {
                Some(text) => Some(
                    EditView {
                        start: at as int,
                        end: at as int,
                        content: text,
                        author,
                        timestamp: ts,
                        edit_type: EditType::Insert,
                    },
                ),
                None => None,
            },
            None => None,
        }
    } else if op.kind == "delete_text"@ {
        match op.range_start {
            Some(start) => match op.range_end {
                Some(end) => Some(
                    EditView {
                        start: start as int,
                        end: end as int,
                        content: match op.deleted_text {
                            Some(d) => d,
                            None => Seq::empty(),
                        },
                        author,
                        timestamp: ts,
                        edit_type: EditType::Delete,
                    },
                ),
                None => None,
            },
            None => None,
        }
    } else if op.kind == "replace_text"@ {
        match op.range_start {
            Some(start) => match op.range_end {
                Some(end) => Some(
                    EditView {
                        start: start as int,
                        end: end as int,
                        content: match op.inserted_text {
                            Some(i) => i,
                            None => Seq::empty(),
                        },
                        author,
                        timestamp: ts,
                        edit_type: EditType::Replace,
                    },
                ),
                None => None,
            },
            None => None,
        }
    } else {
        None
    }
}

/// The edits described by a list of operation records, in order, skipping
/// malformed ones.
pub open spec fn spec_parse_ops(ops: Seq<OpRecordV>, author: Seq<char>, ts: int) -> Seq<EditView>
    decreases ops.len(),
{
    if ops.len() == 0 {
        Seq::empty()
    } else {
        (match spec_parse_op(ops[0], author, ts) {
            Some(e) => seq![e],
            None => Seq::empty(),
        }) + spec_parse_ops(ops.drop_first(), author, ts)
    }
}

/// The edits one patch contributes: its payload's operations, when the
/// payload is a list of operations, and nothing otherwise.
pub open spec fn spec_patch_edits(p: PatchV) -> Seq<EditView> {
    spec_parse_ops(p.data.ops(), p.author, p.timestamp as int)
}

/// All edits of a patch group, patch by patch in order.
pub open spec fn spec_group_edits(g: Seq<PatchV>) -> Seq<EditView>
    decreases g.len(),
{
    if g.len() == 0 {
        Seq::empty()
    } else {
        spec_patch_edits(g[0]) + spec_group_edits(g.drop_first())
    }
}

/// Whether a patch group has edits from at least two distinct authors.
pub open spec fn spec_multi_author(g: Seq<PatchV>) -> bool {
    exists|i: int, j: int|
        0 <= i < g.len() && 0 <= j < g.len() && g[i].author != g[j].author
}

/// Whether two edits clash: two inserts clash exactly when they target the
/// same position; any other pair clashes exactly when their half-open ranges
/// overlap.
pub open spec fn spec_overlap(a: EditView, b: EditView) -> bool {
    if a.edit_type == EditType::Insert && b.edit_type == EditType::Insert {
        a.start == b.start
    } else {
        a.start < b.end && b.start < a.end
    }
}

/// How a clashing pair of edits is classified.
pub open spec fn spec_classify(a: EditType, b: EditType) -> ConflictType {
    if a == EditType::Insert && b == EditType::Insert {
        ConflictType::ConcurrentInsert
    } else if (a == EditType::Delete && b == EditType::Replace) || (a == EditType::Replace && b
        == EditType::Delete) {
        ConflictType::DeleteModify
    } else {
        ConflictType::OverlappingEdit
    }
}

/// The conflict record emitted for a clashing pair: its id is
/// `"<local ts>-<remote ts>-<local start>"`, its base version spans the union
/// of the two ranges with no reconstructed content, and it starts unresolved.
pub open spec fn spec_make_conflict(l: EditView, r: EditView, now: int) -> ConflictView {
    ConflictView {
        id: spec_dec_int(l.timestamp) + seq!['-'] + spec_dec_int(r.timestamp) + seq!['-']
            + spec_dec_nat(l.start as nat),
        conflict_type: spec_classify(l.edit_type, r.edit_type),
        base_version: TextSpanView {
            start: if l.start <= r.start {
                l.start
            } else {
                r.start
            },
            end: if l.end >= r.end {
                l.end
            } else {
                r.end
            },
            content: Seq::empty(),
            author: "base"@,
            timestamp: 0,
        },
        local_version: TextSpanView {
            start: l.start,
            end: l.end,
            content: l.content,
            author: l.author,
            timestamp: l.timestamp,
        },
        remote_version: TextSpanView {
            start: r.start,
            end: r.end,
            content: r.content,
            author: r.author,
            timestamp: r.timestamp,
        },
        status: ConflictStatus::Unresolved,
        detected_at: now,
    }
}

/// The conflicts from comparing pairs `(i, j)` of `edits` with `i < j`, in
/// scan order, starting at the given pair.
pub open spec fn spec_conflicts_upper(edits: Seq<EditView>, i: int, j: int, now: int) -> Seq<
    ConflictView,
>
    decreases edits.len() - i, edits.len() + 1 - j,
{
    if i < 0 || j < i + 1 || edits.len() <= i {
        Seq::empty()
    } else if j >= edits.len() {
        spec_conflicts_upper(edits, i + 1, i + 2, now)
    } else {
        (if edits[i].author != edits[j].author && spec_overlap(edits[i], edits[j]) {
            seq![spec_make_conflict(edits[i], edits[j], now)]
        } else {
            Seq::empty()
        }) + spec_conflicts_upper(edits, i, j + 1, now)
    }
}

/// What a single patch group contributes: nothing unless it has two authors,
/// else the conflicts of all clashing cross-author pairs of its edits.
pub open spec fn spec_group_conflicts(g: Seq<PatchV>, now: int) -> Seq<ConflictView> {
    if spec_multi_author(g) {
        spec_conflicts_upper(spec_group_edits(g), 0, 1, now)
    } else {
        Seq::empty()
    }
}

/// The conflicts of all groups from position `i` on, with the current group
/// having started at `gs`. A new group starts wherever a patch follows its
/// predecessor by more than the window; otherwise the window chains.
pub open spec fn spec_detect_from(
    patches: Seq<PatchV>,
    window: int,
    now: int,
    gs: int,
    i: int,
) -> Seq<ConflictView>
    decreases patches.len() - i,
{
    if i < 1 || i > patches.len() || gs < 0 || gs >= i {
        Seq::empty()
    } else if i == patches.len() {
        spec_group_conflicts(patches.subrange(gs, i), now)
    } else if patches[i].timestamp - patches[i - 1].timestamp <= window {
        spec_detect_from(patches, window, now, gs, i + 1)
    } else {
        spec_group_conflicts(patches.subrange(gs, i), now) + spec_detect_from(
            patches,
            window,
            now,
            i,
            i + 1,
        )
    }
}

/// All conflicts detected over a patch list: group by chained time window,
/// drop single-author groups, and emit every clashing cross-author pair.
pub open spec fn spec_detect(patches: Seq<PatchV>, window: int, now: int) -> Seq<ConflictView> {
    if patches.len() == 0 {
        Seq::empty()
    } else {
        spec_detect_from(patches, window, now, 0, 1)
    }
}

/// A patch list without a window break forms one chained group.
proof fn lemma_detect_from_no_breaks(patches: Seq<PatchV>, window: int, now: int, i: int)
    requires
        1 <= i <= patches.len(),
        forall|k: int|
            i <= k < patches.len() ==> (#[trigger] patches[k]).timestamp - patches[k
                - 1].timestamp <= window,
    ensures
        spec_detect_from(patches, window, now, 0, i) == spec_group_conflicts(patches, now),
    decreases patches.len() - i,
{
    if i == patches.len() {
        assert(patches.subrange(0, i) =~= patches);
    } else {
        assert(patches[i].timestamp - patches[i - 1].timestamp <= window);
        lemma_detect_from_no_breaks(patches, window, now, i + 1);
    }
}

/// Law: the time window chains. As long as every patch follows its
/// predecessor within the window, all patches form one group — however far
/// apart the first and the last are. Patches at 0, 4000 and 8000 with a
/// 5000 ms window are one group, not two.
pub proof fn lemma_window_chaining(patches: Seq<PatchV>, window: int, now: int)
    requires
        patches.len() > 0,
        forall|k: int|
            1 <= k < patches.len() ==> (#[trigger] patches[k]).timestamp - patches[k
                - 1].timestamp <= window,
    ensures
        spec_detect(patches, window, now) == spec_group_conflicts(patches, now),
{
    lemma_detect_from_no_breaks(patches, window, now, 1);
}

/// Every conflict from a pair scan pairs two distinct authors.
proof fn lemma_conflicts_upper_authors(edits: Seq<EditView>, i: int, j: int, now: int)
    ensures
        forall|k: int|
            0 <= k < spec_conflicts_upper(edits, i, j, now).len() ==> (#[trigger] spec_conflicts_upper(
                edits,
                i,
                j,
                now,
            )[k]).local_version.author != spec_conflicts_upper(edits, i, j, now)[k].remote_version.author,
    decreases edits.len() - i, edits.len() + 1 - j,
{
    if i < 0 || j < i + 1 || edits.len() <= i {
    } else if j >= edits.len() {
        lemma_conflicts_upper_authors(edits, i + 1, i + 2, now);
    } else {
        lemma_conflicts_upper_authors(edits, i, j + 1, now);
    }
}

/// Every conflict from the group walk pairs two distinct authors.
proof fn lemma_detect_from_authors(patches: Seq<PatchV>, window: int, now: int, gs: int, i: int)
    ensures
        forall|k: int|
            0 <= k < spec_detect_from(patches, window, now, gs, i).len() ==> (
            #[trigger] spec_detect_from(patches, window, now, gs, i)[k]).local_version.author
                != spec_detect_from(patches, window, now, gs, i)[k].remote_version.author,
    decreases patches.len() - i,
{
    if i < 1 || i > patches.len() || gs < 0 || gs >= i {
    } else if i == patches.len() {
        lemma_conflicts_upper_authors(spec_group_edits(patches.subrange(gs, i)), 0, 1, now);
    } else if patches[i].timestamp - patches[i - 1].timestamp <= window {
        lemma_detect_from_authors(patches, window, now, gs, i + 1);
    } else {
        lemma_conflicts_upper_authors(spec_group_edits(patches.subrange(gs, i)), 0, 1, now);
        lemma_detect_from_authors(patches, window, now, i, i + 1);
    }
}

/// Law: two overlapping edits from the same author never produce a conflict,
/// regardless of timing — every conflict the detector emits pairs two
/// different authors, for every patch list, window and detection time.
pub proof fn lemma_same_author_exemption(patches: Seq<PatchV>, window: int, now: int)
    ensures
        forall|k: int|
            0 <= k < spec_detect(patches, window, now).len() ==> (#[trigger] spec_detect(
                patches,
                window,
                now,
            )[k]).local_version.author != spec_detect(patches, window, now)[k].remote_version.author,
{
    if patches.len() > 0 {
        lemma_detect_from_authors(patches, window, now, 0, 1);
    }
}

/// Detects conflicts by analyzing overlapping patches from different authors.
pub struct ConflictDetector {
    /// Time window (ms) within which concurrent edits are considered conflicting.
    pub concurrency_window: i64,
}

impl ConflictDetector {
    pub fn new(concurrency_window_ms: i64) -> (r: Self)
        ensures
            r.concurrency_window == concurrency_window_ms,
    {
        Self { concurrency_window: concurrency_window_ms }
    }

    /// Analyzes patches and detects conflicts, stamping each with the current
    /// time.
    pub fn detect_conflicts(&self, patches: &Vec<Patch>) -> (r: Vec<Conflict>)
        ensures
            exists|now: int|
                r.deep_view() == spec_detect(
                    patches.deep_view(),
                    self.concurrency_window as int,
                    now,
                ),
    {
        let now = now_millis();
        let r = self.detect_conflicts_at(patches, now);
        proof {
            assert(r.deep_view() == spec_detect(
                patches.deep_view(),
                self.concurrency_window as int,
                now as int,
            ));
        }
        r
    }

    /// Analyzes patches and detects conflicts, stamping each with the given
    /// detection time.
    pub fn detect_conflicts_at(&self, patches: &Vec<Patch>, now: i64) -> (r: Vec<Conflict>)
        ensures
            r.deep_view() == spec_detect(
                patches.deep_view(),
                self.concurrency_window as int,
                now as int,
            ),
    {
        let ghost pv = patches.deep_view();
        let ghost w = self.concurrency_window as int;
        let mut conflicts: Vec<Conflict> = Vec::new();
        let n = patches.len();
        if n == 0 {
            return conflicts;
        }
        let mut gs: usize = 0;
        let mut i: usize = 1;
        while i < n
            invariant
                1 <= i <= n,
                gs < i,
                n == patches.len(),
                pv == patches.deep_view(),
                w == self.concurrency_window as int,
                spec_detect(pv, w, now as int) == conflicts.deep_view() + spec_detect_from(
                    pv,
                    w,
                    now as int,
                    gs as int,
                    i as int,
                ),
            decreases n - i,
        {
            let gap_over = (patches[i].timestamp as i128) - (patches[i - 1].timestamp as i128) > (
            self.concurrency_window as i128);
            if gap_over {
                self.emit_group_conflicts(patches, gs, i, now, &mut conflicts);
                gs = i;
            }
            i = i + 1;
        }
        self.emit_group_conflicts(patches, gs, n, now, &mut conflicts);
        proof {
            assert(conflicts.deep_view() =~= spec_detect(pv, w, now as int));
        }
        conflicts
    }

    /// Appends the conflicts of the patch group `patches[lo..hi]`.
    fn emit_group_conflicts(
        &self,
        patches: &Vec<Patch>,
        lo: usize,
        hi: usize,
        now: i64,
        out: &mut Vec<Conflict>,
    )
        requires
            lo < hi <= patches.len(),
        ensures
            final(out).deep_view() == old(out).deep_view() + spec_group_conflicts(
                patches.deep_view().subrange(lo as int, hi as int),
                now as int,
            ),
    {
        let ghost g = patches.deep_view().subrange(lo as int, hi as int);
        let multi = multi_author(patches, lo, hi);
        if !multi {
            proof {
                assert(out.deep_view() =~= old(out).deep_view() + spec_group_conflicts(
                    g,
                    now as int,
                ));
            }
            return ;
        }
        let edits = collect_group_edits(patches, lo, hi);
        self.find_overlapping_edits(&edits, now, out);
    }

    /// Compares every cross-author pair of edits and appends a conflict for
    /// each clashing one, in scan order.
    fn find_overlapping_edits(&self, edits: &Vec<EditInfo>, now: i64, out: &mut Vec<Conflict>)
        ensures
            final(out).deep_view() == old(out).deep_view() + spec_conflicts_upper(
                edits.deep_view(),
                0,
                1,
                now as int,
            ),
    {
        let ghost ev = edits.deep_view();
        let ghost total = spec_conflicts_upper(ev, 0, 1, now as int);
        let n = edits.len();
        let mut i: usize = 0;
        while i < n
            invariant
                i <= n,
                n == edits.len(),
                ev == edits.deep_view(),
                old(out).deep_view() + total == out.deep_view() + spec_conflicts_upper(
                    ev,
                    i as int,
                    i as int + 1,
                    now as int,
                ),
            decreases n - i,
        {
            let mut j: usize = i + 1;
            while j < n
                invariant
                    i < n,
                    i + 1 <= j <= n,
                    n == edits.len(),
                    ev == edits.deep_view(),
                    old(out).deep_view() + total == out.deep_view() + spec_conflicts_upper(
                        ev,
                        i as int,
                        j as int,
                        now as int,
                    ),
                decreases n - j,
            {
                let same_author = str_eq(edits[i].author.as_str(), edits[j].author.as_str());
                if !same_author && self.ranges_overlap(&edits[i], &edits[j]) {
                    let c = self.create_conflict(&edits[i], &edits[j], now);
                    out.push(c);
                }
                j = j + 1;
            }
            i = i + 1;
        }
        proof {
            assert(out.deep_view() =~= old(out).deep_view() + total);
        }
    }

    /// Whether two edits clash: inserts at the same position, or any other
    /// pair with overlapping ranges.
    pub fn ranges_overlap(&self, a: &EditInfo, b: &EditInfo) -> (r: bool)
        ensures
            r == spec_overlap(a.deep_view(), b.deep_view()),
    {
        if matches!(a.edit_type, EditType::Insert) && matches!(b.edit_type, EditType::Insert) {
            return a.start == b.start;
        }
        a.start < b.end && b.start < a.end
    }

    /// Builds the conflict record for a clashing pair of edits.
    fn create_conflict(&self, local: &EditInfo, remote: &EditInfo, now: i64) -> (r: Conflict)
        ensures
            r.deep_view() == spec_make_conflict(local.deep_view(), remote.deep_view(), now as int),
    {
        proof {
            reveal_strlit("-");
            reveal_strlit("base");
        }
        let mut id = dec_i64(local.timestamp);
        id.append("-");
        id.append(dec_i64(remote.timestamp).as_str());
        id.append("-");
        id.append(dec_usize(local.start).as_str());
        proof {
            assert("-"@ =~= seq!['-']);
            assert(id@ =~= spec_dec_int(local.timestamp as int) + seq!['-'] + spec_dec_int(
                remote.timestamp as int,
            ) + seq!['-'] + spec_dec_nat(local.start as nat));
        }
        let base_author = "base".to_owned();
        proof {
            assert(base_author@ == "base"@);
        }
        Conflict {
            id,
            conflict_type: classify(local.edit_type, remote.edit_type),
            base_version: TextSpan {
                start: if local.start <= remote.start {
                    local.start
                } else {
                    remote.start
                },
                end: if local.end >= remote.end {
                    local.end
                } else {
                    remote.end
                },
                content: String::new(),
                author: base_author,
                timestamp: 0,
            },
            local_version: TextSpan {
                start: local.start,
                end: local.end,
                content: local.content.clone(),
                author: local.author.clone(),
                timestamp: local.timestamp,
            },
            remote_version: TextSpan {
                start: remote.start,
                end: remote.end,
                content: remote.content.clone(),
                author: remote.author.clone(),
                timestamp: remote.timestamp,
            },
            status: ConflictStatus::Unresolved,
            detected_at: now,
        }
    }
}

/// Classifies a clashing pair of edit shapes.
fn classify(a: EditType, b: EditType) -> (r: ConflictType)
    ensures
        r == spec_classify(a, b),
{
    if matches!(a, EditType::Insert) && matches!(b, EditType::Insert) {
        ConflictType::ConcurrentInsert
    } else if (matches!(a, EditType::Delete) && matches!(b, EditType::Replace)) || (matches!(
        a,
        EditType::Replace,
    ) && matches!(b, EditType::Delete)) {
        ConflictType::DeleteModify
    } else {
        ConflictType::OverlappingEdit
    }
}

/// Whether the patch group `patches[lo..hi]` has more than one author.
fn multi_author(patches: &Vec<Patch>, lo: usize, hi: usize) -> (r: bool)
    requires
        lo < hi <= patches.len(),
    ensures
        r == spec_multi_author(patches.deep_view().subrange(lo as int, hi as int)),
{
    let ghost g = patches.deep_view().subrange(lo as int, hi as int);
    let mut k: usize = lo + 1;
    while k < hi
        invariant
            lo < hi <= patches.len(),
            lo + 1 <= k <= hi,
            g == patches.deep_view().subrange(lo as int, hi as int),
            forall|m: int| 0 <= m < k - lo ==> #[trigger] g[m].author == g[0].author,
        decreases hi - k,
    {
        if !str_eq(patches[k].author.as_str(), patches[lo].author.as_str()) {
            proof {
                assert(g[k - lo].author != g[0].author);
            }
            return true;
        }
        k = k + 1;
    }
    proof {
        assert forall|i: int, j: int|
            0 <= i < g.len() && 0 <= j < g.len() implies g[i].author == g[j].author by {
            assert(g[i].author == g[0].author);
            assert(g[j].author == g[0].author);
        }
    }
    false
}

/// Flattens the edits of the patch group `patches[lo..hi]`, in patch order.
fn collect_group_edits(patches: &Vec<Patch>, lo: usize, hi: usize) -> (r: Vec<EditInfo>)
    requires
        lo <= hi <= patches.len(),
    ensures
        r.deep_view() == spec_group_edits(patches.deep_view().subrange(lo as int, hi as int)),
{
    let ghost g = patches.deep_view().subrange(lo as int, hi as int);
    let mut edits: Vec<EditInfo> = Vec::new();
    let mut k: usize = lo;
    while k < hi
        invariant
            lo <= k <= hi <= patches.len(),
            g == patches.deep_view().subrange(lo as int, hi as int),
            edits.deep_view() == spec_group_edits(g.take(k - lo)),
        decreases hi - k,
    {
        let mut patch_edits = extract_all_edit_infos(&patches[k]);
        proof {
            lemma_group_edits_take_step(g, k - lo);
            assert(g[k - lo] == patches.deep_view()[k as int]);
        }
        let m = patch_edits.len();
        let ghost before = edits.deep_view();
        let ghost pe = patch_edits.deep_view();
        for t in 0..m
            invariant
                m == patch_edits.len(),
                pe == patch_edits.deep_view(),
                edits.deep_view() =~= before + pe.take(t as int),
        {
            let e = patch_edits[t].clone();
            proof {
                assert(e.deep_view() == pe[t as int]);
            }
            let ghost pre = edits.deep_view();
            edits.push(e);
            proof {
                assert(edits.deep_view() =~= pre.push(pe[t as int]));
                assert(pre.push(pe[t as int]) =~= before + pe.take(t as int + 1));
            }
        }
        proof {
            assert(pe.take(m as int) =~= pe);
            assert(edits.deep_view() =~= spec_group_edits(g.take(k + 1 - lo)));
        }
        k = k + 1;
    }
    proof {
        assert(g.take(hi - lo) =~= g);
    }
    edits
}

/// Extending a group by one patch appends that patch's edits.
proof fn lemma_group_edits_take_step(g: Seq<PatchV>, k: int)
    requires
        0 <= k < g.len(),
    ensures
        spec_group_edits(g.take(k + 1)) == spec_group_edits(g.take(k)) + spec_patch_edits(g[k]),
    decreases k,
{
    if k == 0 {
        assert(g.take(1) =~= seq![g[0]]);
        assert(g.take(1).drop_first() =~= Seq::empty());
        assert(g.take(0) =~= Seq::empty());
        assert(spec_group_edits(g.take(1)) =~= spec_group_edits(g.take(0)) + spec_patch_edits(
            g[0],
        ));
    } else {
        lemma_group_edits_take_step(g.drop_first(), k - 1);
        assert(g.take(k + 1).drop_first() =~= g.drop_first().take(k));
        assert(g.take(k).drop_first() =~= g.drop_first().take(k - 1));
        assert(g.take(k + 1)[0] == g[0]);
        assert(g.take(k)[0] == g[0]);
        assert(g.drop_first()[k - 1] == g[k]);
        assert(spec_group_edits(g.take(k + 1)) =~= spec_group_edits(g.take(k)) + spec_patch_edits(
            g[k],
        ));
    }
}

/// Extending an operation list by one record appends what it parses to.
proof fn lemma_parse_ops_take_step(ops: Seq<OpRecordV>, author: Seq<char>, ts: int, k: int)
    requires
        0 <= k < ops.len(),
    ensures
        spec_parse_ops(ops.take(k + 1), author, ts) == spec_parse_ops(ops.take(k), author, ts) + (
        match spec_parse_op(ops[k], author, ts) {
            Some(e) => seq![e],
            None => Seq::<EditView>::empty(),
        }),
    decreases k,
{
    if k == 0 {
        assert(ops.take(1) =~= seq![ops[0]]);
        assert(ops.take(1).drop_first() =~= Seq::empty());
        assert(ops.take(0) =~= Seq::empty());
        assert(spec_parse_ops(ops.take(1), author, ts) =~= spec_parse_ops(ops.take(0), author, ts)
            + (match spec_parse_op(ops[0], author, ts) {
            Some(e) => seq![e],
            None => Seq::<EditView>::empty(),
        }));
    } else {
        lemma_parse_ops_take_step(ops.drop_first(), author, ts, k - 1);
        assert(ops.take(k + 1).drop_first() =~= ops.drop_first().take(k));
        assert(ops.take(k).drop_first() =~= ops.drop_first().take(k - 1));
        assert(ops.take(k + 1)[0] == ops[0]);
        assert(ops.take(k)[0] == ops[0]);
        assert(ops.drop_first()[k - 1] == ops[k]);
        assert(spec_parse_ops(ops.take(k + 1), author, ts) =~= spec_parse_ops(
            ops.take(k),
            author,
            ts,
        ) + (match spec_parse_op(ops[k], author, ts) {
            Some(e) => seq![e],
            None => Seq::<EditView>::empty(),
        }));
    }
}

/// Flattens one patch's payload into validated edits, skipping malformed or
/// unrecognized operation records.
pub fn extract_all_edit_infos(patch: &Patch) -> (r: Vec<EditInfo>)
    ensures
        r.deep_view() == spec_patch_edits(patch.deep_view()),
{
    let mut edits: Vec<EditInfo> = Vec::new();
    match &patch.data {
        PatchData::Ops(ops) => {
            let ghost ov = ops.deep_view();
            let n = ops.len();
            for k in 0..n
                invariant
                    n == ops.len(),
                    ov == ops.deep_view(),
                    edits.deep_view() == spec_parse_ops(
                        ov.take(k as int),
                        patch.author@,
                        patch.timestamp as int,
                    ),
            {
                proof {
                    lemma_parse_ops_take_step(ov, patch.author@, patch.timestamp as int, k as int);
                }
                match parse_single_operation(&ops[k], &patch.author, patch.timestamp) {
                    Some(e) => {
                        edits.push(e);
                    },
                    None => (),
                }
                proof {
                    assert(edits.deep_view() =~= spec_parse_ops(
                        ov.take(k + 1),
                        patch.author@,
                        patch.timestamp as int,
                    ));
                }
            }
            proof {
                assert(ov.take(n as int) =~= ov);
                assert(patch.deep_view().data.ops() == ov);
            }
        },
        PatchData::Snapshot(_) => {
            proof {
                assert(patch.deep_view().data.ops() =~= Seq::<OpRecordV>::empty());
            }
        },
        PatchData::Opaque => {
            proof {
                assert(patch.deep_view().data.ops() =~= Seq::<OpRecordV>::empty());
            }
        },
    }
    edits
}

/// Validates one operation record, yielding the edit it describes or `None`
/// for a malformed or unrecognized record.
pub fn parse_single_operation(op: &OpRecord, author: &String, timestamp: i64) -> (r: Option<
    EditInfo,
>)
    ensures
        r.deep_view() == spec_parse_op(op.deep_view(), author@, timestamp as int),
{
    if str_eq(op.kind.as_str(), "insert_text") {
        match &op.at {
            Some(at) => match &op.inserted_text {
                Some(text) => Some(
                    EditInfo {
                        start: *at,
                        end: *at,
                        content: text.clone(),
                        author: author.clone(),
                        timestamp,
                        edit_type: EditType::Insert,
                    },
                ),
                None => None,
            },
            None => None,
        }
    } else if str_eq(op.kind.as_str(), "delete_text") {
        match &op.range_start {
            Some(start) => match &op.range_end {
                Some(end) => {
                    let content = match &op.deleted_text {
                        Some(d) => d.clone(),
                        None => String::new(),
                    };
                    Some(
                        EditInfo {
                            start: *start,
                            end: *end,
                            content,
                            author: author.clone(),
                            timestamp,
                            edit_type: EditType::Delete,
                        },
                    )
                },
                None => None,
            },
            None => None,
        }
    } else if str_eq(op.kind.as_str(), "replace_text") {
        match &op.range_start {
            Some(start) => match &op.range_end {
                Some(end) => {
                    let content = match &op.inserted_text {
                        Some(i) => i.clone(),
                        None => String::new(),
                    };
                    Some(
                        EditInfo {
                            start: *start,
                            end: *end,
                            content,
                            author: author.clone(),
                            timestamp,
                            edit_type: EditType::Replace,
                        },
                    )
                },
                None => None,
            },
            None => None,
        }
    } else {
        None
    }
}

} // verus!
