//! Idempotent persistence and resolution of detected conflicts.
//!
//! A [`ConflictStore`] keeps one row per conflict id. Storing an already-known
//! id is silently ignored, so detection may be re-run over growing history
//! without duplicating entries; resolving updates the row in place.

use vstd::prelude::*;

use crate::models::{Conflict, ConflictStatus, ConflictType, ResolutionInput};
use crate::patch::clone_opt_string;
use crate::text::str_eq;

verus! {

/// One stored conflict: the record itself plus the resolution columns that
/// only resolution fills in.
pub struct ConflictRow {
    pub conflict: Conflict,
    pub resolved_content: Option<String>,
    pub resolved_at: Option<i64>,
}

/// The table of detected conflicts for one installation.
pub struct ConflictStore {
    pub rows: Vec<ConflictRow>,
}

/// Whether some row holds the given conflict id.
pub open spec fn has_conflict_id(s: Seq<ConflictRow>, id: Seq<char>) -> bool {
    exists|i: int| 0 <= i < s.len() && s[i].conflict.id@ == id
}

/// A store is well formed when no two rows share a conflict id.
pub open spec fn rows_wf(s: Seq<ConflictRow>) -> bool {
    forall|i: int, j: int|
        0 <= i < s.len() && 0 <= j < s.len() && i != j ==> s[i].conflict.id@ != s[j].conflict.id@
}

/// What storing a conflict does: nothing if its id is already present, else
/// a new unresolved row at the end.
pub open spec fn spec_store_conflict(s: Seq<ConflictRow>, c: Conflict) -> Seq<ConflictRow> {
    if has_conflict_id(s, c.id@) {
        s
    } else {
        s.push(ConflictRow { conflict: c, resolved_content: None, resolved_at: None })
    }
}

/// What resolving does: every row whose id matches (at most one, in a well
/// formed store) gets the new status, merged content and resolution time;
/// other rows are untouched.
pub open spec fn spec_resolve_conflict(
    s: Seq<ConflictRow>,
    input: ResolutionInput,
    now: i64,
) -> Seq<ConflictRow> {
    Seq::new(
        s.len(),
        |i: int|
            if s[i].conflict.id@ == input.conflict_id@ {
                ConflictRow {
                    conflict: Conflict {
                        id: s[i].conflict.id,
                        conflict_type: s[i].conflict.conflict_type,
                        base_version: s[i].conflict.base_version,
                        local_version: s[i].conflict.local_version,
                        remote_version: s[i].conflict.remote_version,
                        status: input.resolution,
                        detected_at: s[i].conflict.detected_at,
                    },
                    resolved_content: input.merged_content,
                    resolved_at: Some(now),
                }
            } else {
                s[i]
            },
    )
}

/// The unresolved conflicts of a row list, in row order.
pub open spec fn spec_unresolved(s: Seq<ConflictRow>) -> Seq<Conflict>
    decreases s.len(),
{
    if s.len() == 0 {
        Seq::empty()
    } else {
        (if s[0].conflict.status == ConflictStatus::Unresolved {
            seq![s[0].conflict]
        } else {
            Seq::empty()
        }) + spec_unresolved(s.drop_first())
    }
}

/// Inserts a conflict after every entry detected no earlier than it, so that
/// a list sorted newest-first stays sorted and entries of equal age keep
/// their order.
pub open spec fn spec_insert_desc(s: Seq<Conflict>, c: Conflict) -> Seq<Conflict>
    decreases s.len(),
{
    if s.len() == 0 {
        seq![c]
    } else if s[0].detected_at >= c.detected_at {
        seq![s[0]] + spec_insert_desc(s.drop_first(), c)
    } else {
        seq![c] + s
    }
}

/// Sorts conflicts newest-detected first; entries of equal age keep their
/// relative order.
pub open spec fn spec_sort_desc(s: Seq<Conflict>) -> Seq<Conflict>
    decreases s.len(),
{
    if s.len() == 0 {
        Seq::empty()
    } else {
        spec_insert_desc(spec_sort_desc(s.drop_last()), s.last())
    }
}

impl ConflictStore {
    /// A store is well formed when no two rows share a conflict id.
    pub open spec fn wf(self) -> bool {
        rows_wf(self.rows@)
    }

    /// Creates an empty conflict store.
    pub fn new() -> (r: Self)
        ensures
            r.wf(),
            r.rows@ == Seq::<ConflictRow>::empty(),
    {
        ConflictStore { rows: Vec::new() }
    }
}

/// Stores a detected conflict. Idempotent: a conflict whose id is already
/// present is silently ignored.
pub fn store_conflict(store: &mut ConflictStore, conflict: &Conflict) -> (r: Result<(), String>)
    requires
        old(store).wf(),
    ensures
        final(store).wf(),
        final(store).rows@ == spec_store_conflict(old(store).rows@, *conflict),
        r is Ok,
{
    let n = store.rows.len();
    for i in 0..n
        invariant
            n == store.rows.len(),
            *store == *old(store),
            old(store).wf(),
            forall|k: int| 0 <= k < i ==> store.rows@[k].conflict.id@ != conflict.id@,
    {
        if str_eq(store.rows[i].conflict.id.as_str(), conflict.id.as_str()) {
            proof {
                assert(has_conflict_id(store.rows@, conflict.id@));
            }
            return Ok(());
        }
    }
    proof {
        assert(!has_conflict_id(store.rows@, conflict.id@));
    }
    let row = ConflictRow {
        conflict: conflict.clone(),
        resolved_content: None,
        resolved_at: None,
    };
    proof {
        let s = store.rows@;
        assert forall|i: int, j: int|
            0 <= i < s.len() + 1 && 0 <= j < s.len() + 1 && i != j implies s.push(
            row,
        )[i].conflict.id@ != s.push(row)[j].conflict.id@ by {
            if i < s.len() && j < s.len() {
                assert(s[i].conflict.id@ != s[j].conflict.id@);
            } else if i == s.len() {
                assert(s[j].conflict.id@ != conflict.id@);
            } else {
                assert(s[i].conflict.id@ != conflict.id@);
            }
        }
    }
    store.rows.push(row);
    Ok(())
}

/// Lists the unresolved conflicts, newest-detected first; conflicts detected
/// at the same time keep their storage order.
pub fn get_unresolved_conflicts(store: &ConflictStore) -> (r: Result<Vec<Conflict>, String>)
    ensures
        r matches Ok(v) && v@ == spec_sort_desc(spec_unresolved(store.rows@)),
{
    let mut unresolved: Vec<Conflict> = Vec::new();
    let n = store.rows.len();
    for i in 0..n
        invariant
            n == store.rows.len(),
            unresolved@ == spec_unresolved(store.rows@.take(i as int)),
    {
        proof {
            lemma_unresolved_take_step(store.rows@, i as int);
        }
        if matches!(store.rows[i].conflict.status, ConflictStatus::Unresolved) {
            unresolved.push(store.rows[i].conflict.clone());
        }
        proof {
            assert(unresolved@ =~= spec_unresolved(store.rows@.take(i + 1)));
        }
    }
    proof {
        assert(store.rows@.take(n as int) =~= store.rows@);
    }
    Ok(sort_conflicts_desc(unresolved))
}

/// Updates a conflict's status, merged content and resolution time. A
/// resolution whose id matches no row changes nothing and still succeeds.
pub fn resolve_conflict(
    store: &mut ConflictStore,
    resolution: &ResolutionInput,
    resolved_at: i64,
) -> (r: Result<(), String>)
    requires
        old(store).wf(),
    ensures
        final(store).wf(),
        final(store).rows@ == spec_resolve_conflict(old(store).rows@, *resolution, resolved_at),
        r is Ok,
{
    let ghost s0 = store.rows@;
    let n = store.rows.len();
    let mut i: usize = 0;
    while i < n
        invariant
            n == store.rows.len(),
            i <= n,
            old(store).wf(),
            *store == *old(store),
            s0 == old(store).rows@,
            forall|k: int| 0 <= k < i ==> s0[k].conflict.id@ != resolution.conflict_id@,
        decreases n - i,
    {
        if str_eq(store.rows[i].conflict.id.as_str(), resolution.conflict_id.as_str()) {
            let row = store.rows.remove(i);
            let updated = ConflictRow {
                conflict: Conflict {
                    id: row.conflict.id,
                    conflict_type: row.conflict.conflict_type,
                    base_version: row.conflict.base_version,
                    local_version: row.conflict.local_version,
                    remote_version: row.conflict.remote_version,
                    status: resolution.resolution,
                    detected_at: row.conflict.detected_at,
                },
                resolved_content: clone_opt_string(&resolution.merged_content),
                resolved_at: Some(resolved_at),
            };
            store.rows.insert(i, updated);
            proof {
                assert forall|k: int| 0 <= k < s0.len() && k != i implies s0[k].conflict.id@
                    != resolution.conflict_id@ by {
                    assert(s0[k].conflict.id@ != s0[i as int].conflict.id@);
                }
                assert(store.rows@ =~= spec_resolve_conflict(s0, *resolution, resolved_at));
                assert(final(store).wf());
            }
            return Ok(());
        }
        i = i + 1;
    }
    proof {
        assert(store.rows@ =~= spec_resolve_conflict(s0, *resolution, resolved_at));
    }
    Ok(())
}

/// Reads a conflict type back from its stored name; unknown names fall back
/// to `OverlappingEdit`.
pub open spec fn spec_parse_conflict_type(s: Seq<char>) -> ConflictType {
    if s == "DeleteModify"@ {
        ConflictType::DeleteModify
    } else if s == "ConcurrentInsert"@ {
        ConflictType::ConcurrentInsert
    } else if s == "StructuralConflict"@ {
        ConflictType::StructuralConflict
    } else {
        ConflictType::OverlappingEdit
    }
}

/// Parses a stored conflict type name; unknown names fall back to
/// `OverlappingEdit`.
pub fn parse_conflict_type(s: String) -> (r: ConflictType)
    ensures
        r == spec_parse_conflict_type(s@),
{
    if str_eq(s.as_str(), "DeleteModify") {
        ConflictType::DeleteModify
    } else if str_eq(s.as_str(), "ConcurrentInsert") {
        ConflictType::ConcurrentInsert
    } else if str_eq(s.as_str(), "StructuralConflict") {
        ConflictType::StructuralConflict
    } else {
        ConflictType::OverlappingEdit
    }
}

/// Extending a row list by one row appends its conflict when unresolved.
proof fn lemma_unresolved_take_step(s: Seq<ConflictRow>, k: int)
    requires
        0 <= k < s.len(),
    ensures
        spec_unresolved(s.take(k + 1)) == spec_unresolved(s.take(k)) + (if s[k].conflict.status
            == ConflictStatus::Unresolved {
            seq![s[k].conflict]
        } else {
            Seq::<Conflict>::empty()
        }),
    decreases k,
{
    if k == 0 {
        assert(s.take(1) =~= seq![s[0]]);
        assert(s.take(1).drop_first() =~= Seq::empty());
        assert(s.take(0) =~= Seq::empty());
        assert(spec_unresolved(s.take(1)) =~= spec_unresolved(s.take(0)) + (if s[0].conflict.status
            == ConflictStatus::Unresolved {
            seq![s[0].conflict]
        } else {
            Seq::<Conflict>::empty()
        }));
    } else {
        lemma_unresolved_take_step(s.drop_first(), k - 1);
        assert(s.take(k + 1).drop_first() =~= s.drop_first().take(k));
        assert(s.take(k).drop_first() =~= s.drop_first().take(k - 1));
        assert(s.take(k + 1)[0] == s[0]);
        assert(s.take(k)[0] == s[0]);
        assert(s.drop_first()[k - 1] == s[k]);
        assert(spec_unresolved(s.take(k + 1)) =~= spec_unresolved(s.take(k)) + (
        if s[k].conflict.status == ConflictStatus::Unresolved {
            seq![s[k].conflict]
        } else {
            Seq::<Conflict>::empty()
        }));
    }
}

/// The position where a newest-first insertion lands is the first index whose
/// entry is older than the inserted one.
proof fn lemma_insert_desc_at(s: Seq<Conflict>, c: Conflict, pos: int)
    requires
        0 <= pos <= s.len(),
        forall|k: int| 0 <= k < pos ==> s[k].detected_at >= c.detected_at,
        pos < s.len() ==> s[pos].detected_at < c.detected_at,
    ensures
        spec_insert_desc(s, c) == s.insert(pos, c),
    decreases pos,
{
    if s.len() == 0 {
        assert(spec_insert_desc(s, c) =~= s.insert(0, c));
    } else if pos == 0 {
        assert(spec_insert_desc(s, c) =~= s.insert(0, c));
    } else {
        lemma_insert_desc_at(s.drop_first(), c, pos - 1);
        assert(s.drop_first().insert(pos - 1, c) =~= s.insert(pos, c).drop_first());
        assert(spec_insert_desc(s, c) =~= s.insert(pos, c));
    }
}

/// Sorts conflicts newest-detected first, keeping the relative order of
/// conflicts detected at the same time.
fn sort_conflicts_desc(v: Vec<Conflict>) -> (r: Vec<Conflict>)
    ensures
        r@ == spec_sort_desc(v@),
{
    let mut out: Vec<Conflict> = Vec::new();
    let n = v.len();
    for i in 0..n
        invariant
            n == v.len(),
            out@ == spec_sort_desc(v@.take(i as int)),
    {
        let c = v[i].clone();
        let m = out.len();
        let mut pos: usize = 0;
        while pos < m && out[pos].detected_at >= c.detected_at
            invariant
                m == out.len(),
                pos <= m,
                c == v@[i as int],
                forall|k: int| 0 <= k < pos ==> out@[k].detected_at >= c.detected_at,
            decreases m - pos,
        {
            pos = pos + 1;
        }
        proof {
            lemma_insert_desc_at(out@, c, pos as int);
            assert(v@.take(i + 1).drop_last() =~= v@.take(i as int));
            assert(v@.take(i + 1).last() == v@[i as int]);
        }
        out.insert(pos, c);
    }
    proof {
        assert(v@.take(n as int) =~= v@);
    }
    out
}

/// Whether a conflict list is ordered newest-detected first.
pub open spec fn sorted_newest_first(s: Seq<Conflict>) -> bool {
    forall|a: int, b: int| 0 <= a < b < s.len() ==> s[a].detected_at >= s[b].detected_at
}

/// A newest-first insertion keeps the list sorted, and introduces no entry
/// beyond the inserted one.
proof fn lemma_insert_desc_sorted(s: Seq<Conflict>, c: Conflict)
    requires
        sorted_newest_first(s),
    ensures
        sorted_newest_first(spec_insert_desc(s, c)),
        forall|k: int|
            0 <= k < spec_insert_desc(s, c).len() ==> (#[trigger] spec_insert_desc(s, c)[k] == c
                || exists|j: int| 0 <= j < s.len() && #[trigger] s[j] == spec_insert_desc(s, c)[k]),
    decreases s.len(),
{
    let out = spec_insert_desc(s, c);
    if s.len() == 0 {
        assert(out =~= seq![c]);
    } else if s[0].detected_at >= c.detected_at {
        assert(forall|a: int, b: int|
            0 <= a < b < s.drop_first().len() ==> s.drop_first()[a].detected_at
                >= s.drop_first()[b].detected_at);
        lemma_insert_desc_sorted(s.drop_first(), c);
        let rest = spec_insert_desc(s.drop_first(), c);
        assert(out =~= seq![s[0]] + rest);
        assert forall|a: int, b: int| 0 <= a < b < out.len() implies out[a].detected_at
            >= out[b].detected_at by {
            if a == 0 {
                assert(out[b] == rest[b - 1]);
                if rest[b - 1] == c {
                } else {
                    let j = choose|j: int|
                        0 <= j < s.drop_first().len() && #[trigger] s.drop_first()[j] == rest[b
                            - 1];
                    assert(s[j + 1] == rest[b - 1]);
                    assert(s[0].detected_at >= s[j + 1].detected_at);
                }
            } else {
                assert(out[a] == rest[a - 1] && out[b] == rest[b - 1]);
            }
        }
        assert forall|k: int|
            0 <= k < out.len() implies (#[trigger] out[k] == c || exists|j: int|
            0 <= j < s.len() && #[trigger] s[j] == out[k]) by {
            if k == 0 {
                assert(s[0] == out[0]);
            } else {
                assert(out[k] == rest[k - 1]);
                if rest[k - 1] != c {
                    let j = choose|j: int|
                        0 <= j < s.drop_first().len() && #[trigger] s.drop_first()[j] == rest[k
                            - 1];
                    assert(s[j + 1] == out[k]);
                }
            }
        }
    } else {
        assert(out =~= seq![c] + s);
        assert forall|a: int, b: int| 0 <= a < b < out.len() implies out[a].detected_at
            >= out[b].detected_at by {
            if a == 0 {
                assert(out[b] == s[b - 1]);
                assert(s[0].detected_at >= s[b - 1].detected_at);
            } else {
                assert(out[a] == s[a - 1] && out[b] == s[b - 1]);
            }
        }
        assert forall|k: int|
            0 <= k < out.len() implies (#[trigger] out[k] == c || exists|j: int|
            0 <= j < s.len() && #[trigger] s[j] == out[k]) by {
            if k > 0 {
                assert(s[k - 1] == out[k]);
            }
        }
    }
}

/// Law: the unresolved listing is ordered newest-detected first.
pub proof fn lemma_sort_desc_sorted(s: Seq<Conflict>)
    ensures
        sorted_newest_first(spec_sort_desc(s)),
    decreases s.len(),
{
    if s.len() > 0 {
        lemma_sort_desc_sorted(s.drop_last());
        lemma_insert_desc_sorted(spec_sort_desc(s.drop_last()), s.last());
    }
}

/// How many entries of a conflict list are a given conflict.
pub open spec fn count_eq(s: Seq<Conflict>, c: Conflict) -> nat
    decreases s.len(),
{
    if s.len() == 0 {
        0
    } else {
        (if s[0] == c {
            1nat
        } else {
            0nat
        }) + count_eq(s.drop_first(), c)
    }
}

/// A one-entry list counts its entry once.
proof fn lemma_count_eq_singleton(x: Conflict, c: Conflict)
    ensures
        count_eq(seq![x], c) == (if x == c {
            1nat
        } else {
            0nat
        }),
{
    assert(seq![x].len() == 1);
    assert(seq![x][0] == x);
    assert(seq![x].drop_first() =~= Seq::<Conflict>::empty());
    assert(count_eq(Seq::<Conflict>::empty(), c) == 0);
    assert(count_eq(seq![x], c) == (if seq![x][0] == c {
        1nat
    } else {
        0nat
    }) + count_eq(seq![x].drop_first(), c));
}

/// Counting distributes over concatenation.
proof fn lemma_count_eq_concat(a: Seq<Conflict>, b: Seq<Conflict>, c: Conflict)
    ensures
        count_eq(a + b, c) == count_eq(a, c) + count_eq(b, c),
    decreases a.len(),
{
    if a.len() == 0 {
        assert(a + b =~= b);
    } else {
        lemma_count_eq_concat(a.drop_first(), b, c);
        assert((a + b).drop_first() =~= a.drop_first() + b);
        assert((a + b)[0] == a[0]);
    }
}

/// A newest-first insertion adds exactly the inserted conflict.
proof fn lemma_count_eq_insert_desc(s: Seq<Conflict>, x: Conflict, c: Conflict)
    ensures
        count_eq(spec_insert_desc(s, x), c) == count_eq(s, c) + (if x == c {
            1nat
        } else {
            0nat
        }),
    decreases s.len(),
{
    if s.len() == 0 {
        assert(spec_insert_desc(s, x) =~= seq![x]);
        assert(seq![x].drop_first() =~= Seq::<Conflict>::empty());
        assert(count_eq(seq![x], c) == (if x == c {
            1nat
        } else {
            0nat
        }) + count_eq(seq![x].drop_first(), c));
    } else if s[0].detected_at >= x.detected_at {
        lemma_count_eq_insert_desc(s.drop_first(), x, c);
        let a = spec_insert_desc(s, x);
        assert(a == seq![s[0]] + spec_insert_desc(s.drop_first(), x));
        assert(a.drop_first() =~= spec_insert_desc(s.drop_first(), x));
        assert(a[0] == s[0]);
        assert(count_eq(a, c) == (if a[0] == c {
            1nat
        } else {
            0nat
        }) + count_eq(a.drop_first(), c));
        assert(count_eq(s, c) == (if s[0] == c {
            1nat
        } else {
            0nat
        }) + count_eq(s.drop_first(), c));
    } else {
        let a = spec_insert_desc(s, x);
        assert(a == seq![x] + s);
        assert(a.drop_first() =~= s);
        assert(a[0] == x);
        assert(count_eq(a, c) == (if a[0] == c {
            1nat
        } else {
            0nat
        }) + count_eq(a.drop_first(), c));
    }
}

/// Sorting keeps every conflict's multiplicity.
proof fn lemma_count_eq_sort_desc(s: Seq<Conflict>, c: Conflict)
    ensures
        count_eq(spec_sort_desc(s), c) == count_eq(s, c),
    decreases s.len(),
{
    if s.len() > 0 {
        lemma_count_eq_sort_desc(s.drop_last(), c);
        lemma_count_eq_insert_desc(spec_sort_desc(s.drop_last()), s.last(), c);
        lemma_count_eq_concat(s.drop_last(), seq![s.last()], c);
        assert(s.drop_last() + seq![s.last()] =~= s);
        assert(seq![s.last()].drop_first() =~= Seq::<Conflict>::empty());
        assert(count_eq(seq![s.last()], c) == (if s.last() == c {
            1nat
        } else {
            0nat
        }) + count_eq(seq![s.last()].drop_first(), c));
        assert(count_eq(s, c) == count_eq(s.drop_last(), c) + (if s.last() == c {
            1nat
        } else {
            0nat
        }));
    }
}

/// A row list without a conflict's id lists no conflict equal to it.
proof fn lemma_count_eq_unresolved_absent(s: Seq<ConflictRow>, c: Conflict)
    requires
        !has_conflict_id(s, c.id@),
    ensures
        count_eq(spec_unresolved(s), c) == 0,
    decreases s.len(),
{
    if s.len() > 0 {
        assert(s[0].conflict.id@ != c.id@);
        assert(forall|i: int|
            0 <= i < s.drop_first().len() ==> s.drop_first()[i] == s[i + 1]);
        assert(!has_conflict_id(s.drop_first(), c.id@));
        lemma_count_eq_unresolved_absent(s.drop_first(), c);
        if s[0].conflict.status == ConflictStatus::Unresolved {
            lemma_count_eq_concat(seq![s[0].conflict], spec_unresolved(s.drop_first()), c);
            assert(seq![s[0].conflict].drop_first() =~= Seq::<Conflict>::empty());
            assert(s[0].conflict != c);
            lemma_count_eq_singleton(s[0].conflict, c);
        } else {
            assert(spec_unresolved(s) =~= Seq::<Conflict>::empty() + spec_unresolved(
                s.drop_first(),
            ));
            assert(spec_unresolved(s) == spec_unresolved(s.drop_first()));
        }
    }
}

/// Appending an unresolved conflict appends it to the unresolved listing.
proof fn lemma_unresolved_push(s: Seq<ConflictRow>, row: ConflictRow)
    requires
        row.conflict.status == ConflictStatus::Unresolved,
    ensures
        spec_unresolved(s.push(row)) == spec_unresolved(s) + seq![row.conflict],
    decreases s.len(),
{
    if s.len() == 0 {
        assert(s.push(row).len() == 1);
        assert(s.push(row)[0] == row);
        assert(s.push(row).drop_first() =~= Seq::<ConflictRow>::empty());
        assert(spec_unresolved(Seq::<ConflictRow>::empty()) == Seq::<Conflict>::empty());
        assert(spec_unresolved(s.push(row)) == seq![row.conflict] + Seq::<Conflict>::empty());
        assert(spec_unresolved(s) == Seq::<Conflict>::empty());
        assert(seq![row.conflict] + Seq::<Conflict>::empty() =~= Seq::<Conflict>::empty()
            + seq![row.conflict]);
    } else {
        lemma_unresolved_push(s.drop_first(), row);
        assert(s.push(row).drop_first() =~= s.drop_first().push(row));
        assert(s.push(row)[0] == s[0]);
        let head = if s[0].conflict.status == ConflictStatus::Unresolved {
            seq![s[0].conflict]
        } else {
            Seq::<Conflict>::empty()
        };
        assert(spec_unresolved(s.push(row)) == head + spec_unresolved(s.drop_first().push(row)));
        assert(spec_unresolved(s.drop_first().push(row)) == spec_unresolved(s.drop_first())
            + seq![row.conflict]);
        assert(spec_unresolved(s) == head + spec_unresolved(s.drop_first()));
        assert(head + (spec_unresolved(s.drop_first()) + seq![row.conflict]) =~= (head
            + spec_unresolved(s.drop_first())) + seq![row.conflict]);
    }
}

/// Law: storing the same conflict twice leaves exactly the rows that storing
/// it once leaves.
pub proof fn lemma_store_conflict_idempotent(s: Seq<ConflictRow>, c: Conflict)
    ensures
        spec_store_conflict(spec_store_conflict(s, c), c) == spec_store_conflict(s, c),
{
    if !has_conflict_id(s, c.id@) {
        let s1 = spec_store_conflict(s, c);
        assert(s1[s.len() as int].conflict.id@ == c.id@);
        assert(has_conflict_id(s1, c.id@));
    }
}

/// Law: for every conflict `c` that is new to a well-formed store, storing it
/// twice leaves the unresolved listing containing `c` exactly once.
pub proof fn lemma_store_twice_lists_once(s: Seq<ConflictRow>, c: Conflict)
    requires
        rows_wf(s),
        !has_conflict_id(s, c.id@),
        c.status == ConflictStatus::Unresolved,
    ensures
        count_eq(
            spec_sort_desc(spec_unresolved(spec_store_conflict(spec_store_conflict(s, c), c))),
            c,
        ) == 1,
{
    lemma_store_conflict_idempotent(s, c);
    let row = ConflictRow { conflict: c, resolved_content: None, resolved_at: None };
    let rows1 = spec_store_conflict(s, c);
    assert(rows1 == s.push(row));
    lemma_unresolved_push(s, row);
    lemma_count_eq_unresolved_absent(s, c);
    lemma_count_eq_concat(spec_unresolved(s), seq![c], c);
    lemma_count_eq_singleton(c, c);
    assert(count_eq(spec_unresolved(rows1), c) == 1);
    lemma_count_eq_sort_desc(spec_unresolved(rows1), c);
}

} // verus!
