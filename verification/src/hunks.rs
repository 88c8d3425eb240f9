//! Grouping of significant changes into hunks.
//!
//! A single forward pass over the significant ids: a change whose first
//! span sits within three lines of the last seen line number on the same
//! side joins the current hunk; otherwise it opens a new one. The grouping
//! is a lossless partition: the hunks' id lists, concatenated in hunk
//! order, give back the significant list exactly.

use vstd::prelude::*;
use crate::change::{Change, ChangeKind, ChangeSpan};
use crate::diff::{find_change, sat_usize, sat_inc, sig_ids, DiffEngine, Hunk};

verus! {

/// The mathematical value of a hunk.
pub struct HunkModel {
    pub id: usize,
    pub change_ids: Seq<usize>,
    pub old_start: Option<usize>,
    pub new_start: Option<usize>,
    pub insertions: usize,
    pub deletions: usize,
}

impl View for Hunk {
    type V = HunkModel;

    open spec fn view(&self) -> HunkModel {
        HunkModel {
            id: self.id,
            change_ids: self.change_ids@,
            old_start: self.old_start,
            new_start: self.new_start,
            insertions: self.insertions,
            deletions: self.deletions,
        }
    }
}

/// The models of a sequence of hunks.
pub open spec fn models_of(hs: Seq<Hunk>) -> Seq<HunkModel> {
    hs.map_values(|h: Hunk| h@)
}

/// The first hunk whose id is `id`, scanning in order.
pub open spec fn find_hunk(hs: Seq<HunkModel>, id: usize) -> Option<HunkModel>
    decreases hs.len(),
{
    if hs.len() == 0 {
        None
    } else if hs[0].id == id {
        Some(hs[0])
    } else {
        find_hunk(hs.drop_first(), id)
    }
}

/// The first hunk whose id list contains `change_id`, scanning in order.
pub open spec fn find_hunk_containing(hs: Seq<HunkModel>, change_id: usize) -> Option<HunkModel>
    decreases hs.len(),
{
    if hs.len() == 0 {
        None
    } else if hs[0].change_ids.contains(change_id) {
        Some(hs[0])
    } else {
        find_hunk_containing(hs.drop_first(), change_id)
    }
}

/// `a - b`, floored at zero.
pub open spec fn sat_sub(a: usize, b: usize) -> int {
    if a >= b {
        a - b
    } else {
        0
    }
}

/// `a + k`, clamped to the largest `usize`.
pub open spec fn sat_add(a: int, k: int) -> int {
    if a + k > usize::MAX as int {
        usize::MAX as int
    } else {
        a + k
    }
}

/// How many insertions a span contributes to its hunk's tally.
pub open spec fn span_ins_contrib(s: ChangeSpan) -> int {
    match s.kind {
        ChangeKind::Insert => 1,
        ChangeKind::Replace => 1,
        _ => 0,
    }
}

/// How many deletions a span contributes to its hunk's tally.
pub open spec fn span_del_contrib(s: ChangeSpan) -> int {
    match s.kind {
        ChangeKind::Delete => 1,
        ChangeKind::Replace => 1,
        _ => 0,
    }
}

/// Total insertion contribution of a span sequence.
pub open spec fn spans_ins(spans: Seq<ChangeSpan>) -> int
    decreases spans.len(),
{
    if spans.len() == 0 {
        0
    } else {
        spans_ins(spans.drop_last()) + span_ins_contrib(spans.last())
    }
}

/// Total deletion contribution of a span sequence.
pub open spec fn spans_del(spans: Seq<ChangeSpan>) -> int
    decreases spans.len(),
{
    if spans.len() == 0 {
        0
    } else {
        spans_del(spans.drop_last()) + span_del_contrib(spans.last())
    }
}

pub proof fn lemma_spans_counts_nonneg(spans: Seq<ChangeSpan>)
    ensures
        spans_ins(spans) >= 0,
        spans_del(spans) >= 0,
    decreases spans.len(),
{
    if spans.len() > 0 {
        lemma_spans_counts_nonneg(spans.drop_last());
    }
}

/// The old line number of a change's first span, if any.
pub open spec fn first_old_line(c: Change) -> Option<usize> {
    if c.spans@.len() == 0 {
        None
    } else {
        c.spans@[0].old_line
    }
}

/// The new line number of a change's first span, if any.
pub open spec fn first_new_line(c: Change) -> Option<usize> {
    if c.spans@.len() == 0 {
        None
    } else {
        c.spans@[0].new_line
    }
}

/// The state of the grouping pass: finished hunks, the open hunk, and the
/// last line number seen on each side.
pub struct GroupState {
    pub hunks: Seq<HunkModel>,
    pub cur_ids: Seq<usize>,
    pub cur_old_start: Option<usize>,
    pub cur_new_start: Option<usize>,
    pub last_old: Option<usize>,
    pub last_new: Option<usize>,
    pub cur_ins: int,
    pub cur_del: int,
    pub next_hunk_id: int,
}

pub open spec fn group_init() -> GroupState {
    GroupState {
        hunks: Seq::empty(),
        cur_ids: Seq::empty(),
        cur_old_start: None,
        cur_new_start: None,
        last_old: None,
        last_new: None,
        cur_ins: 0,
        cur_del: 0,
        next_hunk_id: 0,
    }
}

/// Whether a change at these line numbers joins the open hunk. The old
/// side is compared when both its values are known; else the new side;
/// else the change joins only a still-empty hunk.
pub open spec fn is_close(st: GroupState, old_line: Option<usize>, new_line: Option<usize>) -> bool {
    if st.last_old is Some && old_line is Some {
        sat_sub(old_line->0, st.last_old->0) <= 3
    } else if st.last_new is Some && new_line is Some {
        sat_sub(new_line->0, st.last_new->0) <= 3
    } else {
        st.cur_ids.len() == 0
    }
}

/// The open hunk of `st` closed and appended to its finished hunks.
pub open spec fn flushed_hunks(st: GroupState) -> Seq<HunkModel> {
    st.hunks.push(
        (HunkModel {
            id: st.next_hunk_id as usize,
            change_ids: st.cur_ids,
            old_start: st.cur_old_start,
            new_start: st.cur_new_start,
            insertions: st.cur_ins as usize,
            deletions: st.cur_del as usize,
        }),
    )
}

/// One grouping step: place change `c` and update the pass state.
pub open spec fn group_step(st: GroupState, c: Change) -> GroupState {
    let old_line = first_old_line(c);
    let new_line = first_new_line(c);
    let st1 = if is_close(st, old_line, new_line) {
        GroupState {
            cur_ids: st.cur_ids.push(c.id),
            cur_old_start: if st.cur_old_start is None {
                old_line
            } else {
                st.cur_old_start
            },
            cur_new_start: if st.cur_new_start is None {
                new_line
            } else {
                st.cur_new_start
            },
            ..st
        }
    } else {
        GroupState {
            hunks: if st.cur_ids.len() > 0 {
                flushed_hunks(st)
            } else {
                st.hunks
            },
            next_hunk_id: if st.cur_ids.len() > 0 {
                sat_usize(st.next_hunk_id + 1)
            } else {
                st.next_hunk_id
            },
            cur_ids: seq![c.id],
            cur_old_start: old_line,
            cur_new_start: new_line,
            cur_ins: 0,
            cur_del: 0,
            ..st
        }
    };
    GroupState {
        last_old: if old_line is Some {
            old_line
        } else {
            st1.last_old
        },
        last_new: if new_line is Some {
            new_line
        } else {
            st1.last_new
        },
        cur_ins: sat_add(st1.cur_ins, spans_ins(c.spans@)),
        cur_del: sat_add(st1.cur_del, spans_del(c.spans@)),
        ..st1
    }
}

/// The grouping pass over a list of significant ids; an id that matches
/// no change is skipped.
pub open spec fn group_fold(st: GroupState, ids: Seq<usize>, changes: Seq<Change>) -> GroupState
    decreases ids.len(),
{
    if ids.len() == 0 {
        st
    } else {
        let st1 = match find_change(changes, ids[0]) {
            Some(c) => group_step(st, c),
            None => st,
        };
        group_fold(st1, ids.drop_first(), changes)
    }
}

/// Close the final open hunk, if any.
pub open spec fn group_finish(st: GroupState) -> Seq<HunkModel> {
    if st.cur_ids.len() > 0 {
        flushed_hunks(st)
    } else {
        st.hunks
    }
}

/// The hunks of a diff: the grouping pass run over the significant ids.
pub open spec fn spec_hunks(ids: Seq<usize>, changes: Seq<Change>) -> Seq<HunkModel> {
    group_finish(group_fold(group_init(), ids, changes))
}

/// Appending one id to the pass is one more step.
pub proof fn lemma_group_fold_push(
    st: GroupState,
    ids: Seq<usize>,
    x: usize,
    changes: Seq<Change>,
)
    ensures
        group_fold(st, ids.push(x), changes) == (match find_change(changes, x) {
            Some(c) => group_step(group_fold(st, ids, changes), c),
            None => group_fold(st, ids, changes),
        }),
    decreases ids.len(),
{
    if ids.len() == 0 {
        let st1 = match find_change(changes, x) {
            Some(c) => group_step(st, c),
            None => st,
        };
        assert(ids.push(x)[0] == x);
        assert(ids.push(x).drop_first() =~= Seq::<usize>::empty());
        assert(group_fold(st1, Seq::<usize>::empty(), changes) == st1);
        assert(group_fold(st, ids.push(x), changes) == st1);
        assert(group_fold(st, ids, changes) == st);
    } else {
        let st1 = match find_change(changes, ids[0]) {
            Some(c) => group_step(st, c),
            None => st,
        };
        lemma_group_fold_push(st1, ids.drop_first(), x, changes);
        assert(ids.push(x)[0] == ids[0]);
        assert(ids.push(x).drop_first() =~= ids.drop_first().push(x));
        assert(group_fold(st, ids.push(x), changes) == group_fold(
            st1,
            ids.drop_first().push(x),
            changes,
        ));
        assert(group_fold(st, ids, changes) == group_fold(st1, ids.drop_first(), changes));
    }
}

/// A found change carries the id it was looked up by.
pub proof fn lemma_find_change_id(changes: Seq<Change>, id: usize)
    ensures
        find_change(changes, id) matches Some(c) ==> c.id == id,
    decreases changes.len(),
{
    if changes.len() > 0 && changes[0].id != id {
        lemma_find_change_id(changes.drop_first(), id);
    }
}

impl DiffEngine {
    /// Group the significant changes into hunks: one forward pass, with
    /// changes within three lines of the last seen line number joining the
    /// open hunk.
    pub fn compute_hunks(significant_changes: &Vec<usize>, changes: &Vec<Change>) -> (hunks: Vec<
        Hunk,
    >)
        ensures
            models_of(hunks@) == spec_hunks(significant_changes@, changes@),
    {
        let mut hunks: Vec<Hunk> = Vec::new();
        let mut cur_ids: Vec<usize> = Vec::new();
        let mut cur_old_start: Option<usize> = None;
        let mut cur_new_start: Option<usize> = None;
        let mut last_old: Option<usize> = None;
        let mut last_new: Option<usize> = None;
        let mut cur_ins: usize = 0;
        let mut cur_del: usize = 0;
        let mut hunk_id: usize = 0;
        let n = significant_changes.len();
        let mut i: usize = 0;
        proof {
            assert(significant_changes@.take(0) =~= Seq::<usize>::empty());
            assert(models_of(hunks@) =~= Seq::<HunkModel>::empty());
            assert(group_fold(group_init(), Seq::<usize>::empty(), changes@) == group_init());
        }
        while i < n
            invariant
                i <= n,
                n == significant_changes@.len(),
                ({
                    let st = group_fold(group_init(), significant_changes@.take(i as int), changes@);
                    &&& models_of(hunks@) == st.hunks
                    &&& cur_ids@ == st.cur_ids
                    &&& cur_old_start == st.cur_old_start
                    &&& cur_new_start == st.cur_new_start
                    &&& last_old == st.last_old
                    &&& last_new == st.last_new
                    &&& cur_ins as int == st.cur_ins
                    &&& cur_del as int == st.cur_del
                    &&& hunk_id as int == st.next_hunk_id
                }),
            decreases n - i,
        {
            let ghost st = group_fold(group_init(), significant_changes@.take(i as int), changes@);
            proof {
                assert(significant_changes@.take(i + 1)
                    =~= significant_changes@.take(i as int).push(significant_changes@[i as int]));
                lemma_group_fold_push(
                    group_init(),
                    significant_changes@.take(i as int),
                    significant_changes@[i as int],
                    changes@,
                );
            }
            let id = significant_changes[i];
            match crate::diff::find_change_in(changes, id) {
                None => {},
                Some(c) => {
                    proof {
                        lemma_find_change_id(changes@, id);
                    }
                    let (old_line, new_line) = if c.spans.len() > 0 {
                        (c.spans[0].old_line, c.spans[0].new_line)
                    } else {
                        (None, None)
                    };
                    let close: bool = match (last_old, old_line) {
                        (Some(lo), Some(co)) => if co >= lo {
                            co - lo <= 3
                        } else {
                            true
                        },
                        _ => match (last_new, new_line) {
                            (Some(ln), Some(cn)) => if cn >= ln {
                                cn - ln <= 3
                            } else {
                                true
                            },
                            _ => cur_ids.len() == 0,
                        },
                    };
                    proof {
                        assert(close == is_close(st, old_line, new_line));
                    }
                    if close {
                        cur_ids.push(id);
                        if cur_old_start.is_none() {
                            cur_old_start = old_line;
                        }
                        if cur_new_start.is_none() {
                            cur_new_start = new_line;
                        }
                    } else {
                        if cur_ids.len() > 0 {
                            let ghost hunks_before = hunks@;
                            hunks.push(
                                Hunk {
                                    id: hunk_id,
                                    change_ids: cur_ids,
                                    old_start: cur_old_start,
                                    new_start: cur_new_start,
                                    insertions: cur_ins,
                                    deletions: cur_del,
                                },
                            );
                            hunk_id = sat_inc(hunk_id);
                            cur_ids = Vec::new();
                            proof {
                                assert(models_of(hunks@) =~= models_of(hunks_before).push(
                                    hunks@.last()@,
                                ));
                            }
                        } else {
                            cur_ids = Vec::new();
                        }
                        cur_ids.push(id);
                        cur_old_start = old_line;
                        cur_new_start = new_line;
                        cur_ins = 0;
                        cur_del = 0;
                    }
                    if old_line.is_some() {
                        last_old = old_line;
                    }
                    if new_line.is_some() {
                        last_new = new_line;
                    }
                    let ghost base_ins = cur_ins as int;
                    let ghost base_del = cur_del as int;
                    let mut j: usize = 0;
                    proof {
                        assert(c.spans@.take(0) =~= Seq::<ChangeSpan>::empty());
                    }
                    while j < c.spans.len()
                        invariant
                            j <= c.spans@.len(),
                            0 <= base_ins <= usize::MAX as int,
                            0 <= base_del <= usize::MAX as int,
                            cur_ins as int == sat_add(base_ins, spans_ins(c.spans@.take(j as int))),
                            cur_del as int == sat_add(base_del, spans_del(c.spans@.take(j as int))),
                        decreases c.spans@.len() - j,
                    {
                        proof {
                            assert(c.spans@.take(j + 1).drop_last() =~= c.spans@.take(j as int));
                            assert(c.spans@.take(j + 1).last() == c.spans@[j as int]);
                            lemma_spans_counts_nonneg(c.spans@.take(j as int));
                        }
                        match c.spans[j].kind {
                            ChangeKind::Insert => {
                                cur_ins = sat_inc(cur_ins);
                            },
                            ChangeKind::Delete => {
                                cur_del = sat_inc(cur_del);
                            },
                            ChangeKind::Replace => {
                                cur_ins = sat_inc(cur_ins);
                                cur_del = sat_inc(cur_del);
                            },
                            ChangeKind::Equal => {},
                        }
                        j = j + 1;
                    }
                    proof {
                        assert(c.spans@.take(c.spans@.len() as int) =~= c.spans@);
                    }
                },
            }
            i = i + 1;
        }
        proof {
            assert(significant_changes@.take(n as int) =~= significant_changes@);
        }
        if cur_ids.len() > 0 {
            let ghost hunks_before = hunks@;
            hunks.push(
                Hunk {
                    id: hunk_id,
                    change_ids: cur_ids,
                    old_start: cur_old_start,
                    new_start: cur_new_start,
                    insertions: cur_ins,
                    deletions: cur_del,
                },
            );
            proof {
                assert(models_of(hunks@) =~= models_of(hunks_before).push(hunks@.last()@));
            }
        }
        hunks
    }
}

/// The hunks' id lists, concatenated in hunk order.
pub open spec fn hunks_concat_ids(hs: Seq<HunkModel>) -> Seq<usize>
    decreases hs.len(),
{
    if hs.len() == 0 {
        Seq::empty()
    } else {
        hunks_concat_ids(hs.drop_last()) + hs.last().change_ids
    }
}

/// The ids of `ids` that match a change, in order.
pub open spec fn found_ids(ids: Seq<usize>, changes: Seq<Change>) -> Seq<usize>
    decreases ids.len(),
{
    if ids.len() == 0 {
        Seq::empty()
    } else {
        let rest = found_ids(ids.drop_first(), changes);
        if find_change(changes, ids[0]) is Some {
            seq![ids[0]] + rest
        } else {
            rest
        }
    }
}

proof fn lemma_group_fold_partition(st: GroupState, ids: Seq<usize>, changes: Seq<Change>)
    ensures
        hunks_concat_ids(group_fold(st, ids, changes).hunks) + group_fold(
            st,
            ids,
            changes,
        ).cur_ids == (hunks_concat_ids(st.hunks) + st.cur_ids) + found_ids(ids, changes),
    decreases ids.len(),
{
    if ids.len() == 0 {
        assert((hunks_concat_ids(st.hunks) + st.cur_ids) + found_ids(ids, changes)
            =~= hunks_concat_ids(st.hunks) + st.cur_ids);
    } else {
        let st1 = match find_change(changes, ids[0]) {
            Some(c) => group_step(st, c),
            None => st,
        };
        lemma_group_fold_partition(st1, ids.drop_first(), changes);
        match find_change(changes, ids[0]) {
            Some(c) => {
                lemma_find_change_id(changes, ids[0]);
                let old_line = first_old_line(c);
                let new_line = first_new_line(c);
                if is_close(st, old_line, new_line) {
                    assert(hunks_concat_ids(st1.hunks) + st1.cur_ids
                        =~= (hunks_concat_ids(st.hunks) + st.cur_ids) + seq![ids[0]]);
                } else {
                    if st.cur_ids.len() > 0 {
                        assert(flushed_hunks(st).drop_last() =~= st.hunks);
                        assert(hunks_concat_ids(flushed_hunks(st)) == hunks_concat_ids(st.hunks)
                            + st.cur_ids);
                        assert(hunks_concat_ids(st1.hunks) + st1.cur_ids
                            =~= (hunks_concat_ids(st.hunks) + st.cur_ids) + seq![ids[0]]);
                    } else {
                        assert(hunks_concat_ids(st1.hunks) + st1.cur_ids
                            =~= (hunks_concat_ids(st.hunks) + st.cur_ids) + seq![ids[0]]);
                    }
                }
                assert((hunks_concat_ids(st.hunks) + st.cur_ids) + (seq![ids[0]] + found_ids(
                    ids.drop_first(),
                    changes,
                )) =~= ((hunks_concat_ids(st.hunks) + st.cur_ids) + seq![ids[0]]) + found_ids(
                    ids.drop_first(),
                    changes,
                ));
            },
            None => {},
        }
    }
}

/// Every id of `ids` that names a change survives into `found_ids`
/// unchanged when all of them do.
proof fn lemma_found_ids_all(ids: Seq<usize>, changes: Seq<Change>)
    requires
        forall|k: int| 0 <= k < ids.len() ==> find_change(changes, #[trigger] ids[k]) is Some,
    ensures
        found_ids(ids, changes) == ids,
    decreases ids.len(),
{
    if ids.len() == 0 {
        assert(found_ids(ids, changes) =~= ids);
    } else {
        assert(forall|k: int|
            0 <= k < ids.drop_first().len() ==> find_change(
                changes,
                #[trigger] ids.drop_first()[k],
            ) is Some);
        lemma_found_ids_all(ids.drop_first(), changes);
        assert(seq![ids[0]] + ids.drop_first() =~= ids);
    }
}

/// Every element of `sig_ids(changes)` is the id of some change.
proof fn lemma_sig_ids_are_ids(changes: Seq<Change>)
    ensures
        forall|k: int|
            0 <= k < sig_ids(changes).len() ==> exists|j: int|
                0 <= j < changes.len() && changes[j].id == #[trigger] sig_ids(changes)[k],
    decreases changes.len(),
{
    if changes.len() > 0 {
        lemma_sig_ids_are_ids(changes.drop_last());
        assert forall|k: int| 0 <= k < sig_ids(changes).len() implies exists|j: int|
            0 <= j < changes.len() && changes[j].id == #[trigger] sig_ids(changes)[k] by {
            let pre = sig_ids(changes.drop_last());
            if k < pre.len() {
                assert(sig_ids(changes)[k] == pre[k]);
                let j = choose|j: int|
                    0 <= j < changes.drop_last().len() && changes.drop_last()[j].id == pre[k];
                assert(changes[j].id == sig_ids(changes)[k]);
            } else {
                assert(sig_ids(changes)[k] == changes.last().id);
                assert(changes[changes.len() - 1].id == sig_ids(changes)[k]);
            }
        }
    }
}

/// An id carried by some change is always found.
proof fn lemma_find_change_some(changes: Seq<Change>, id: usize)
    requires
        exists|j: int| 0 <= j < changes.len() && changes[j].id == id,
    ensures
        find_change(changes, id) is Some,
    decreases changes.len(),
{
    if changes.len() > 0 && changes[0].id != id {
        let j = choose|j: int| 0 <= j < changes.len() && changes[j].id == id;
        assert(changes.drop_first()[j - 1].id == id);
        lemma_find_change_some(changes.drop_first(), id);
    }
}

/// Hunking is a lossless partition: for a well-formed diff result, the
/// hunks' change ids, concatenated in hunk order, are exactly the
/// significant change ids, in order.
pub proof fn lemma_hunks_partition(d: crate::diff::DiffResult)
    requires
        d.wf(),
    ensures
        hunks_concat_ids(models_of(d.hunks@)) == d.significant_changes@,
{
    let sig = d.significant_changes@;
    let changes = d.changes@;
    lemma_sig_ids_are_ids(changes);
    assert forall|k: int| 0 <= k < sig.len() implies find_change(
        changes,
        #[trigger] sig[k],
    ) is Some by {
        lemma_find_change_some(changes, sig[k]);
    }
    lemma_found_ids_all(sig, changes);
    lemma_group_fold_partition(group_init(), sig, changes);
    let st = group_fold(group_init(), sig, changes);
    assert(hunks_concat_ids(group_init().hunks) + group_init().cur_ids + found_ids(sig, changes)
        =~= sig);
    if st.cur_ids.len() > 0 {
        assert(flushed_hunks(st).drop_last() =~= st.hunks);
        assert(hunks_concat_ids(group_finish(st)) == hunks_concat_ids(st.hunks) + st.cur_ids);
    } else {
        assert(hunks_concat_ids(group_finish(st)) =~= hunks_concat_ids(st.hunks) + st.cur_ids);
    }
}

} // verus!
