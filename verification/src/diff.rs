//! Diff computation engine: line alignment, word-level pairing of deletes
//! with inserts, and grouping of nearby changes into hunks.

use vstd::prelude::*;
use crate::change::{plain_spans, Change, ChangeKind, ChangeSpan};
use crate::hunks::{models_of, spec_hunks, HunkModel};

verus! {

/// Errors a diff computation can surface.
#[derive(Debug)]
pub enum DiffError {
    /// A document could not be read; carries the reader's diagnostic.
    FileRead(String),
    /// Reserved for fallible alignment backends; the in-memory algorithm
    /// never produces it.
    ComputeFailed(String),
}

/// A group of related changes that sit close together.
#[derive(Debug)]
pub struct Hunk {
    /// Unique id of this hunk; ids increase in creation order.
    pub id: usize,
    /// Ids of the changes in this hunk, in order; never empty.
    pub change_ids: Vec<usize>,
    /// Starting line number in the old document, from the first member
    /// change that supplies one.
    pub old_start: Option<usize>,
    /// Starting line number in the new document, from the first member
    /// change that supplies one.
    pub new_start: Option<usize>,
    /// Number of insertion spans across the member changes.
    pub insertions: usize,
    /// Number of deletion spans across the member changes.
    pub deletions: usize,
}

impl Hunk {
    /// The number of changes in this hunk.
    pub fn len(&self) -> (r: usize)
        ensures
            r == self.change_ids@.len(),
    {
        self.change_ids.len()
    }

    /// Whether the hunk holds no changes.
    pub fn is_empty(&self) -> (r: bool)
        ensures
            r == (self.change_ids@.len() == 0),
    {
        self.change_ids.len() == 0
    }
}

impl Clone for Hunk {
    fn clone(&self) -> (r: Self)
        ensures
            r@ == self@,
    {
        let change_ids = self.change_ids.clone();
        proof {
            assert(change_ids@ =~= self.change_ids@);
        }
        Hunk {
            id: self.id,
            change_ids,
            old_start: self.old_start,
            new_start: self.new_start,
            insertions: self.insertions,
            deletions: self.deletions,
        }
    }
}

/// `n` clamped to the largest `usize`.
pub open spec fn sat_usize(n: int) -> int {
    if n > usize::MAX as int {
        usize::MAX as int
    } else {
        n
    }
}

/// Increment that sticks at the largest `usize` instead of overflowing.
pub fn sat_inc(x: usize) -> (r: usize)
    ensures
        r as int == sat_usize(x as int + 1),
{
    if x < usize::MAX {
        x + 1
    } else {
        x
    }
}

/// The ids of the changes that hold an actual modification, in order.
pub open spec fn sig_ids(changes: Seq<Change>) -> Seq<usize>
    decreases changes.len(),
{
    if changes.len() == 0 {
        Seq::empty()
    } else {
        let rest = sig_ids(changes.drop_last());
        if changes.last().has_changes_spec() {
            rest.push(changes.last().id)
        } else {
            rest
        }
    }
}

/// How many changes carry a new side and an actual modification: the
/// total insertion count.
pub open spec fn ins_count(changes: Seq<Change>) -> int
    decreases changes.len(),
{
    if changes.len() == 0 {
        0
    } else {
        ins_count(changes.drop_last()) + if changes.last().has_new_side()
            && changes.last().has_changes_spec() {
            1int
        } else {
            0int
        }
    }
}

/// How many changes carry an old side and an actual modification: the
/// total deletion count.
pub open spec fn del_count(changes: Seq<Change>) -> int
    decreases changes.len(),
{
    if changes.len() == 0 {
        0
    } else {
        del_count(changes.drop_last()) + if changes.last().has_old_side()
            && changes.last().has_changes_spec() {
            1int
        } else {
            0int
        }
    }
}

/// The old-side text of every change that has an old side, in order: the
/// old document, one line per entry, terminators trimmed.
pub open spec fn old_line_texts(changes: Seq<Change>) -> Seq<Seq<char>>
    decreases changes.len(),
{
    if changes.len() == 0 {
        Seq::empty()
    } else {
        let rest = old_line_texts(changes.drop_last());
        if changes.last().has_old_side() {
            rest.push(changes.last().old_text())
        } else {
            rest
        }
    }
}

/// The new-side text of every change that has a new side, in order: the
/// new document, one line per entry, terminators trimmed.
pub open spec fn new_line_texts(changes: Seq<Change>) -> Seq<Seq<char>>
    decreases changes.len(),
{
    if changes.len() == 0 {
        Seq::empty()
    } else {
        let rest = new_line_texts(changes.drop_last());
        if changes.last().has_new_side() {
            rest.push(changes.last().new_text())
        } else {
            rest
        }
    }
}

/// The old line number of every change that has an old side, in order.
pub open spec fn old_tags(changes: Seq<Change>) -> Seq<usize>
    decreases changes.len(),
{
    if changes.len() == 0 {
        Seq::empty()
    } else {
        let rest = old_tags(changes.drop_last());
        if changes.last().has_old_side() {
            rest.push(changes.last().spans@[0].old_line->0)
        } else {
            rest
        }
    }
}

/// The new line number of every change that has a new side, in order.
pub open spec fn new_tags(changes: Seq<Change>) -> Seq<usize>
    decreases changes.len(),
{
    if changes.len() == 0 {
        Seq::empty()
    } else {
        let rest = new_tags(changes.drop_last());
        if changes.last().has_new_side() {
            rest.push(changes.last().spans@[0].new_line->0)
        } else {
            rest
        }
    }
}

/// The line numbers `1` through `n`, clamped at the largest `usize`.
pub open spec fn line_tags(n: nat) -> Seq<usize> {
    Seq::new(n, |j: int| sat_usize(j + 1) as usize)
}

/// The second components of a buffered (text, line) sequence.
pub open spec fn pend_tags(ps: Seq<(String, usize)>) -> Seq<usize> {
    ps.map_values(|p: (String, usize)| p.1)
}

/// One buffered deleted line emitted as its own change: a single
/// `Delete` span carrying the line's text and old line number.
pub open spec fn is_delete_change(c: Change, text: Seq<char>, line: usize) -> bool {
    &&& c.spans@.len() == 1
    &&& c.spans@[0].kind == ChangeKind::Delete
    &&& c.spans@[0].text@ == text
    &&& c.spans@[0].new_text is None
    &&& c.spans@[0].old_line == Some(line)
    &&& c.spans@[0].new_line is None
    &&& c.description is None
}

/// One buffered inserted line emitted as its own change: a single
/// `Insert` span carrying the line's text and new line number.
pub open spec fn is_insert_change(c: Change, text: Seq<char>, line: usize) -> bool {
    &&& c.spans@.len() == 1
    &&& c.spans@[0].kind == ChangeKind::Insert
    &&& c.spans@[0].text@ == text
    &&& c.spans@[0].new_text is None
    &&& c.spans@[0].old_line is None
    &&& c.spans@[0].new_line == Some(line)
    &&& c.description is None
}

/// One delete/insert pair emitted as a single word-level replacement
/// change: plain spans, every one tagged with the pair's two line
/// numbers, reproducing the old text on the Equal and Delete spans and
/// the new text on the Equal and Insert spans.
pub open spec fn is_pair_change(
    c: Change,
    old_text: Seq<char>,
    old_line: usize,
    new_text: Seq<char>,
    new_line: usize,
) -> bool {
    &&& c.spans@.len() >= 1
    &&& crate::change::spans_old_text(c.spans@) == old_text
    &&& crate::change::spans_new_text(c.spans@) == new_text
    &&& plain_spans(c.spans@)
    &&& forall|i: int|
        0 <= i < c.spans@.len() ==> (#[trigger] c.spans@[i]).old_line == Some(old_line)
            && c.spans@[i].new_line == Some(new_line)
    &&& c.description is None
}

/// How one flush extends the emitted changes: the old list survives as
/// a prefix; then, when word-level diffing is on and the buffered runs
/// have equal length, one paired replacement change per buffered pair;
/// else one single-span Delete change per buffered delete, in order,
/// followed by one single-span Insert change per buffered insert.
pub open spec fn flush_shape(
    word_level: bool,
    before: Seq<Change>,
    after: Seq<Change>,
    dels: Seq<(String, usize)>,
    ins: Seq<(String, usize)>,
) -> bool {
    &&& after.take(before.len() as int) == before
    &&& if word_level && dels.len() == ins.len() {
        &&& after.len() == before.len() + dels.len()
        &&& forall|j: int|
            0 <= j < dels.len() ==> is_pair_change(
                #[trigger] after[before.len() + j],
                (dels[j].0)@,
                dels[j].1,
                (ins[j].0)@,
                ins[j].1,
            )
    } else {
        &&& after.len() == before.len() + dels.len() + ins.len()
        &&& forall|j: int|
            0 <= j < dels.len() ==> is_delete_change(
                #[trigger] after[before.len() + j],
                (dels[j].0)@,
                dels[j].1,
            )
        &&& forall|j: int|
            0 <= j < ins.len() ==> is_insert_change(
                #[trigger] after[before.len() + dels.len() + j],
                (ins[j].0)@,
                ins[j].1,
            )
    }
}

/// The first change whose id is `id`, scanning in order.
pub open spec fn find_change(changes: Seq<Change>, id: usize) -> Option<Change>
    decreases changes.len(),
{
    if changes.len() == 0 {
        None
    } else if changes[0].id == id {
        Some(changes[0])
    } else {
        find_change(changes.drop_first(), id)
    }
}

/// Result of a diff operation.
#[derive(Debug)]
pub struct DiffResult {
    /// All changes in document order, context included.
    pub changes: Vec<Change>,
    /// Ids of the changes that hold an actual modification, in order.
    pub significant_changes: Vec<usize>,
    /// Proximity groups of the significant changes.
    pub hunks: Vec<Hunk>,
    /// Total number of inserted lines (a paired replacement counts one).
    pub insertions: usize,
    /// Total number of deleted lines (a paired replacement counts one).
    pub deletions: usize,
}

impl DiffResult {
    /// The internal consistency every engine-produced result satisfies:
    /// ids equal positions, every change holds a span, the significant
    /// list is exactly the ids of the changes with a modification, the
    /// counters tally them, and the hunks are the grouping of the
    /// significant list.
    pub open spec fn wf(self) -> bool {
        &&& forall|i: int|
            0 <= i < self.changes@.len() ==> (#[trigger] self.changes@[i]).id == i
        &&& forall|i: int|
            0 <= i < self.changes@.len() ==> (#[trigger] self.changes@[i]).spans@.len() >= 1
        &&& forall|i: int|
            0 <= i < self.changes@.len() ==> plain_spans((#[trigger] self.changes@[i]).spans@)
        &&& self.significant_changes@ == sig_ids(self.changes@)
        &&& self.insertions as int == sat_usize(ins_count(self.changes@))
        &&& self.deletions as int == sat_usize(del_count(self.changes@))
        &&& models_of(self.hunks@) == spec_hunks(self.significant_changes@, self.changes@)
    }

    /// The significant changes themselves: for each listed id, the first
    /// change carrying it, skipping ids that match no change.
    pub open spec fn sig_models(ids: Seq<usize>, changes: Seq<Change>) -> Seq<crate::change::ChangeModel>
        decreases ids.len(),
    {
        if ids.len() == 0 {
            Seq::empty()
        } else {
            let rest = Self::sig_models(ids.drop_last(), changes);
            match find_change(changes, ids.last()) {
                Some(c) => rest.push(c@),
                None => rest,
            }
        }
    }

    /// Get only the significant (non-context) changes.
    pub fn get_significant_changes(&self) -> (r: Vec<Change>)
        ensures
            crate::change::change_models(r@) == Self::sig_models(
                self.significant_changes@,
                self.changes@,
            ),
    {
        let mut r: Vec<Change> = Vec::new();
        let n = self.significant_changes.len();
        let mut i: usize = 0;
        proof {
            assert(self.significant_changes@.take(0) =~= Seq::<usize>::empty());
            assert(crate::change::change_models(r@) =~= Seq::<crate::change::ChangeModel>::empty());
        }
        while i < n
            invariant
                i <= n,
                n == self.significant_changes@.len(),
                crate::change::change_models(r@) == Self::sig_models(
                    self.significant_changes@.take(i as int),
                    self.changes@,
                ),
            decreases n - i,
        {
            proof {
                assert(self.significant_changes@.take(i + 1).drop_last()
                    =~= self.significant_changes@.take(i as int));
                assert(self.significant_changes@.take(i + 1).last()
                    == self.significant_changes@[i as int]);
            }
            let id = self.significant_changes[i];
            let found = find_change_in(&self.changes, id);
            let ghost prev = r@;
            match found {
                Some(c) => {
                    r.push(c.clone());
                    proof {
                        assert(r@.drop_last() =~= prev);
                        assert(crate::change::change_models(r@)
                            =~= crate::change::change_models(prev).push(r@.last()@));
                        assert(r@.last()@ == c@);
                    }
                },
                None => {},
            }
            i = i + 1;
        }
        proof {
            assert(self.significant_changes@.take(n as int) =~= self.significant_changes@);
        }
        r
    }

    /// Get a hunk by id; absent when no hunk carries it.
    pub fn get_hunk(&self, hunk_id: usize) -> (r: Option<&Hunk>)
        ensures
            match r {
                Some(h) => crate::hunks::find_hunk(models_of(self.hunks@), hunk_id) == Some(h@),
                None => crate::hunks::find_hunk(models_of(self.hunks@), hunk_id) is None,
            },
    {
        let mut i: usize = 0;
        proof {
            assert(models_of(self.hunks@).skip(0) =~= models_of(self.hunks@));
        }
        while i < self.hunks.len()
            invariant
                i <= self.hunks@.len(),
                crate::hunks::find_hunk(models_of(self.hunks@), hunk_id)
                    == crate::hunks::find_hunk(
                    models_of(self.hunks@).skip(i as int),
                    hunk_id,
                ),
            decreases self.hunks@.len() - i,
        {
            proof {
                assert(models_of(self.hunks@).skip(i as int)[0] == self.hunks@[i as int]@);
                assert(models_of(self.hunks@).skip(i as int).drop_first() =~= models_of(
                    self.hunks@,
                ).skip(i + 1));
            }
            if self.hunks[i].id == hunk_id {
                return Some(&self.hunks[i]);
            }
            i = i + 1;
        }
        proof {
            assert(models_of(self.hunks@).skip(self.hunks@.len() as int) =~= Seq::<
                HunkModel,
            >::empty());
        }
        None
    }

    /// Find the hunk a change belongs to; absent when none contains it.
    pub fn hunk_for_change(&self, change_id: usize) -> (r: Option<&Hunk>)
        ensures
            match r {
                Some(h) => crate::hunks::find_hunk_containing(models_of(self.hunks@), change_id)
                    == Some(h@),
                None => crate::hunks::find_hunk_containing(models_of(self.hunks@), change_id)
                    is None,
            },
    {
        let mut i: usize = 0;
        proof {
            assert(models_of(self.hunks@).skip(0) =~= models_of(self.hunks@));
        }
        while i < self.hunks.len()
            invariant
                i <= self.hunks@.len(),
                crate::hunks::find_hunk_containing(models_of(self.hunks@), change_id)
                    == crate::hunks::find_hunk_containing(
                    models_of(self.hunks@).skip(i as int),
                    change_id,
                ),
            decreases self.hunks@.len() - i,
        {
            proof {
                assert(models_of(self.hunks@).skip(i as int)[0] == self.hunks@[i as int]@);
                assert(models_of(self.hunks@).skip(i as int).drop_first() =~= models_of(
                    self.hunks@,
                ).skip(i + 1));
            }
            if contains_id(&self.hunks[i].change_ids, change_id) {
                return Some(&self.hunks[i]);
            }
            i = i + 1;
        }
        proof {
            assert(models_of(self.hunks@).skip(self.hunks@.len() as int) =~= Seq::<
                HunkModel,
            >::empty());
        }
        None
    }
}

/// Whether `ids` holds `id`.
pub fn contains_id(ids: &Vec<usize>, id: usize) -> (r: bool)
    ensures
        r == ids@.contains(id),
{
    let mut i: usize = 0;
    while i < ids.len()
        invariant
            i <= ids@.len(),
            forall|j: int| 0 <= j < i ==> ids@[j] != id,
        decreases ids@.len() - i,
    {
        if ids[i] == id {
            proof {
                assert(ids@[i as int] == id);
            }
            return true;
        }
        i = i + 1;
    }
    proof {
        assert(!ids@.contains(id)) by {
            if ids@.contains(id) {
                let j = choose|j: int| 0 <= j < ids@.len() && ids@[j] == id;
                assert(ids@[j] != id);
            }
        }
    }
    false
}

/// The first change in `changes` whose id is `id`, scanning in order.
pub fn find_change_in(changes: &Vec<Change>, id: usize) -> (r: Option<&Change>)
    ensures
        match r {
            Some(c) => find_change(changes@, id) == Some(*c),
            None => find_change(changes@, id) is None,
        },
{
    let mut i: usize = 0;
    proof {
        assert(changes@.skip(0) =~= changes@);
    }
    while i < changes.len()
        invariant
            i <= changes@.len(),
            find_change(changes@, id) == find_change(changes@.skip(i as int), id),
        decreases changes@.len() - i,
    {
        proof {
            assert(changes@.skip(i as int)[0] == changes@[i as int]);
            assert(changes@.skip(i as int).drop_first() =~= changes@.skip(i + 1));
        }
        if changes[i].id == id {
            return Some(&changes[i]);
        }
        i = i + 1;
    }
    proof {
        assert(changes@.skip(changes@.len() as int) =~= Seq::<Change>::empty());
    }
    None
}

/// A diff for a single document pair, with provenance.
#[derive(Debug)]
pub struct FileDiff {
    pub old_path: Option<String>,
    pub new_path: Option<String>,
    pub result: DiffResult,
}

/// The diff engine; an immutable configuration value.
#[derive(Debug)]
pub struct DiffEngine {
    /// Number of context lines to keep around a hunk; reserved for future
    /// trimming, without effect on the algorithm.
    pub context_lines: usize,
    /// Whether to pair deletes with inserts into word-level replacement
    /// changes.
    pub word_level: bool,
}

/// The first components of a buffered (text, line) sequence.
pub open spec fn pend_texts(ps: Seq<(String, usize)>) -> Seq<Seq<char>> {
    ps.map_values(|p: (String, usize)| (p.0)@)
}

pub proof fn lemma_counts_nonneg(changes: Seq<Change>)
    ensures
        ins_count(changes) >= 0,
        del_count(changes) >= 0,
    decreases changes.len(),
{
    if changes.len() > 0 {
        lemma_counts_nonneg(changes.drop_last());
    }
}

/// How appending one change extends the derived sequences of a change
/// list.
pub proof fn lemma_emit_unfold(changes: Seq<Change>, c: Change)
    ensures
        sig_ids(changes.push(c)) == if c.has_changes_spec() {
            sig_ids(changes).push(c.id)
        } else {
            sig_ids(changes)
        },
        ins_count(changes.push(c)) == ins_count(changes) + if c.has_new_side()
            && c.has_changes_spec() {
            1int
        } else {
            0int
        },
        del_count(changes.push(c)) == del_count(changes) + if c.has_old_side()
            && c.has_changes_spec() {
            1int
        } else {
            0int
        },
        old_line_texts(changes.push(c)) == if c.has_old_side() {
            old_line_texts(changes).push(c.old_text())
        } else {
            old_line_texts(changes)
        },
        new_line_texts(changes.push(c)) == if c.has_new_side() {
            new_line_texts(changes).push(c.new_text())
        } else {
            new_line_texts(changes)
        },
        old_tags(changes.push(c)) == if c.has_old_side() {
            old_tags(changes).push(c.spans@[0].old_line->0)
        } else {
            old_tags(changes)
        },
        new_tags(changes.push(c)) == if c.has_new_side() {
            new_tags(changes).push(c.spans@[0].new_line->0)
        } else {
            new_tags(changes)
        },
{
    assert(changes.push(c).drop_last() =~= changes);
    assert(changes.push(c).last() == c);
}

/// The running state of one diff computation: emitted changes, their
/// bookkeeping, and the buffered deletes and inserts not yet flushed.
pub struct DiffBuilder {
    /// Changes emitted so far, in document order.
    pub changes: Vec<Change>,
    /// Ids of the emitted changes holding a modification, in order.
    pub significant: Vec<usize>,
    /// Running insertion total.
    pub insertions: usize,
    /// Running deletion total.
    pub deletions: usize,
    /// Buffered deleted lines, each with its old line number.
    pub pending_deletes: Vec<(String, usize)>,
    /// Buffered inserted lines, each with its new line number.
    pub pending_inserts: Vec<(String, usize)>,
}

impl DiffBuilder {
    /// The bookkeeping the builder maintains across every emission.
    pub open spec fn inv(self) -> bool {
        &&& forall|i: int|
            0 <= i < self.changes@.len() ==> (#[trigger] self.changes@[i]).id == i
        &&& forall|i: int|
            0 <= i < self.changes@.len() ==> (#[trigger] self.changes@[i]).spans@.len() >= 1
        &&& forall|i: int|
            0 <= i < self.changes@.len() ==> plain_spans((#[trigger] self.changes@[i]).spans@)
        &&& self.significant@ == sig_ids(self.changes@)
        &&& self.insertions as int == sat_usize(ins_count(self.changes@))
        &&& self.deletions as int == sat_usize(del_count(self.changes@))
    }

    pub fn new() -> (r: Self)
        ensures
            r.inv(),
            r.changes@.len() == 0,
            r.pending_deletes@.len() == 0,
            r.pending_inserts@.len() == 0,
    {
        let r = DiffBuilder {
            changes: Vec::new(),
            significant: Vec::new(),
            insertions: 0,
            deletions: 0,
            pending_deletes: Vec::new(),
            pending_inserts: Vec::new(),
        };
        proof {
            assert(sig_ids(r.changes@) =~= Seq::<usize>::empty());
        }
        r
    }

    /// Emit one change holding `spans`, with the next id; it joins the
    /// significant list, and the totals, exactly when a span modifies.
    pub fn emit_change(&mut self, spans: Vec<ChangeSpan>)
        requires
            old(self).inv(),
            spans@.len() >= 1,
            plain_spans(spans@),
        ensures
            final(self).inv(),
            final(self).changes@.len() == old(self).changes@.len() + 1,
            final(self).changes@.drop_last() == old(self).changes@,
            final(self).changes@.last().id == old(self).changes@.len(),
            final(self).changes@.last().spans@ == spans@,
            final(self).changes@.last().description is None,
            final(self).pending_deletes == old(self).pending_deletes,
            final(self).pending_inserts == old(self).pending_inserts,
    {
        let id = self.changes.len();
        let c = Change::new(id, spans);
        let is_sig = c.has_changes();
        proof {
            lemma_counts_nonneg(self.changes@);
        }
        if is_sig {
            self.significant.push(id);
            if c.spans[0].new_line.is_some() {
                self.insertions = sat_inc(self.insertions);
            }
            if c.spans[0].old_line.is_some() {
                self.deletions = sat_inc(self.deletions);
            }
        }
        proof {
            lemma_emit_unfold(self.changes@, c);
        }
        self.changes.push(c);
        proof {
            assert(self.changes@.drop_last() =~= old(self).changes@);
        }
    }
}

impl Default for DiffEngine {
    fn default() -> (r: Self)
        ensures
            r.context_lines == 3,
            r.word_level == true,
    {
        Self { context_lines: 3, word_level: true }
    }
}

impl DiffEngine {
    pub fn new() -> (r: Self)
        ensures
            r.context_lines == 3,
            r.word_level == true,
    {
        Self::default()
    }

    pub fn with_context(self, lines: usize) -> (r: Self)
        ensures
            r.context_lines == lines,
            r.word_level == self.word_level,
    {
        let mut e = self;
        e.context_lines = lines;
        e
    }

    pub fn with_word_level(self, enabled: bool) -> (r: Self)
        ensures
            r.context_lines == self.context_lines,
            r.word_level == enabled,
    {
        let mut e = self;
        e.word_level = enabled;
        e
    }

    /// Word-level diff within one replaced line: tokenize both sides,
    /// align the tokens, and tag every aligned run with the pair's line
    /// numbers. The spans reproduce each side exactly.
    pub fn compute_word_diff(&self, old: &str, new: &str, old_line: usize, new_line: usize) -> (spans: Vec<ChangeSpan>)
        ensures
            spans@.len() >= 1,
            crate::change::spans_old_text(spans@) == old@,
            crate::change::spans_new_text(spans@) == new@,
            plain_spans(spans@),
            forall|i: int|
                0 <= i < spans@.len() ==> (#[trigger] spans@[i]).old_line == Some(old_line)
                    && spans@[i].new_line == Some(new_line),
    {
        let old_tokens = crate::token::tokenize_code(old);
        let new_tokens = crate::token::tokenize_code(new);
        let ops = crate::align::align_tokens(&old_tokens, &new_tokens);
        proof {
            crate::token::lemma_tokens_concat(old@);
            crate::token::lemma_tokens_concat(new@);
        }
        let mut spans: Vec<ChangeSpan> = Vec::new();
        let mut i: usize = 0;
        proof {
            assert(ops@.take(0) =~= Seq::<crate::align::AlignOp>::empty());
        }
        while i < ops.len()
            invariant
                i <= ops@.len(),
                crate::change::spans_old_text(spans@) == crate::lines::concat_texts(
                    crate::align::old_side_texts(ops@.take(i as int)),
                ),
                crate::change::spans_new_text(spans@) == crate::lines::concat_texts(
                    crate::align::new_side_texts(ops@.take(i as int)),
                ),
                plain_spans(spans@),
                forall|k: int|
                    0 <= k < spans@.len() ==> (#[trigger] spans@[k]).old_line == Some(old_line)
                        && spans@[k].new_line == Some(new_line),
            decreases ops@.len() - i,
        {
            proof {
                assert(ops@.take(i + 1).drop_last() =~= ops@.take(i as int));
                assert(ops@.take(i + 1).last() == ops@[i as int]);
                let pre_old = crate::align::old_side_texts(ops@.take(i as int));
                let pre_new = crate::align::new_side_texts(ops@.take(i as int));
                if ops@[i as int].is_old_side() {
                    assert(pre_old.push(ops@[i as int].text()) =~= pre_old + seq![
                        ops@[i as int].text(),
                    ]);
                    crate::lines::lemma_concat_texts_append(
                        pre_old,
                        seq![ops@[i as int].text()],
                    );
                    crate::lines::lemma_concat_texts_singleton(ops@[i as int].text());
                }
                if ops@[i as int].is_new_side() {
                    assert(pre_new.push(ops@[i as int].text()) =~= pre_new + seq![
                        ops@[i as int].text(),
                    ]);
                    crate::lines::lemma_concat_texts_append(
                        pre_new,
                        seq![ops@[i as int].text()],
                    );
                    crate::lines::lemma_concat_texts_singleton(ops@[i as int].text());
                }
            }
            let ghost pre_spans = spans@;
            let span = match &ops[i] {
                crate::align::AlignOp::Equal(t) => ChangeSpan::equal(t.clone()),
                crate::align::AlignOp::Delete(t) => ChangeSpan::delete(t.clone()),
                crate::align::AlignOp::Insert(t) => ChangeSpan::insert(t.clone()),
            };
            let span = span.with_lines(Some(old_line), Some(new_line));
            spans.push(span);
            proof {
                assert(spans@.drop_last() =~= pre_spans);
            }
            i = i + 1;
        }
        proof {
            assert(ops@.take(ops@.len() as int) =~= ops@);
        }
        if spans.len() == 0 {
            let span = ChangeSpan::equal(String::new()).with_lines(Some(old_line), Some(new_line));
            spans.push(span);
            proof {
                assert(spans@ =~= seq![spans@.last()]);
                crate::change::lemma_single_span_texts(spans@.last());
                assert(crate::change::spans_old_text(spans@) =~= old@);
                assert(crate::change::spans_new_text(spans@) =~= new@);
            }
        }
        spans
    }

    /// Flush the buffered deletes and inserts: pair them index-wise into
    /// word-level replacement changes when word-level diffing is on and
    /// the runs have equal length, else emit each buffered line as its own
    /// change, deletes first. Either way the buffered old-side lines and
    /// new-side lines carry over to the emitted changes in order.
    pub fn flush_pending_changes(&self, acc: &mut DiffBuilder)
        requires
            old(acc).inv(),
        ensures
            final(acc).inv(),
            final(acc).pending_deletes@.len() == 0,
            final(acc).pending_inserts@.len() == 0,
            old_line_texts(final(acc).changes@) == old_line_texts(old(acc).changes@) + pend_texts(
                old(acc).pending_deletes@,
            ),
            new_line_texts(final(acc).changes@) == new_line_texts(old(acc).changes@) + pend_texts(
                old(acc).pending_inserts@,
            ),
            old_tags(final(acc).changes@) == old_tags(old(acc).changes@) + pend_tags(
                old(acc).pending_deletes@,
            ),
            new_tags(final(acc).changes@) == new_tags(old(acc).changes@) + pend_tags(
                old(acc).pending_inserts@,
            ),
            old(acc).pending_deletes@.len() == 0 && old(acc).pending_inserts@.len() == 0
                ==> *final(acc) == *old(acc),
            flush_shape(
                self.word_level,
                old(acc).changes@,
                final(acc).changes@,
                old(acc).pending_deletes@,
                old(acc).pending_inserts@,
            ),
            final(acc).significant@.take(old(acc).significant@.len() as int) == old(
                acc,
            ).significant@,
    {
        let ghost del0 = acc.pending_deletes@;
        let ghost ins0 = acc.pending_inserts@;
        let ghost changes0 = acc.changes@;
        let ghost sig0 = acc.significant@;
        if acc.pending_deletes.len() == 0 && acc.pending_inserts.len() == 0 {
            proof {
                assert(pend_texts(del0) =~= Seq::<Seq<char>>::empty());
                assert(pend_texts(ins0) =~= Seq::<Seq<char>>::empty());
                assert(pend_tags(del0) =~= Seq::<usize>::empty());
                assert(pend_tags(ins0) =~= Seq::<usize>::empty());
                assert(old_line_texts(acc.changes@) + pend_texts(del0) =~= old_line_texts(
                    acc.changes@,
                ));
                assert(new_line_texts(acc.changes@) + pend_texts(ins0) =~= new_line_texts(
                    acc.changes@,
                ));
                assert(old_tags(acc.changes@) + pend_tags(del0) =~= old_tags(acc.changes@));
                assert(new_tags(acc.changes@) + pend_tags(ins0) =~= new_tags(acc.changes@));
                assert(acc.changes@.take(changes0.len() as int) =~= changes0);
                assert(acc.significant@.take(sig0.len() as int) =~= sig0);
            }
            return ;
        }
        if self.word_level && acc.pending_deletes.len() == acc.pending_inserts.len() {
            let k = acc.pending_deletes.len();
            let mut j: usize = 0;
            proof {
                assert(pend_texts(del0.take(0)) =~= Seq::<Seq<char>>::empty());
                assert(pend_texts(ins0.take(0)) =~= Seq::<Seq<char>>::empty());
                assert(pend_tags(del0.take(0)) =~= Seq::<usize>::empty());
                assert(pend_tags(ins0.take(0)) =~= Seq::<usize>::empty());
                assert(old_line_texts(acc.changes@) + pend_texts(del0.take(0)) =~= old_line_texts(
                    acc.changes@,
                ));
                assert(new_line_texts(acc.changes@) + pend_texts(ins0.take(0)) =~= new_line_texts(
                    acc.changes@,
                ));
                assert(old_tags(acc.changes@) + pend_tags(del0.take(0)) =~= old_tags(acc.changes@));
                assert(new_tags(acc.changes@) + pend_tags(ins0.take(0)) =~= new_tags(acc.changes@));
                assert(acc.changes@.take(changes0.len() as int) =~= changes0);
                assert(acc.significant@.take(sig0.len() as int) =~= sig0);
            }
            while j < k
                invariant
                    j <= k,
                    acc.inv(),
                    acc.pending_deletes@ == del0,
                    acc.pending_inserts@ == ins0,
                    k == del0.len(),
                    k == ins0.len(),
                    acc.changes@.len() == changes0.len() + j,
                    acc.changes@.take(changes0.len() as int) == changes0,
                    acc.significant@.take(sig0.len() as int) == sig0,
                    sig0.len() <= acc.significant@.len(),
                    forall|jj: int|
                        0 <= jj < j ==> is_pair_change(
                            #[trigger] acc.changes@[changes0.len() + jj],
                            (del0[jj].0)@,
                            del0[jj].1,
                            (ins0[jj].0)@,
                            ins0[jj].1,
                        ),
                    old_line_texts(acc.changes@) == old_line_texts(changes0) + pend_texts(
                        del0.take(j as int),
                    ),
                    new_line_texts(acc.changes@) == new_line_texts(changes0) + pend_texts(
                        ins0.take(j as int),
                    ),
                    old_tags(acc.changes@) == old_tags(changes0) + pend_tags(del0.take(j as int)),
                    new_tags(acc.changes@) == new_tags(changes0) + pend_tags(ins0.take(j as int)),
                decreases k - j,
            {
                let old_text = acc.pending_deletes[j].0.clone();
                let old_ln = acc.pending_deletes[j].1;
                let new_text = acc.pending_inserts[j].0.clone();
                let new_ln = acc.pending_inserts[j].1;
                let spans = self.compute_word_diff(
                    old_text.as_str(),
                    new_text.as_str(),
                    old_ln,
                    new_ln,
                );
                let ghost pre_changes = acc.changes@;
                let ghost pre_sig = acc.significant@;
                acc.emit_change(spans);
                proof {
                    let c = acc.changes@.last();
                    assert(acc.changes@ =~= pre_changes.push(c));
                    lemma_emit_unfold(pre_changes, c);
                    assert(c.has_old_side());
                    assert(c.has_new_side());
                    assert(c.old_text() == old_text@);
                    assert(c.new_text() == new_text@);
                    assert(old_text == del0[j as int].0);
                    assert(new_text == ins0[j as int].0);
                    assert(acc.changes@.take(changes0.len() as int) =~= changes0);
                    assert(acc.significant@ == pre_sig || acc.significant@ == pre_sig.push(c.id));
                    assert(acc.significant@.take(sig0.len() as int) =~= sig0);
                    assert(acc.changes@[changes0.len() + j] == c);
                    assert(is_pair_change(
                        c,
                        (del0[j as int].0)@,
                        del0[j as int].1,
                        (ins0[j as int].0)@,
                        ins0[j as int].1,
                    ));
                    assert(forall|jj: int|
                        0 <= jj < j ==> #[trigger] acc.changes@[changes0.len() + jj]
                            == pre_changes[changes0.len() + jj]);
                    assert(pend_texts(del0.take(j + 1)) =~= pend_texts(del0.take(j as int)).push(
                        (del0[j as int].0)@,
                    ));
                    assert(pend_texts(ins0.take(j + 1)) =~= pend_texts(ins0.take(j as int)).push(
                        (ins0[j as int].0)@,
                    ));
                    assert(old_line_texts(changes0) + pend_texts(del0.take(j + 1))
                        =~= (old_line_texts(changes0) + pend_texts(del0.take(j as int))).push(
                        (del0[j as int].0)@,
                    ));
                    assert(new_line_texts(changes0) + pend_texts(ins0.take(j + 1))
                        =~= (new_line_texts(changes0) + pend_texts(ins0.take(j as int))).push(
                        (ins0[j as int].0)@,
                    ));
                    assert(c.spans@[0].old_line == Some(old_ln));
                    assert(c.spans@[0].new_line == Some(new_ln));
                    assert(pend_tags(del0.take(j + 1)) =~= pend_tags(del0.take(j as int)).push(
                        del0[j as int].1,
                    ));
                    assert(pend_tags(ins0.take(j + 1)) =~= pend_tags(ins0.take(j as int)).push(
                        ins0[j as int].1,
                    ));
                    assert(old_tags(changes0) + pend_tags(del0.take(j + 1)) =~= (old_tags(changes0)
                        + pend_tags(del0.take(j as int))).push(del0[j as int].1));
                    assert(new_tags(changes0) + pend_tags(ins0.take(j + 1)) =~= (new_tags(changes0)
                        + pend_tags(ins0.take(j as int))).push(ins0[j as int].1));
                }
                j = j + 1;
            }
            proof {
                assert(del0.take(k as int) =~= del0);
                assert(ins0.take(k as int) =~= ins0);
            }
            acc.pending_deletes = Vec::new();
            acc.pending_inserts = Vec::new();
            proof {
                assert(flush_shape(self.word_level, changes0, acc.changes@, del0, ins0));
            }
        } else {
            // Unequal runs, or word-level pairing off: each buffered line
            // becomes its own change, deletes first.
            let kd = acc.pending_deletes.len();
            let mut j: usize = 0;
            proof {
                assert(pend_texts(del0.take(0)) =~= Seq::<Seq<char>>::empty());
                assert(pend_tags(del0.take(0)) =~= Seq::<usize>::empty());
                assert(old_line_texts(acc.changes@) + pend_texts(del0.take(0)) =~= old_line_texts(
                    acc.changes@,
                ));
                assert(old_tags(acc.changes@) + pend_tags(del0.take(0)) =~= old_tags(acc.changes@));
                assert(acc.changes@.take(changes0.len() as int) =~= changes0);
                assert(acc.significant@.take(sig0.len() as int) =~= sig0);
            }
            while j < kd
                invariant
                    j <= kd,
                    acc.inv(),
                    acc.pending_deletes@ == del0,
                    acc.pending_inserts@ == ins0,
                    kd == del0.len(),
                    acc.changes@.len() == changes0.len() + j,
                    acc.changes@.take(changes0.len() as int) == changes0,
                    acc.significant@.take(sig0.len() as int) == sig0,
                    sig0.len() <= acc.significant@.len(),
                    forall|jj: int|
                        0 <= jj < j ==> is_delete_change(
                            #[trigger] acc.changes@[changes0.len() + jj],
                            (del0[jj].0)@,
                            del0[jj].1,
                        ),
                    old_line_texts(acc.changes@) == old_line_texts(changes0) + pend_texts(
                        del0.take(j as int),
                    ),
                    new_line_texts(acc.changes@) == new_line_texts(changes0),
                    old_tags(acc.changes@) == old_tags(changes0) + pend_tags(del0.take(j as int)),
                    new_tags(acc.changes@) == new_tags(changes0),
                decreases kd - j,
            {
                let text = acc.pending_deletes[j].0.clone();
                let line = acc.pending_deletes[j].1;
                let span = ChangeSpan::delete(text).with_lines(Some(line), None);
                let mut spans: Vec<ChangeSpan> = Vec::new();
                spans.push(span);
                let ghost pre_changes = acc.changes@;
                let ghost pre_sig = acc.significant@;
                acc.emit_change(spans);
                proof {
                    let c = acc.changes@.last();
                    assert(acc.changes@ =~= pre_changes.push(c));
                    lemma_emit_unfold(pre_changes, c);
                    assert(c.spans@ =~= seq![c.spans@.last()]);
                    crate::change::lemma_single_span_texts(c.spans@.last());
                    assert(c.old_text() =~= (del0[j as int].0)@);
                    assert(c.spans@[0].old_line == Some(line));
                    assert(acc.changes@.take(changes0.len() as int) =~= changes0);
                    assert(acc.significant@ == pre_sig || acc.significant@ == pre_sig.push(c.id));
                    assert(acc.significant@.take(sig0.len() as int) =~= sig0);
                    assert(acc.changes@[changes0.len() + j] == c);
                    assert(c.spans@[0].text@ == (del0[j as int].0)@);
                    assert(is_delete_change(c, (del0[j as int].0)@, del0[j as int].1));
                    assert(forall|jj: int|
                        0 <= jj < j ==> #[trigger] acc.changes@[changes0.len() + jj]
                            == pre_changes[changes0.len() + jj]);
                    assert(pend_texts(del0.take(j + 1)) =~= pend_texts(del0.take(j as int)).push(
                        (del0[j as int].0)@,
                    ));
                    assert(old_line_texts(changes0) + pend_texts(del0.take(j + 1))
                        =~= (old_line_texts(changes0) + pend_texts(del0.take(j as int))).push(
                        (del0[j as int].0)@,
                    ));
                    assert(pend_tags(del0.take(j + 1)) =~= pend_tags(del0.take(j as int)).push(
                        del0[j as int].1,
                    ));
                    assert(old_tags(changes0) + pend_tags(del0.take(j + 1)) =~= (old_tags(changes0)
                        + pend_tags(del0.take(j as int))).push(del0[j as int].1));
                }
                j = j + 1;
            }
            proof {
                assert(del0.take(kd as int) =~= del0);
            }
            let ki = acc.pending_inserts.len();
            let mut m: usize = 0;
            proof {
                assert(pend_texts(ins0.take(0)) =~= Seq::<Seq<char>>::empty());
                assert(pend_tags(ins0.take(0)) =~= Seq::<usize>::empty());
                assert(new_line_texts(acc.changes@) + pend_texts(ins0.take(0)) =~= new_line_texts(
                    acc.changes@,
                ));
                assert(new_tags(acc.changes@) + pend_tags(ins0.take(0)) =~= new_tags(acc.changes@));
            }
            while m < ki
                invariant
                    m <= ki,
                    acc.inv(),
                    acc.pending_deletes@ == del0,
                    acc.pending_inserts@ == ins0,
                    ki == ins0.len(),
                    kd == del0.len(),
                    acc.changes@.len() == changes0.len() + kd + m,
                    acc.changes@.take(changes0.len() as int) == changes0,
                    acc.significant@.take(sig0.len() as int) == sig0,
                    sig0.len() <= acc.significant@.len(),
                    forall|jj: int|
                        0 <= jj < kd ==> is_delete_change(
                            #[trigger] acc.changes@[changes0.len() + jj],
                            (del0[jj].0)@,
                            del0[jj].1,
                        ),
                    forall|jj: int|
                        0 <= jj < m ==> is_insert_change(
                            #[trigger] acc.changes@[changes0.len() + kd + jj],
                            (ins0[jj].0)@,
                            ins0[jj].1,
                        ),
                    old_line_texts(acc.changes@) == old_line_texts(changes0) + pend_texts(del0),
                    new_line_texts(acc.changes@) == new_line_texts(changes0) + pend_texts(
                        ins0.take(m as int),
                    ),
                    old_tags(acc.changes@) == old_tags(changes0) + pend_tags(del0),
                    new_tags(acc.changes@) == new_tags(changes0) + pend_tags(ins0.take(m as int)),
                decreases ki - m,
            {
                let text = acc.pending_inserts[m].0.clone();
                let line = acc.pending_inserts[m].1;
                let span = ChangeSpan::insert(text).with_lines(None, Some(line));
                let mut spans: Vec<ChangeSpan> = Vec::new();
                spans.push(span);
                let ghost pre_changes = acc.changes@;
                let ghost pre_sig = acc.significant@;
                acc.emit_change(spans);
                proof {
                    let c = acc.changes@.last();
                    assert(acc.changes@ =~= pre_changes.push(c));
                    lemma_emit_unfold(pre_changes, c);
                    assert(c.spans@ =~= seq![c.spans@.last()]);
                    crate::change::lemma_single_span_texts(c.spans@.last());
                    assert(c.new_text() =~= (ins0[m as int].0)@);
                    assert(c.spans@[0].new_line == Some(line));
                    assert(acc.changes@.take(changes0.len() as int) =~= changes0);
                    assert(acc.significant@ == pre_sig || acc.significant@ == pre_sig.push(c.id));
                    assert(acc.significant@.take(sig0.len() as int) =~= sig0);
                    assert(acc.changes@[changes0.len() + kd + m] == c);
                    assert(c.spans@[0].text@ == (ins0[m as int].0)@);
                    assert(is_insert_change(c, (ins0[m as int].0)@, ins0[m as int].1));
                    assert(forall|jj: int|
                        0 <= jj < kd + m ==> #[trigger] acc.changes@[changes0.len() + jj]
                            == pre_changes[changes0.len() + jj]);
                    assert(pend_texts(ins0.take(m + 1)) =~= pend_texts(ins0.take(m as int)).push(
                        (ins0[m as int].0)@,
                    ));
                    assert(new_line_texts(changes0) + pend_texts(ins0.take(m + 1))
                        =~= (new_line_texts(changes0) + pend_texts(ins0.take(m as int))).push(
                        (ins0[m as int].0)@,
                    ));
                    assert(pend_tags(ins0.take(m + 1)) =~= pend_tags(ins0.take(m as int)).push(
                        ins0[m as int].1,
                    ));
                    assert(new_tags(changes0) + pend_tags(ins0.take(m + 1)) =~= (new_tags(changes0)
                        + pend_tags(ins0.take(m as int))).push(ins0[m as int].1));
                }
                m = m + 1;
            }
            proof {
                assert(ins0.take(ki as int) =~= ins0);
            }
            acc.pending_deletes = Vec::new();
            acc.pending_inserts = Vec::new();
            proof {
                assert(flush_shape(self.word_level, changes0, acc.changes@, del0, ins0));
            }
        }
    }

    /// Round trip: for any diff result whose changes decompose the two
    /// documents line by line — which `diff_strings` ensures — joining
    /// the old-side text of every change with `'\n'` reproduces `old` up
    /// to trailing-newline normalization, and the new-side texts
    /// reproduce `new` likewise. Documents with a bare carriage-return
    /// line break are out: their separator is not the `'\n'` the join
    /// restores.
    pub proof fn lemma_round_trip(r: DiffResult, old: Seq<char>, new: Seq<char>)
        requires
            old_line_texts(r.changes@) == crate::lines::trimmed_texts(
                crate::lines::split_lines(old),
            ),
            new_line_texts(r.changes@) == crate::lines::trimmed_texts(
                crate::lines::split_lines(new),
            ),
            crate::lines::no_bare_cr(old),
            crate::lines::no_bare_cr(new),
        ensures
            crate::lines::trim_nl(crate::lines::join_nl(old_line_texts(r.changes@)))
                == crate::lines::trim_nl(old),
            crate::lines::trim_nl(crate::lines::join_nl(new_line_texts(r.changes@)))
                == crate::lines::trim_nl(new),
    {
        crate::lines::lemma_document_round_trip(old);
        crate::lines::lemma_document_round_trip(new);
    }

    /// Compute the diff between two documents.
    ///
    /// The result is well formed, and it decomposes both documents: the
    /// old-side texts of its changes are exactly the lines of `old`, in
    /// order, terminators trimmed; the new-side texts are exactly the
    /// lines of `new`.
    pub fn diff_strings(&self, old: &str, new: &str) -> (r: DiffResult)
        ensures
            r.wf(),
            old_line_texts(r.changes@) == crate::lines::trimmed_texts(
                crate::lines::split_lines(old@),
            ),
            new_line_texts(r.changes@) == crate::lines::trimmed_texts(
                crate::lines::split_lines(new@),
            ),
            old_tags(r.changes@) == line_tags(crate::lines::split_lines(old@).len()),
            new_tags(r.changes@) == line_tags(crate::lines::split_lines(new@).len()),
            old@ == new@ ==> r.significant_changes@.len() == 0,
            old@ == new@ ==> r.insertions == 0,
            old@ == new@ ==> r.deletions == 0,
            old@ == new@ ==> r.hunks@.len() == 0,
    {
        let ops = crate::align::align_lines(old, new);
        let mut acc = DiffBuilder::new();
        let mut old_line_num: usize = 1;
        let mut new_line_num: usize = 1;
        let mut i: usize = 0;
        proof {
            assert(ops@.take(0) =~= Seq::<crate::align::AlignOp>::empty());
            assert(crate::lines::trimmed_texts(
                crate::align::old_side_texts(ops@.take(0)),
            ) =~= Seq::<Seq<char>>::empty());
            assert(crate::lines::trimmed_texts(
                crate::align::new_side_texts(ops@.take(0)),
            ) =~= Seq::<Seq<char>>::empty());
            assert(old_line_texts(acc.changes@) =~= Seq::<Seq<char>>::empty());
            assert(new_line_texts(acc.changes@) =~= Seq::<Seq<char>>::empty());
            assert(pend_texts(acc.pending_deletes@) =~= Seq::<Seq<char>>::empty());
            assert(pend_texts(acc.pending_inserts@) =~= Seq::<Seq<char>>::empty());
            assert(old_tags(acc.changes@) =~= Seq::<usize>::empty());
            assert(new_tags(acc.changes@) =~= Seq::<usize>::empty());
            assert(pend_tags(acc.pending_deletes@) =~= Seq::<usize>::empty());
            assert(pend_tags(acc.pending_inserts@) =~= Seq::<usize>::empty());
            assert(line_tags(0) =~= Seq::<usize>::empty());
        }
        while i < ops.len()
            invariant
                i <= ops@.len(),
                acc.inv(),
                old_line_texts(acc.changes@) + pend_texts(acc.pending_deletes@)
                    == crate::lines::trimmed_texts(
                    crate::align::old_side_texts(ops@.take(i as int)),
                ),
                new_line_texts(acc.changes@) + pend_texts(acc.pending_inserts@)
                    == crate::lines::trimmed_texts(
                    crate::align::new_side_texts(ops@.take(i as int)),
                ),
                old_tags(acc.changes@) + pend_tags(acc.pending_deletes@) == line_tags(
                    crate::align::old_side_texts(ops@.take(i as int)).len(),
                ),
                new_tags(acc.changes@) + pend_tags(acc.pending_inserts@) == line_tags(
                    crate::align::new_side_texts(ops@.take(i as int)).len(),
                ),
                old_line_num as int == sat_usize(
                    crate::align::old_side_texts(ops@.take(i as int)).len() as int + 1,
                ),
                new_line_num as int == sat_usize(
                    crate::align::new_side_texts(ops@.take(i as int)).len() as int + 1,
                ),
                old@ == new@ ==> forall|q: int|
                    0 <= q < ops@.len() ==> (#[trigger] ops@[q]) is Equal,
                old@ == new@ ==> acc.pending_deletes@.len() == 0 && acc.pending_inserts@.len()
                    == 0,
                old@ == new@ ==> acc.significant@.len() == 0,
                old@ == new@ ==> acc.insertions == 0 && acc.deletions == 0,
            decreases ops@.len() - i,
        {
            proof {
                assert(ops@.take(i + 1).drop_last() =~= ops@.take(i as int));
                assert(ops@.take(i + 1).last() == ops@[i as int]);
                let pre_old = crate::align::old_side_texts(ops@.take(i as int));
                let pre_new = crate::align::new_side_texts(ops@.take(i as int));
                if ops@[i as int].is_old_side() {
                    assert(pre_old.push(ops@[i as int].text()) =~= pre_old + seq![
                        ops@[i as int].text(),
                    ]);
                    crate::lines::lemma_trimmed_texts_append(
                        pre_old,
                        seq![ops@[i as int].text()],
                    );
                    crate::lines::lemma_trimmed_texts_singleton(ops@[i as int].text());
                    assert(line_tags(pre_old.len() + 1) =~= line_tags(pre_old.len()).push(
                        sat_usize(pre_old.len() as int + 1) as usize,
                    ));
                }
                if ops@[i as int].is_new_side() {
                    assert(pre_new.push(ops@[i as int].text()) =~= pre_new + seq![
                        ops@[i as int].text(),
                    ]);
                    crate::lines::lemma_trimmed_texts_append(
                        pre_new,
                        seq![ops@[i as int].text()],
                    );
                    crate::lines::lemma_trimmed_texts_singleton(ops@[i as int].text());
                    assert(line_tags(pre_new.len() + 1) =~= line_tags(pre_new.len()).push(
                        sat_usize(pre_new.len() as int + 1) as usize,
                    ));
                }
            }
            match &ops[i] {
                crate::align::AlignOp::Equal(t) => {
                    self.flush_pending_changes(&mut acc);
                    let ghost changes_flushed = acc.changes@;
                    let ghost sig_flushed = acc.significant@;
                    let ghost ins_flushed = acc.insertions;
                    let ghost del_flushed = acc.deletions;
                    let txt = crate::lines::trim_trailing_newlines(t.as_str());
                    let span = ChangeSpan::equal(txt).with_lines(
                        Some(old_line_num),
                        Some(new_line_num),
                    );
                    let mut spans: Vec<ChangeSpan> = Vec::new();
                    spans.push(span);
                    acc.emit_change(spans);
                    proof {
                        let c = acc.changes@.last();
                        assert(acc.changes@ =~= changes_flushed.push(c));
                        lemma_emit_unfold(changes_flushed, c);
                        assert(c.spans@ =~= seq![c.spans@.last()]);
                        crate::change::lemma_single_span_texts(c.spans@.last());
                        assert(c.old_text() =~= crate::lines::trim_nl(ops@[i as int].text()));
                        assert(c.new_text() =~= crate::lines::trim_nl(ops@[i as int].text()));
                        assert(c.spans@[0].old_line == Some(old_line_num));
                        assert(c.spans@[0].new_line == Some(new_line_num));
                        assert(pend_texts(acc.pending_deletes@) =~= Seq::<Seq<char>>::empty());
                        assert(pend_texts(acc.pending_inserts@) =~= Seq::<Seq<char>>::empty());
                        assert(pend_tags(acc.pending_deletes@) =~= Seq::<usize>::empty());
                        assert(pend_tags(acc.pending_inserts@) =~= Seq::<usize>::empty());
                        assert(old_line_texts(acc.changes@) + pend_texts(acc.pending_deletes@)
                            =~= old_line_texts(acc.changes@));
                        assert(new_line_texts(acc.changes@) + pend_texts(acc.pending_inserts@)
                            =~= new_line_texts(acc.changes@));
                        assert(old_tags(acc.changes@) + pend_tags(acc.pending_deletes@)
                            =~= old_tags(acc.changes@));
                        assert(new_tags(acc.changes@) + pend_tags(acc.pending_inserts@)
                            =~= new_tags(acc.changes@));
                        if old@ == new@ {
                            assert(c.spans@[0].kind == ChangeKind::Equal);
                            assert forall|q: int| 0 <= q < c.spans@.len() implies !(
                            #[trigger] c.spans@[q]).is_change_spec() by {
                                assert(q == 0);
                            }
                            assert(!c.has_changes_spec());
                            assert(acc.significant@ == sig_flushed);
                            assert(acc.significant@.len() == 0);
                            assert(acc.insertions as int == sat_usize(
                                ins_count(changes_flushed.push(c)),
                            ));
                            assert(acc.insertions == ins_flushed && acc.deletions == del_flushed);
                            assert(acc.insertions == 0 && acc.deletions == 0);
                        }
                    }
                    old_line_num = sat_inc(old_line_num);
                    new_line_num = sat_inc(new_line_num);
                },
                crate::align::AlignOp::Delete(t) => {
                    proof {
                        if old@ == new@ {
                            assert(ops@[i as int] is Equal);
                            assert(false);
                        }
                    }
                    let txt = crate::lines::trim_trailing_newlines(t.as_str());
                    let ghost pend_pre = acc.pending_deletes@;
                    acc.pending_deletes.push((txt, old_line_num));
                    proof {
                        assert(pend_texts(acc.pending_deletes@) =~= pend_texts(pend_pre).push(
                            crate::lines::trim_nl(ops@[i as int].text()),
                        ));
                        assert(old_line_texts(acc.changes@) + pend_texts(acc.pending_deletes@)
                            =~= (old_line_texts(acc.changes@) + pend_texts(pend_pre)).push(
                            crate::lines::trim_nl(ops@[i as int].text()),
                        ));
                        assert(pend_tags(acc.pending_deletes@) =~= pend_tags(pend_pre).push(
                            old_line_num,
                        ));
                        assert(old_tags(acc.changes@) + pend_tags(acc.pending_deletes@)
                            =~= (old_tags(acc.changes@) + pend_tags(pend_pre)).push(old_line_num));
                    }
                    old_line_num = sat_inc(old_line_num);
                },
                crate::align::AlignOp::Insert(t) => {
                    proof {
                        if old@ == new@ {
                            assert(ops@[i as int] is Equal);
                            assert(false);
                        }
                    }
                    let txt = crate::lines::trim_trailing_newlines(t.as_str());
                    let ghost pend_pre = acc.pending_inserts@;
                    acc.pending_inserts.push((txt, new_line_num));
                    proof {
                        assert(pend_texts(acc.pending_inserts@) =~= pend_texts(pend_pre).push(
                            crate::lines::trim_nl(ops@[i as int].text()),
                        ));
                        assert(new_line_texts(acc.changes@) + pend_texts(acc.pending_inserts@)
                            =~= (new_line_texts(acc.changes@) + pend_texts(pend_pre)).push(
                            crate::lines::trim_nl(ops@[i as int].text()),
                        ));
                        assert(pend_tags(acc.pending_inserts@) =~= pend_tags(pend_pre).push(
                            new_line_num,
                        ));
                        assert(new_tags(acc.changes@) + pend_tags(acc.pending_inserts@)
                            =~= (new_tags(acc.changes@) + pend_tags(pend_pre)).push(new_line_num));
                    }
                    new_line_num = sat_inc(new_line_num);
                },
            }
            i = i + 1;
        }
        proof {
            assert(ops@.take(ops@.len() as int) =~= ops@);
        }
        self.flush_pending_changes(&mut acc);
        let hunks = DiffEngine::compute_hunks(&acc.significant, &acc.changes);
        proof {
            if old@ == new@ {
                assert(acc.significant@ =~= Seq::<usize>::empty());
                assert(crate::hunks::group_fold(
                    crate::hunks::group_init(),
                    acc.significant@,
                    acc.changes@,
                ) == crate::hunks::group_init());
                assert(crate::hunks::group_finish(crate::hunks::group_init()) =~= Seq::<
                    HunkModel,
                >::empty());
                assert(spec_hunks(acc.significant@, acc.changes@) =~= Seq::<HunkModel>::empty());
                assert(models_of(hunks@).len() == hunks@.len());
                assert(hunks@.len() == 0);
            }
        }
        DiffResult {
            changes: acc.changes,
            significant_changes: acc.significant,
            hunks,
            insertions: acc.insertions,
            deletions: acc.deletions,
        }
    }
}

} // verus!
