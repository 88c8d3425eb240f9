//! Value types for diff changes: spans, change units, and their predicates.

use vstd::prelude::*;

verus! {

/// The kind of change a span represents.
#[derive(Debug, Clone, Copy, PartialEq, Eq, Structural)]
pub enum ChangeKind {
    /// Content was added.
    Insert,
    /// Content was removed.
    Delete,
    /// Content was modified; the span carries both the old and the new text.
    Replace,
    /// Content is unchanged (context).
    Equal,
}

/// A contiguous run of text tagged with one change kind.
///
/// `new_text` is set exactly when `kind` is `Replace`. `old_line` and
/// `new_line` are 1-based line numbers, absent when the span has no
/// counterpart on that side.
#[derive(Debug)]
pub struct ChangeSpan {
    /// The kind of change.
    pub kind: ChangeKind,
    /// The text content (old content for `Delete`/`Replace`, new for `Insert`).
    pub text: String,
    /// For `Replace`: the new text that replaces the old.
    pub new_text: Option<String>,
    /// Line number in the old document, if applicable.
    pub old_line: Option<usize>,
    /// Line number in the new document, if applicable.
    pub new_line: Option<usize>,
}

impl ChangeSpan {
    /// Whether this span is an actual change (not context).
    pub open spec fn is_change_spec(self) -> bool {
        self.kind != ChangeKind::Equal
    }

    pub fn new(kind: ChangeKind, text: String) -> (r: Self)
        ensures
            r.kind == kind,
            r.text == text,
            r.new_text is None,
            r.old_line is None,
            r.new_line is None,
    {
        Self { kind, text, new_text: None, old_line: None, new_line: None }
    }

    pub fn insert(text: String) -> (r: Self)
        ensures
            r.kind == ChangeKind::Insert,
            r.text == text,
            r.new_text is None,
            r.old_line is None,
            r.new_line is None,
    {
        Self::new(ChangeKind::Insert, text)
    }

    pub fn delete(text: String) -> (r: Self)
        ensures
            r.kind == ChangeKind::Delete,
            r.text == text,
            r.new_text is None,
            r.old_line is None,
            r.new_line is None,
    {
        Self::new(ChangeKind::Delete, text)
    }

    pub fn equal(text: String) -> (r: Self)
        ensures
            r.kind == ChangeKind::Equal,
            r.text == text,
            r.new_text is None,
            r.old_line is None,
            r.new_line is None,
    {
        Self::new(ChangeKind::Equal, text)
    }

    pub fn replace(old: String, new: String) -> (r: Self)
        ensures
            r.kind == ChangeKind::Replace,
            r.text == old,
            r.new_text == Some(new),
            r.old_line is None,
            r.new_line is None,
    {
        Self { kind: ChangeKind::Replace, text: old, new_text: Some(new), old_line: None, new_line: None }
    }

    /// Tag the span with its line numbers on both sides.
    pub fn with_lines(self, old_line: Option<usize>, new_line: Option<usize>) -> (r: Self)
        ensures
            r.kind == self.kind,
            r.text == self.text,
            r.new_text == self.new_text,
            r.old_line == old_line,
            r.new_line == new_line,
    {
        let mut s = self;
        s.old_line = old_line;
        s.new_line = new_line;
        s
    }

    /// Check if this is an actual change (not just context).
    pub fn is_change(&self) -> (r: bool)
        ensures
            r == self.is_change_spec(),
    {
        self.kind != ChangeKind::Equal
    }
}

impl Clone for ChangeSpan {
    fn clone(&self) -> (r: Self)
        ensures
            r == *self,
    {
        ChangeSpan {
            kind: self.kind,
            text: self.text.clone(),
            new_text: match &self.new_text {
                Some(t) => Some(t.clone()),
                None => None,
            },
            old_line: self.old_line,
            new_line: self.new_line,
        }
    }
}

/// The subsequence of `spans` that are actual changes, in order.
pub open spec fn changed_spans(spans: Seq<ChangeSpan>) -> Seq<ChangeSpan>
    decreases spans.len(),
{
    if spans.len() == 0 {
        Seq::empty()
    } else {
        let rest = changed_spans(spans.drop_last());
        if spans.last().is_change_spec() {
            rest.push(spans.last())
        } else {
            rest
        }
    }
}

/// Whether at least one of `spans` is an actual change.
pub open spec fn has_change_in(spans: Seq<ChangeSpan>) -> bool {
    exists|i: int| 0 <= i < spans.len() && spans[i].is_change_spec()
}

/// A complete change unit. It holds several spans only for a paired
/// word-level replacement; otherwise a single span.
#[derive(Debug)]
pub struct Change {
    /// Unique id of this change; ids increase in emission order.
    pub id: usize,
    /// The spans that make up this change, in order.
    pub spans: Vec<ChangeSpan>,
    /// Optional human-readable description of the change.
    pub description: Option<String>,
}

impl Change {
    /// Whether this change contains any actual modification.
    pub open spec fn has_changes_spec(self) -> bool {
        has_change_in(self.spans@)
    }

    pub fn new(id: usize, spans: Vec<ChangeSpan>) -> (r: Self)
        ensures
            r.id == id,
            r.spans == spans,
            r.description is None,
    {
        Self { id, spans, description: None }
    }

    pub fn single(id: usize, span: ChangeSpan) -> (r: Self)
        ensures
            r.id == id,
            r.spans@ =~= seq![span],
            r.description is None,
    {
        let mut spans: Vec<ChangeSpan> = Vec::new();
        spans.push(span);
        Self::new(id, spans)
    }

    pub fn with_description(self, desc: String) -> (r: Self)
        ensures
            r.id == self.id,
            r.spans == self.spans,
            r.description == Some(desc),
    {
        let mut c = self;
        c.description = Some(desc);
        c
    }

    /// All the spans that are actual changes (the non-equal spans), in order.
    pub fn changes(&self) -> (r: Vec<ChangeSpan>)
        ensures
            r@ == changed_spans(self.spans@),
    {
        let mut r: Vec<ChangeSpan> = Vec::new();
        let mut i: usize = 0;
        while i < self.spans.len()
            invariant
                0 <= i <= self.spans@.len(),
                r@ == changed_spans(self.spans@.take(i as int)),
            decreases self.spans@.len() - i,
        {
            proof {
                assert(self.spans@.take(i + 1).drop_last() =~= self.spans@.take(i as int));
                assert(self.spans@.take(i + 1).last() == self.spans@[i as int]);
            }
            if self.spans[i].is_change() {
                r.push(self.spans[i].clone());
            }
            i = i + 1;
        }
        proof {
            assert(self.spans@.take(self.spans@.len() as int) =~= self.spans@);
        }
        r
    }

    /// Check if this change contains any actual modifications.
    pub fn has_changes(&self) -> (r: bool)
        ensures
            r == self.has_changes_spec(),
    {
        let mut i: usize = 0;
        while i < self.spans.len()
            invariant
                0 <= i <= self.spans@.len(),
                forall|j: int| 0 <= j < i ==> !(#[trigger] self.spans@[j]).is_change_spec(),
            decreases self.spans@.len() - i,
        {
            if self.spans[i].is_change() {
                proof {
                    assert(self.spans@[i as int].is_change_spec());
                }
                return true;
            }
            i = i + 1;
        }
        false
    }
}

/// The old-side contribution of a span: its text unless the span is an
/// insertion, which has no old side.
pub open spec fn span_old_text(s: ChangeSpan) -> Seq<char> {
    match s.kind {
        ChangeKind::Insert => Seq::empty(),
        _ => s.text@,
    }
}

/// The new-side contribution of a span: its text for `Equal` and `Insert`,
/// the replacement text for `Replace`, nothing for `Delete`.
pub open spec fn span_new_text(s: ChangeSpan) -> Seq<char> {
    match s.kind {
        ChangeKind::Delete => Seq::empty(),
        ChangeKind::Replace => match s.new_text {
            Some(t) => t@,
            None => Seq::empty(),
        },
        _ => s.text@,
    }
}

/// Concatenated old-side text of a span sequence.
pub open spec fn spans_old_text(spans: Seq<ChangeSpan>) -> Seq<char>
    decreases spans.len(),
{
    if spans.len() == 0 {
        Seq::empty()
    } else {
        spans_old_text(spans.drop_last()) + span_old_text(spans.last())
    }
}

/// Concatenated new-side text of a span sequence.
pub open spec fn spans_new_text(spans: Seq<ChangeSpan>) -> Seq<char>
    decreases spans.len(),
{
    if spans.len() == 0 {
        Seq::empty()
    } else {
        spans_new_text(spans.drop_last()) + span_new_text(spans.last())
    }
}

/// Whether every span carries plain single-sided text: kinds stay among
/// `Equal`, `Delete` and `Insert`, and no replacement text is set. The
/// engine only emits such spans; `Replace` is a convenience for
/// consumers that need one span to carry both sides.
pub open spec fn plain_spans(spans: Seq<ChangeSpan>) -> bool {
    forall|i: int|
        0 <= i < spans.len() ==> (#[trigger] spans[i]).kind != ChangeKind::Replace
            && spans[i].new_text is None
}

/// The side texts of a single-span sequence are the span's own.
pub proof fn lemma_single_span_texts(s: ChangeSpan)
    ensures
        spans_old_text(seq![s]) == span_old_text(s),
        spans_new_text(seq![s]) == span_new_text(s),
{
    assert(seq![s].drop_last() =~= Seq::<ChangeSpan>::empty());
    assert(seq![s].last() == s);
    assert(spans_old_text(Seq::<ChangeSpan>::empty()) == Seq::<char>::empty());
    assert(spans_new_text(Seq::<ChangeSpan>::empty()) == Seq::<char>::empty());
    assert(Seq::<char>::empty() + span_old_text(s) =~= span_old_text(s));
    assert(Seq::<char>::empty() + span_new_text(s) =~= span_new_text(s));
}

impl Change {
    /// Whether the change occupies a line of the old document: its first
    /// span carries an old line number.
    pub open spec fn has_old_side(self) -> bool {
        self.spans@.len() > 0 && self.spans@[0].old_line is Some
    }

    /// Whether the change occupies a line of the new document: its first
    /// span carries a new line number.
    pub open spec fn has_new_side(self) -> bool {
        self.spans@.len() > 0 && self.spans@[0].new_line is Some
    }

    /// The old-side text of the change: what its line read before the
    /// change applies.
    pub open spec fn old_text(self) -> Seq<char> {
        spans_old_text(self.spans@)
    }

    /// The new-side text of the change: what its line reads after the
    /// change applies.
    pub open spec fn new_text(self) -> Seq<char> {
        spans_new_text(self.spans@)
    }
}

/// The mathematical value of a change: its id, the exact span sequence,
/// and the description.
pub struct ChangeModel {
    pub id: usize,
    pub spans: Seq<ChangeSpan>,
    pub description: Option<String>,
}

impl View for Change {
    type V = ChangeModel;

    open spec fn view(&self) -> ChangeModel {
        ChangeModel { id: self.id, spans: self.spans@, description: self.description }
    }
}

/// The models of a sequence of changes.
pub open spec fn change_models(cs: Seq<Change>) -> Seq<ChangeModel> {
    cs.map_values(|c: Change| c@)
}

impl Clone for Change {
    fn clone(&self) -> (r: Self)
        ensures
            r.id == self.id,
            r.spans@ == self.spans@,
            r.description == self.description,
    {
        let spans = self.spans.clone();
        proof {
            assert forall|i: int| 0 <= i < spans@.len() implies spans@[i] == self.spans@[i] by {
                assert(cloned::<ChangeSpan>(self.spans@[i], spans@[i]));
            }
            assert(spans@ =~= self.spans@);
        }
        Change {
            id: self.id,
            spans,
            description: match &self.description {
                Some(d) => Some(d.clone()),
                None => None,
            },
        }
    }
}

} // verus!
