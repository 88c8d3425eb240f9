//! Step-through navigation over one diff result: a position in the
//! ordered walk from the all-old document to the all-new one, and the
//! projection of any position, at any animation progress, into renderable
//! lines and spans.

use vstd::prelude::*;
use crate::change::{Change, ChangeKind, ChangeSpan};
use crate::diff::{sig_ids, DiffResult};
use crate::hunks::{find_hunk_containing, models_of, HunkModel};

verus! {

/// Direction of the step an animation frame interpolates.
#[derive(Debug, Clone, Copy, PartialEq, Eq, Structural)]
pub enum StepDirection {
    Forward,
    Backward,
}

/// Phase of the step animation.
#[derive(Debug, Clone, Copy, PartialEq, Eq, Structural)]
pub enum AnimationPhase {
    /// No transition is running.
    Idle,
    /// A step transition is running.
    Stepping,
}

/// An interpolation snapshot between two adjacent steps. `progress` runs
/// from 0 to 1000 per-mille; a frame strictly between the two endpoints
/// is "in transition" and projects the pending line and span kinds.
#[derive(Debug, Clone, Copy, PartialEq, Eq, Structural)]
pub struct AnimationFrame {
    pub phase: AnimationPhase,
    /// Progress through the transition, in per-mille of the step.
    pub progress: u16,
    pub direction: StepDirection,
}

/// A settled frame: no transition running.
pub open spec fn idle_frame() -> AnimationFrame {
    AnimationFrame { phase: AnimationPhase::Idle, progress: 1000, direction: StepDirection::Forward }
}

impl AnimationFrame {
    /// Whether the frame sits strictly between two steps.
    pub open spec fn in_transition_spec(self) -> bool {
        0 < self.progress < 1000
    }

    /// A settled frame: no transition running.
    pub fn idle() -> (r: Self)
        ensures
            r == idle_frame(),
            !r.in_transition_spec(),
    {
        AnimationFrame { phase: AnimationPhase::Idle, progress: 1000, direction: StepDirection::Forward }
    }

    /// Whether the frame sits strictly between two steps.
    pub fn in_transition(&self) -> (r: bool)
        ensures
            r == self.in_transition_spec(),
    {
        0 < self.progress && self.progress < 1000
    }
}

/// How one rendered line relates to the diff at the current step.
#[derive(Debug, Clone, Copy, PartialEq, Eq, Structural)]
pub enum LineKind {
    Context,
    Inserted,
    Deleted,
    Modified,
    PendingInsert,
    PendingDelete,
    PendingModify,
}

/// How one rendered span relates to the diff at the current step.
#[derive(Debug, Clone, Copy, PartialEq, Eq, Structural)]
pub enum ViewSpanKind {
    Equal,
    Deleted,
    Inserted,
    PendingDelete,
    PendingInsert,
}

/// One styled run of text within a rendered line.
#[derive(Debug)]
pub struct ViewSpan {
    pub text: String,
    pub kind: ViewSpanKind,
}

/// The mathematical value of a view span.
pub struct ViewSpanModel {
    pub text: Seq<char>,
    pub kind: ViewSpanKind,
}

impl View for ViewSpan {
    type V = ViewSpanModel;

    open spec fn view(&self) -> ViewSpanModel {
        ViewSpanModel { text: self.text@, kind: self.kind }
    }
}

/// The models of a sequence of view spans.
pub open spec fn vs_models(vs: Seq<ViewSpan>) -> Seq<ViewSpanModel> {
    vs.map_values(|v: ViewSpan| v@)
}

/// One rendered line of the current view.
#[derive(Debug)]
pub struct ViewLine {
    /// How the line relates to the diff at this step.
    pub kind: LineKind,
    /// Line number in the old document, if the line has an old side.
    pub old_line: Option<usize>,
    /// Line number in the new document, if the line has a new side.
    pub new_line: Option<usize>,
    /// Whether the line belongs to the active change.
    pub is_active: bool,
    /// Whether the line is the cursor row; one line per step at most.
    pub is_primary_active: bool,
    /// Whether the line shares the active change's hunk without being the
    /// cursor row.
    pub show_hunk_extent: bool,
    /// Whether the underlying change holds an actual modification.
    pub has_changes: bool,
    /// Whether the underlying change is the active one.
    pub is_active_change: bool,
    /// Id of the underlying change.
    pub change_id: usize,
    /// Id of the hunk the underlying change belongs to, if any.
    pub hunk_index: Option<usize>,
    /// The styled runs of the line, in order.
    pub spans: Vec<ViewSpan>,
}

/// The mathematical value of a view line.
pub struct ViewLineModel {
    pub kind: LineKind,
    pub old_line: Option<usize>,
    pub new_line: Option<usize>,
    pub is_active: bool,
    pub is_primary_active: bool,
    pub show_hunk_extent: bool,
    pub has_changes: bool,
    pub is_active_change: bool,
    pub change_id: usize,
    pub hunk_index: Option<usize>,
    pub spans: Seq<ViewSpanModel>,
}

impl View for ViewLine {
    type V = ViewLineModel;

    open spec fn view(&self) -> ViewLineModel {
        ViewLineModel {
            kind: self.kind,
            old_line: self.old_line,
            new_line: self.new_line,
            is_active: self.is_active,
            is_primary_active: self.is_primary_active,
            show_hunk_extent: self.show_hunk_extent,
            has_changes: self.has_changes,
            is_active_change: self.is_active_change,
            change_id: self.change_id,
            hunk_index: self.hunk_index,
            spans: vs_models(self.spans@),
        }
    }
}

/// The models of a sequence of view lines.
pub open spec fn vl_models(ls: Seq<ViewLine>) -> Seq<ViewLineModel> {
    ls.map_values(|l: ViewLine| l@)
}

/// Which side of a change a line projection renders.
#[derive(Debug, Clone, Copy, PartialEq, Eq, Structural)]
pub enum SpanMode {
    /// Not-yet-applied text rendered as plain context: the old side, every
    /// run equal-styled.
    ContextOld,
    /// Applied text: the new side, insertions highlighted.
    NewSide,
    /// The active replacement: both sides, deletions and insertions
    /// highlighted.
    ActiveModify,
    /// The active deletion: the old side, deletions highlighted.
    ActiveDelete,
    /// The active insertion: the new side, insertions highlighted.
    ActiveInsert,
}

/// The deletion span kind at this progress.
pub open spec fn del_kind(pending: bool) -> ViewSpanKind {
    if pending {
        ViewSpanKind::PendingDelete
    } else {
        ViewSpanKind::Deleted
    }
}

/// The insertion span kind at this progress.
pub open spec fn ins_kind(pending: bool) -> ViewSpanKind {
    if pending {
        ViewSpanKind::PendingInsert
    } else {
        ViewSpanKind::Inserted
    }
}

/// The replacement text a `Replace` span carries, or its own text.
pub open spec fn replace_new_text(s: ChangeSpan) -> Seq<char> {
    match s.new_text {
        Some(t) => t@,
        None => s.text@,
    }
}

/// The view spans one change span projects to under `mode`.
pub open spec fn span_view(s: ChangeSpan, mode: SpanMode, pending: bool) -> Seq<ViewSpanModel> {
    match mode {
        SpanMode::ContextOld => match s.kind {
            ChangeKind::Insert => Seq::empty(),
            _ => seq![ViewSpanModel { text: s.text@, kind: ViewSpanKind::Equal }],
        },
        SpanMode::NewSide => match s.kind {
            ChangeKind::Delete => Seq::empty(),
            ChangeKind::Equal => seq![ViewSpanModel { text: s.text@, kind: ViewSpanKind::Equal }],
            ChangeKind::Insert => seq![
                ViewSpanModel { text: s.text@, kind: ViewSpanKind::Inserted },
            ],
            ChangeKind::Replace => seq![
                ViewSpanModel { text: replace_new_text(s), kind: ViewSpanKind::Inserted },
            ],
        },
        SpanMode::ActiveModify => match s.kind {
            ChangeKind::Equal => seq![ViewSpanModel { text: s.text@, kind: ViewSpanKind::Equal }],
            ChangeKind::Delete => seq![ViewSpanModel { text: s.text@, kind: del_kind(pending) }],
            ChangeKind::Insert => seq![ViewSpanModel { text: s.text@, kind: ins_kind(pending) }],
            ChangeKind::Replace => seq![
                ViewSpanModel { text: s.text@, kind: del_kind(pending) },
                ViewSpanModel { text: replace_new_text(s), kind: ins_kind(pending) },
            ],
        },
        SpanMode::ActiveDelete => match s.kind {
            ChangeKind::Equal => seq![ViewSpanModel { text: s.text@, kind: ViewSpanKind::Equal }],
            ChangeKind::Insert => Seq::empty(),
            _ => seq![ViewSpanModel { text: s.text@, kind: del_kind(pending) }],
        },
        SpanMode::ActiveInsert => match s.kind {
            ChangeKind::Equal => seq![ViewSpanModel { text: s.text@, kind: ViewSpanKind::Equal }],
            ChangeKind::Delete => Seq::empty(),
            ChangeKind::Insert => seq![ViewSpanModel { text: s.text@, kind: ins_kind(pending) }],
            ChangeKind::Replace => seq![
                ViewSpanModel { text: replace_new_text(s), kind: ins_kind(pending) },
            ],
        },
    }
}

/// The view spans a whole span sequence projects to under `mode`.
pub open spec fn spans_view(spans: Seq<ChangeSpan>, mode: SpanMode, pending: bool) -> Seq<ViewSpanModel>
    decreases spans.len(),
{
    if spans.len() == 0 {
        Seq::empty()
    } else {
        spans_view(spans.drop_last(), mode, pending) + span_view(spans.last(), mode, pending)
    }
}

/// Project a change's spans into view spans under `mode`.
pub fn map_spans(spans: &Vec<ChangeSpan>, mode: SpanMode, pending: bool) -> (r: Vec<ViewSpan>)
    ensures
        vs_models(r@) == spans_view(spans@, mode, pending),
{
    let mut r: Vec<ViewSpan> = Vec::new();
    let mut i: usize = 0;
    proof {
        assert(spans@.take(0) =~= Seq::<ChangeSpan>::empty());
        assert(vs_models(r@) =~= Seq::<ViewSpanModel>::empty());
    }
    while i < spans.len()
        invariant
            i <= spans@.len(),
            vs_models(r@) == spans_view(spans@.take(i as int), mode, pending),
        decreases spans@.len() - i,
    {
        proof {
            assert(spans@.take(i + 1).drop_last() =~= spans@.take(i as int));
            assert(spans@.take(i + 1).last() == spans@[i as int]);
        }
        let s = &spans[i];
        let ghost prev = r@;
        match mode {
            SpanMode::ContextOld => {
                match s.kind {
                    ChangeKind::Insert => {},
                    _ => {
                        r.push(ViewSpan { text: s.text.clone(), kind: ViewSpanKind::Equal });
                    },
                }
            },
            SpanMode::NewSide => {
                match s.kind {
                    ChangeKind::Delete => {},
                    ChangeKind::Equal => {
                        r.push(ViewSpan { text: s.text.clone(), kind: ViewSpanKind::Equal });
                    },
                    ChangeKind::Insert => {
                        r.push(ViewSpan { text: s.text.clone(), kind: ViewSpanKind::Inserted });
                    },
                    ChangeKind::Replace => {
                        r.push(
                            ViewSpan { text: replace_text_of(s), kind: ViewSpanKind::Inserted },
                        );
                    },
                }
            },
            SpanMode::ActiveModify => {
                match s.kind {
                    ChangeKind::Equal => {
                        r.push(ViewSpan { text: s.text.clone(), kind: ViewSpanKind::Equal });
                    },
                    ChangeKind::Delete => {
                        r.push(ViewSpan { text: s.text.clone(), kind: del_kind_exec(pending) });
                    },
                    ChangeKind::Insert => {
                        r.push(ViewSpan { text: s.text.clone(), kind: ins_kind_exec(pending) });
                    },
                    ChangeKind::Replace => {
                        r.push(ViewSpan { text: s.text.clone(), kind: del_kind_exec(pending) });
                        r.push(ViewSpan { text: replace_text_of(s), kind: ins_kind_exec(pending) });
                    },
                }
            },
            SpanMode::ActiveDelete => {
                match s.kind {
                    ChangeKind::Equal => {
                        r.push(ViewSpan { text: s.text.clone(), kind: ViewSpanKind::Equal });
                    },
                    ChangeKind::Insert => {},
                    _ => {
                        r.push(ViewSpan { text: s.text.clone(), kind: del_kind_exec(pending) });
                    },
                }
            },
            SpanMode::ActiveInsert => {
                match s.kind {
                    ChangeKind::Equal => {
                        r.push(ViewSpan { text: s.text.clone(), kind: ViewSpanKind::Equal });
                    },
                    ChangeKind::Delete => {},
                    ChangeKind::Insert => {
                        r.push(ViewSpan { text: s.text.clone(), kind: ins_kind_exec(pending) });
                    },
                    ChangeKind::Replace => {
                        r.push(
                            ViewSpan { text: replace_text_of(s), kind: ins_kind_exec(pending) },
                        );
                    },
                }
            },
        }
        proof {
            assert(vs_models(r@) =~= vs_models(prev) + vs_models(r@.skip(prev.len() as int)));
            assert(vs_models(r@.skip(prev.len() as int)) =~= span_view(
                spans@[i as int],
                mode,
                pending,
            ));
        }
        i = i + 1;
    }
    proof {
        assert(spans@.take(spans@.len() as int) =~= spans@);
    }
    r
}

/// The deletion span kind at this progress.
pub fn del_kind_exec(pending: bool) -> (r: ViewSpanKind)
    ensures
        r == del_kind(pending),
{
    if pending {
        ViewSpanKind::PendingDelete
    } else {
        ViewSpanKind::Deleted
    }
}

/// The insertion span kind at this progress.
pub fn ins_kind_exec(pending: bool) -> (r: ViewSpanKind)
    ensures
        r == ins_kind(pending),
{
    if pending {
        ViewSpanKind::PendingInsert
    } else {
        ViewSpanKind::Inserted
    }
}

/// The replacement text of a span, cloned.
fn replace_text_of(s: &ChangeSpan) -> (r: String)
    ensures
        r@ == replace_new_text(*s),
{
    match &s.new_text {
        Some(t) => t.clone(),
        None => s.text.clone(),
    }
}

/// The navigator's position: a step index in `[0, N]` over the
/// significant changes, and an orthogonal hunk-preview cursor.
#[derive(Debug, Clone, Copy, PartialEq, Eq, Structural)]
pub struct StepState {
    /// Number of significant changes already applied; `0` shows the
    /// all-old document, `N` the all-new one.
    pub active_index: usize,
    /// Whether steps move by whole hunks instead of single changes.
    pub hunk_preview_mode: bool,
    /// The hunk the cursor sits in while previewing hunks.
    pub current_hunk: usize,
}

/// The id of the first hunk containing `change_id`, if any.
pub open spec fn hunk_opt_id(hunks: Seq<HunkModel>, change_id: usize) -> Option<usize> {
    match find_hunk_containing(hunks, change_id) {
        Some(h) => Some(h.id),
        None => None,
    }
}

/// The first index at or after `from` whose id leaves `ids`; walking
/// forward past the tail of the current hunk.
pub open spec fn skip_fwd(sig: Seq<usize>, from: int, ids: Seq<usize>) -> int
    decreases sig.len() - from,
{
    if from < 0 || from >= sig.len() {
        from
    } else if !ids.contains(sig[from]) {
        from
    } else {
        skip_fwd(sig, from + 1, ids)
    }
}

/// The first index at or before `from` not preceded by an id of `ids`;
/// walking backward to the head of the current hunk.
pub open spec fn skip_back(sig: Seq<usize>, from: int, ids: Seq<usize>) -> int
    decreases from,
{
    if from <= 0 || from > sig.len() {
        from
    } else if !ids.contains(sig[from - 1]) {
        from
    } else {
        skip_back(sig, from - 1, ids)
    }
}

/// The hunk cursor after landing on index `idx`, keeping `dflt` past the
/// end or on a change in no hunk.
pub open spec fn hunk_cursor(sig: Seq<usize>, hunks: Seq<HunkModel>, idx: int, dflt: usize) -> usize {
    if 0 <= idx < sig.len() {
        match find_hunk_containing(hunks, sig[idx]) {
            Some(h) => h.id,
            None => dflt,
        }
    } else {
        dflt
    }
}

/// Where one forward step moves the position: one significant change
/// normally, the rest of the current hunk in hunk-preview mode; a step
/// past the end changes nothing.
pub open spec fn forward_target(sig: Seq<usize>, hunks: Seq<HunkModel>, s: StepState) -> StepState {
    if s.active_index >= sig.len() {
        s
    } else if !s.hunk_preview_mode {
        StepState { active_index: (s.active_index + 1) as usize, ..s }
    } else {
        match find_hunk_containing(hunks, sig[s.active_index as int]) {
            None => StepState { active_index: (s.active_index + 1) as usize, ..s },
            Some(h) => {
                let na = skip_fwd(sig, s.active_index as int, h.change_ids);
                StepState {
                    active_index: na as usize,
                    current_hunk: hunk_cursor(sig, hunks, na, s.current_hunk),
                    ..s
                }
            },
        }
    }
}

/// Where one backward step moves the position: one significant change
/// normally, to the head of the previous hunk in hunk-preview mode; a
/// step before the start changes nothing.
pub open spec fn backward_target(sig: Seq<usize>, hunks: Seq<HunkModel>, s: StepState) -> StepState {
    if s.active_index == 0 || s.active_index > sig.len() {
        s
    } else if !s.hunk_preview_mode {
        StepState { active_index: (s.active_index - 1) as usize, ..s }
    } else {
        match find_hunk_containing(hunks, sig[s.active_index - 1]) {
            None => StepState { active_index: (s.active_index - 1) as usize, ..s },
            Some(h) => {
                let na = skip_back(sig, s.active_index - 1, h.change_ids);
                StepState {
                    active_index: na as usize,
                    current_hunk: hunk_cursor(sig, hunks, na, s.current_hunk),
                    ..s
                }
            },
        }
    }
}

/// How a significant change occupies the document: only an old line,
/// only a new line, or both sides of one line.
#[derive(Debug, Clone, Copy, PartialEq, Eq, Structural)]
pub enum ChangeClass {
    Insertion,
    Deletion,
    Modification,
}

/// Classify a change by which sides it occupies.
pub open spec fn change_class(c: Change) -> ChangeClass {
    if c.has_old_side() && !c.has_new_side() {
        ChangeClass::Deletion
    } else if !c.has_old_side() && c.has_new_side() {
        ChangeClass::Insertion
    } else {
        ChangeClass::Modification
    }
}

/// The view line one change projects to, given the active significant
/// index `ai`, the active change's hunk, the animation progress, and the
/// change's own significant index `k`.
///
/// A context change renders as-is. An applied change renders its new
/// side (an applied deletion vanishes); a not-yet-applied change renders
/// its old side as plain context (a not-yet-applied insertion does not
/// exist); the active change renders with its own nature, pending while
/// a transition is running.
pub open spec fn line_for(
    c: Change,
    hunks: Seq<HunkModel>,
    ai: int,
    act_hunk: Option<usize>,
    pending: bool,
    k: int,
) -> Option<ViewLineModel> {
    if !c.has_changes_spec() {
        if c.spans@.len() == 0 {
            None
        } else {
            Some(
                (ViewLineModel {
                    kind: LineKind::Context,
                    old_line: c.spans@[0].old_line,
                    new_line: c.spans@[0].new_line,
                    is_active: false,
                    is_primary_active: false,
                    show_hunk_extent: false,
                    has_changes: false,
                    is_active_change: false,
                    change_id: c.id,
                    hunk_index: None,
                    spans: spans_view(c.spans@, SpanMode::ContextOld, false),
                }),
            )
        }
    } else {
        let hid = hunk_opt_id(hunks, c.id);
        let active = k == ai;
        let in_ext = !active && hid is Some && act_hunk is Some && hid->0 == act_hunk->0;
        let kind_spans: Option<(LineKind, Seq<ViewSpanModel>)> = match change_class(c) {
            ChangeClass::Insertion => if k < ai {
                Some((LineKind::Inserted, spans_view(c.spans@, SpanMode::NewSide, false)))
            } else if active {
                Some(
                    (
                        if pending {
                            LineKind::PendingInsert
                        } else {
                            LineKind::Inserted
                        },
                        spans_view(c.spans@, SpanMode::ActiveInsert, pending),
                    ),
                )
            } else {
                None
            },
            ChangeClass::Deletion => if k < ai {
                None
            } else if active {
                Some(
                    (
                        if pending {
                            LineKind::PendingDelete
                        } else {
                            LineKind::Deleted
                        },
                        spans_view(c.spans@, SpanMode::ActiveDelete, pending),
                    ),
                )
            } else {
                Some((LineKind::Context, spans_view(c.spans@, SpanMode::ContextOld, false)))
            },
            ChangeClass::Modification => if k < ai {
                Some((LineKind::Modified, spans_view(c.spans@, SpanMode::NewSide, false)))
            } else if active {
                Some(
                    (
                        if pending {
                            LineKind::PendingModify
                        } else {
                            LineKind::Modified
                        },
                        spans_view(c.spans@, SpanMode::ActiveModify, pending),
                    ),
                )
            } else {
                Some((LineKind::Context, spans_view(c.spans@, SpanMode::ContextOld, false)))
            },
        };
        match kind_spans {
            None => None,
            Some(ks) => Some(
                (ViewLineModel {
                    kind: ks.0,
                    old_line: if c.spans@.len() == 0 {
                        None
                    } else {
                        c.spans@[0].old_line
                    },
                    new_line: if c.spans@.len() == 0 {
                        None
                    } else {
                        c.spans@[0].new_line
                    },
                    is_active: active,
                    is_primary_active: active,
                    show_hunk_extent: in_ext,
                    has_changes: true,
                    is_active_change: active,
                    change_id: c.id,
                    hunk_index: hid,
                    spans: ks.1,
                }),
            ),
        }
    }
}

/// The view lines of a suffix of the change list; `k` is the significant
/// index of its first change.
pub open spec fn view_rec(
    changes: Seq<Change>,
    hunks: Seq<HunkModel>,
    ai: int,
    act_hunk: Option<usize>,
    pending: bool,
    k: int,
) -> Seq<ViewLineModel>
    decreases changes.len(),
{
    if changes.len() == 0 {
        Seq::empty()
    } else {
        let c = changes[0];
        let here: Seq<ViewLineModel> = match line_for(c, hunks, ai, act_hunk, pending, k) {
            Some(l) => seq![l],
            None => Seq::empty(),
        };
        let k2: int = if c.has_changes_spec() {
            k + 1
        } else {
            k
        };
        here + view_rec(changes.drop_first(), hunks, ai, act_hunk, pending, k2)
    }
}

/// The hunk of the active change, if the position is not terminal.
pub open spec fn active_hunk(d: DiffResult, s: StepState) -> Option<usize> {
    if s.active_index < d.significant_changes@.len() {
        hunk_opt_id(models_of(d.hunks@), d.significant_changes@[s.active_index as int])
    } else {
        None
    }
}

/// The full view of a diff at one position and animation frame.
pub open spec fn view_spec(d: DiffResult, s: StepState, f: AnimationFrame) -> Seq<ViewLineModel> {
    view_rec(
        d.changes@,
        models_of(d.hunks@),
        s.active_index as int,
        active_hunk(d, s),
        f.in_transition_spec(),
        0,
    )
}

/// The id of the first hunk of `hunks` containing `change_id`, if any.
fn hunk_id_for(hunks: &Vec<crate::diff::Hunk>, change_id: usize) -> (r: Option<usize>)
    ensures
        r == hunk_opt_id(models_of(hunks@), change_id),
{
    let mut i: usize = 0;
    proof {
        assert(models_of(hunks@).skip(0) =~= models_of(hunks@));
    }
    while i < hunks.len()
        invariant
            i <= hunks@.len(),
            find_hunk_containing(models_of(hunks@), change_id) == find_hunk_containing(
                models_of(hunks@).skip(i as int),
                change_id,
            ),
        decreases hunks@.len() - i,
    {
        proof {
            assert(models_of(hunks@).skip(i as int)[0] == hunks@[i as int]@);
            assert(models_of(hunks@).skip(i as int).drop_first() =~= models_of(hunks@).skip(
                i + 1,
            ));
        }
        if crate::diff::contains_id(&hunks[i].change_ids, change_id) {
            return Some(hunks[i].id);
        }
        i = i + 1;
    }
    proof {
        assert(models_of(hunks@).skip(hunks@.len() as int) =~= Seq::<HunkModel>::empty());
    }
    None
}

/// Project one change into its view line, if it shows at this position.
fn line_for_exec(
    c: &Change,
    hunks: &Vec<crate::diff::Hunk>,
    ai: usize,
    act_hunk: Option<usize>,
    pending: bool,
    k: usize,
) -> (r: Option<ViewLine>)
    ensures
        match r {
            Some(l) => line_for(*c, models_of(hunks@), ai as int, act_hunk, pending, k as int)
                == Some(l@),
            None => line_for(*c, models_of(hunks@), ai as int, act_hunk, pending, k as int)
                is None,
        },
{
    if !c.has_changes() {
        if c.spans.len() == 0 {
            return None;
        }
        let spans = map_spans(&c.spans, SpanMode::ContextOld, false);
        return Some(
            ViewLine {
                kind: LineKind::Context,
                old_line: c.spans[0].old_line,
                new_line: c.spans[0].new_line,
                is_active: false,
                is_primary_active: false,
                show_hunk_extent: false,
                has_changes: false,
                is_active_change: false,
                change_id: c.id,
                hunk_index: None,
                spans,
            },
        );
    }
    proof {
        assert(c.spans@.len() > 0);
    }
    let hid = hunk_id_for(hunks, c.id);
    let active = k == ai;
    let in_ext = !active && (match (hid, act_hunk) {
        (Some(a), Some(b)) => a == b,
        _ => false,
    });
    let has_old = c.spans[0].old_line.is_some();
    let has_new = c.spans[0].new_line.is_some();
    let kind_spans: Option<(LineKind, Vec<ViewSpan>)> = if has_old && !has_new {
        if k < ai {
            None
        } else if active {
            Some(
                (
                    if pending {
                        LineKind::PendingDelete
                    } else {
                        LineKind::Deleted
                    },
                    map_spans(&c.spans, SpanMode::ActiveDelete, pending),
                ),
            )
        } else {
            Some((LineKind::Context, map_spans(&c.spans, SpanMode::ContextOld, false)))
        }
    } else if !has_old && has_new {
        if k < ai {
            Some((LineKind::Inserted, map_spans(&c.spans, SpanMode::NewSide, false)))
        } else if active {
            Some(
                (
                    if pending {
                        LineKind::PendingInsert
                    } else {
                        LineKind::Inserted
                    },
                    map_spans(&c.spans, SpanMode::ActiveInsert, pending),
                ),
            )
        } else {
            None
        }
    } else {
        if k < ai {
            Some((LineKind::Modified, map_spans(&c.spans, SpanMode::NewSide, false)))
        } else if active {
            Some(
                (
                    if pending {
                        LineKind::PendingModify
                    } else {
                        LineKind::Modified
                    },
                    map_spans(&c.spans, SpanMode::ActiveModify, pending),
                ),
            )
        } else {
            Some((LineKind::Context, map_spans(&c.spans, SpanMode::ContextOld, false)))
        }
    };
    match kind_spans {
        None => None,
        Some(ks) => {
            let (kind, spans) = ks;
            Some(
                ViewLine {
                    kind,
                    old_line: c.spans[0].old_line,
                    new_line: c.spans[0].new_line,
                    is_active: active,
                    is_primary_active: active,
                    show_hunk_extent: in_ext,
                    has_changes: true,
                    is_active_change: active,
                    change_id: c.id,
                    hunk_index: hid,
                    spans,
                },
            )
        },
    }
}

/// A steppable walk over one diff result, from the all-old document to
/// the all-new one.
#[derive(Debug)]
pub struct DiffNavigator {
    /// The diff being walked; immutable while navigating.
    pub diff: DiffResult,
    /// The current position.
    pub state: StepState,
}

impl DiffNavigator {
    /// The navigator's position stays within the walk.
    pub open spec fn wf(self) -> bool {
        &&& self.diff.wf()
        &&& self.state.active_index <= self.diff.significant_changes@.len()
    }

    /// Start a walk at the all-old document.
    pub fn new(diff: DiffResult) -> (r: Self)
        ensures
            r.diff == diff,
            r.state == (StepState { active_index: 0, hunk_preview_mode: false, current_hunk: 0 }),
            diff.wf() ==> r.wf(),
    {
        DiffNavigator {
            diff,
            state: StepState { active_index: 0, hunk_preview_mode: false, current_hunk: 0 },
        }
    }

    /// The diff being walked.
    pub fn diff(&self) -> (r: &DiffResult)
        ensures
            r == &self.diff,
    {
        &self.diff
    }

    /// The current position.
    pub fn state(&self) -> (r: StepState)
        ensures
            r == self.state,
    {
        self.state
    }

    /// The number of steps in the walk: one per significant change.
    pub fn total_steps(&self) -> (r: usize)
        ensures
            r == self.diff.significant_changes@.len(),
    {
        self.diff.significant_changes.len()
    }

    /// Switch hunk-preview stepping on or off.
    pub fn set_hunk_preview_mode(&mut self, on: bool)
        ensures
            final(self).diff == old(self).diff,
            final(self).state == (StepState { hunk_preview_mode: on, ..old(self).state }),
    {
        self.state.hunk_preview_mode = on;
    }

    /// Step one unit forward, clamped at the terminal position.
    pub fn step_forward(&mut self)
        requires
            old(self).wf(),
        ensures
            final(self).wf(),
            final(self).diff == old(self).diff,
            final(self).state == forward_target(
                old(self).diff.significant_changes@,
                models_of(old(self).diff.hunks@),
                old(self).state,
            ),
    {
        let n = self.diff.significant_changes.len();
        let ai = self.state.active_index;
        if ai >= n {
            return ;
        }
        if !self.state.hunk_preview_mode {
            self.state.active_index = ai + 1;
            return ;
        }
        let id = self.diff.significant_changes[ai];
        let ghost sig = self.diff.significant_changes@;
        let ghost hmodels = models_of(self.diff.hunks@);
        match self.diff.hunk_for_change(id) {
            None => {
                self.state.active_index = ai + 1;
            },
            Some(h) => {
                let ghost ids = h@.change_ids;
                let mut j = ai;
                while j < n && crate::diff::contains_id(&h.change_ids, self.diff.significant_changes[j])
                    invariant
                        ai <= j <= n,
                        n == sig.len(),
                        sig == self.diff.significant_changes@,
                        ids == h@.change_ids,
                        h.change_ids@ == h@.change_ids,
                        skip_fwd(sig, ai as int, ids) == skip_fwd(sig, j as int, ids),
                    decreases n - j,
                {
                    j = j + 1;
                }
                proof {
                    assert(skip_fwd(sig, j as int, ids) == j);
                }
                let cursor = if j < n {
                    match self.diff.hunk_for_change(self.diff.significant_changes[j]) {
                        Some(h2) => h2.id,
                        None => self.state.current_hunk,
                    }
                } else {
                    self.state.current_hunk
                };
                self.state.active_index = j;
                self.state.current_hunk = cursor;
            },
        }
    }

    /// Step one unit backward, clamped at the initial position.
    pub fn step_backward(&mut self)
        requires
            old(self).wf(),
        ensures
            final(self).wf(),
            final(self).diff == old(self).diff,
            final(self).state == backward_target(
                old(self).diff.significant_changes@,
                models_of(old(self).diff.hunks@),
                old(self).state,
            ),
    {
        let n = self.diff.significant_changes.len();
        let ai = self.state.active_index;
        if ai == 0 {
            return ;
        }
        if !self.state.hunk_preview_mode {
            self.state.active_index = ai - 1;
            return ;
        }
        let id = self.diff.significant_changes[ai - 1];
        let ghost sig = self.diff.significant_changes@;
        match self.diff.hunk_for_change(id) {
            None => {
                self.state.active_index = ai - 1;
            },
            Some(h) => {
                let ghost ids = h@.change_ids;
                let mut j = ai - 1;
                while j > 0 && crate::diff::contains_id(
                    &h.change_ids,
                    self.diff.significant_changes[j - 1],
                )
                    invariant
                        j <= ai - 1,
                        ai <= n,
                        n == sig.len(),
                        sig == self.diff.significant_changes@,
                        ids == h@.change_ids,
                        h.change_ids@ == h@.change_ids,
                        skip_back(sig, ai - 1, ids) == skip_back(sig, j as int, ids),
                    decreases j,
                {
                    j = j - 1;
                }
                proof {
                    assert(skip_back(sig, j as int, ids) == j);
                }
                let cursor = if j < n {
                    match self.diff.hunk_for_change(self.diff.significant_changes[j]) {
                        Some(h2) => h2.id,
                        None => self.state.current_hunk,
                    }
                } else {
                    self.state.current_hunk
                };
                self.state.active_index = j;
                self.state.current_hunk = cursor;
            },
        }
    }

    /// The renderable lines at the current position and animation frame.
    pub fn current_view_with_frame(&self, frame: AnimationFrame) -> (r: Vec<ViewLine>)
        ensures
            vl_models(r@) == view_spec(self.diff, self.state, frame),
    {
        let ai = self.state.active_index;
        let n = self.diff.significant_changes.len();
        let act_hunk: Option<usize> = if ai < n {
            hunk_id_for(&self.diff.hunks, self.diff.significant_changes[ai])
        } else {
            None
        };
        let pending = frame.in_transition();
        let mut out: Vec<ViewLine> = Vec::new();
        let mut k: usize = 0;
        let mut i: usize = 0;
        let m = self.diff.changes.len();
        proof {
            assert(self.diff.changes@.skip(0) =~= self.diff.changes@);
            assert(vl_models(out@) =~= Seq::<ViewLineModel>::empty());
            assert(vl_models(out@) + view_spec(self.diff, self.state, frame) =~= view_spec(
                self.diff,
                self.state,
                frame,
            ));
        }
        while i < m
            invariant
                i <= m,
                k <= i,
                m == self.diff.changes@.len(),
                ai == self.state.active_index,
                act_hunk == active_hunk(self.diff, self.state),
                pending == frame.in_transition_spec(),
                vl_models(out@) + view_rec(
                    self.diff.changes@.skip(i as int),
                    models_of(self.diff.hunks@),
                    self.state.active_index as int,
                    act_hunk,
                    pending,
                    k as int,
                ) == view_spec(self.diff, self.state, frame),
            decreases m - i,
        {
            proof {
                assert(self.diff.changes@.skip(i as int)[0] == self.diff.changes@[i as int]);
                assert(self.diff.changes@.skip(i as int).drop_first() =~= self.diff.changes@.skip(
                    i + 1,
                ));
            }
            let c = &self.diff.changes[i];
            let ghost hm = models_of(self.diff.hunks@);
            let ghost aii = self.state.active_index as int;
            let ghost k2: int = if c.has_changes_spec() {
                k + 1
            } else {
                k as int
            };
            let ghost rest = view_rec(
                self.diff.changes@.skip(i + 1),
                hm,
                aii,
                act_hunk,
                pending,
                k2,
            );
            proof {
                let sfx = self.diff.changes@.skip(i as int);
                assert(sfx.len() > 0);
                assert(view_rec(sfx, hm, aii, act_hunk, pending, k as int) == (match line_for(
                    sfx[0],
                    hm,
                    aii,
                    act_hunk,
                    pending,
                    k as int,
                ) {
                    Some(l) => seq![l],
                    None => Seq::<ViewLineModel>::empty(),
                }) + view_rec(
                    sfx.drop_first(),
                    hm,
                    aii,
                    act_hunk,
                    pending,
                    if sfx[0].has_changes_spec() {
                        k + 1
                    } else {
                        k as int
                    },
                ));
                assert(view_rec(sfx.drop_first(), hm, aii, act_hunk, pending, k2) == rest);
            }
            let line = line_for_exec(c, &self.diff.hunks, ai, act_hunk, pending, k);
            let ghost prev = out@;
            match line {
                Some(l) => {
                    proof {
                        assert(line_for(*c, hm, aii, act_hunk, pending, k as int) == Some(l@));
                    }
                    let ghost lm = l@;
                    out.push(l);
                    proof {
                        assert(vl_models(out@) =~= vl_models(prev) + seq![out@.last()@]);
                        assert(out@.last()@ == lm);
                        assert(self.diff.changes@.skip(i as int)[0] == *c);
                        assert(line_for(self.diff.changes@.skip(i as int)[0], hm, aii, act_hunk,
                            pending, k as int) == Some(out@.last()@));
                        assert(view_rec(self.diff.changes@.skip(i as int), hm, aii, act_hunk,
                            pending, k as int) == seq![out@.last()@] + rest);
                        assert((vl_models(prev) + seq![out@.last()@]) + rest =~= vl_models(prev)
                            + (seq![out@.last()@] + rest));
                    }
                },
                None => {
                    proof {
                        assert(view_rec(self.diff.changes@.skip(i as int), hm, aii, act_hunk,
                            pending, k as int) == Seq::<ViewLineModel>::empty() + rest);
                        assert(Seq::<ViewLineModel>::empty() + rest =~= rest);
                    }
                },
            }
            if c.has_changes() {
                k = k + 1;
            }
            i = i + 1;
            proof {
                assert(vl_models(out@) + view_rec(
                    self.diff.changes@.skip(i as int),
                    hm,
                    aii,
                    act_hunk,
                    pending,
                    k as int,
                ) == view_spec(self.diff, self.state, frame));
            }
        }
        proof {
            assert(self.diff.changes@.skip(m as int) =~= Seq::<Change>::empty());
            assert(vl_models(out@) + Seq::<ViewLineModel>::empty() =~= vl_models(out@));
        }
        out
    }

    /// The renderable lines at the current position, with no transition
    /// running.
    pub fn current_view(&self) -> (r: Vec<ViewLine>)
        ensures
            vl_models(r@) == view_spec(self.diff, self.state, idle_frame()),
    {
        let frame = AnimationFrame::idle();
        self.current_view_with_frame(frame)
    }
}

/// How many lines of a view are marked primary-active.
pub open spec fn primary_count(ls: Seq<ViewLineModel>) -> int
    decreases ls.len(),
{
    if ls.len() == 0 {
        0
    } else {
        (if ls[0].is_primary_active {
            1int
        } else {
            0int
        }) + primary_count(ls.drop_first())
    }
}

/// How many changes hold an actual modification.
pub open spec fn count_sig(changes: Seq<Change>) -> int
    decreases changes.len(),
{
    if changes.len() == 0 {
        0
    } else {
        (if changes[0].has_changes_spec() {
            1int
        } else {
            0int
        }) + count_sig(changes.drop_first())
    }
}

proof fn lemma_count_sig_nonneg(changes: Seq<Change>)
    ensures
        count_sig(changes) >= 0,
    decreases changes.len(),
{
    if changes.len() > 0 {
        lemma_count_sig_nonneg(changes.drop_first());
    }
}

proof fn lemma_count_sig_push(changes: Seq<Change>, c: Change)
    ensures
        count_sig(changes.push(c)) == count_sig(changes) + if c.has_changes_spec() {
            1int
        } else {
            0int
        },
    decreases changes.len(),
{
    if changes.len() == 0 {
        assert(changes.push(c)[0] == c);
        assert(changes.push(c).drop_first() =~= Seq::<Change>::empty());
        assert(count_sig(Seq::<Change>::empty()) == 0);
    } else {
        assert(changes.push(c)[0] == changes[0]);
        assert(changes.push(c).drop_first() =~= changes.drop_first().push(c));
        lemma_count_sig_push(changes.drop_first(), c);
    }
}

/// The significant id list is as long as the count of changes with a
/// modification.
pub proof fn lemma_sig_ids_len(changes: Seq<Change>)
    ensures
        sig_ids(changes).len() == count_sig(changes),
    decreases changes.len(),
{
    if changes.len() > 0 {
        lemma_sig_ids_len(changes.drop_last());
        lemma_count_sig_push(changes.drop_last(), changes.last());
        assert(changes.drop_last().push(changes.last()) =~= changes);
    }
}

proof fn lemma_view_rec_primary(
    changes: Seq<Change>,
    hunks: Seq<HunkModel>,
    ai: int,
    ah: Option<usize>,
    pending: bool,
    k: int,
)
    ensures
        primary_count(view_rec(changes, hunks, ai, ah, pending, k)) == if k <= ai < k + count_sig(
            changes,
        ) {
            1int
        } else {
            0int
        },
    decreases changes.len(),
{
    if changes.len() == 0 {
        assert(view_rec(changes, hunks, ai, ah, pending, k) =~= Seq::<ViewLineModel>::empty());
        assert(primary_count(Seq::<ViewLineModel>::empty()) == 0);
    } else {
        let c = changes[0];
        let k2: int = if c.has_changes_spec() {
            k + 1
        } else {
            k
        };
        lemma_view_rec_primary(changes.drop_first(), hunks, ai, ah, pending, k2);
        lemma_count_sig_nonneg(changes.drop_first());
        let rest = view_rec(changes.drop_first(), hunks, ai, ah, pending, k2);
        assert(count_sig(changes) == (if c.has_changes_spec() {
            1int
        } else {
            0int
        }) + count_sig(changes.drop_first()));
        match line_for(c, hunks, ai, ah, pending, k) {
            Some(l) => {
                assert(l.is_primary_active == (c.has_changes_spec() && k == ai));
                assert(view_rec(changes, hunks, ai, ah, pending, k) == seq![l] + rest);
                assert((seq![l] + rest)[0] == l);
                assert((seq![l] + rest).drop_first() =~= rest);
                assert(primary_count(seq![l] + rest) == (if l.is_primary_active {
                    1int
                } else {
                    0int
                }) + primary_count(rest));
            },
            None => {
                assert(c.has_changes_spec() ==> k != ai);
                assert(view_rec(changes, hunks, ai, ah, pending, k)
                    == Seq::<ViewLineModel>::empty() + rest);
                assert(Seq::<ViewLineModel>::empty() + rest =~= rest);
            },
        }
    }
}

/// One cursor row per step: at a non-terminal position the view marks
/// exactly one line primary-active; at the terminal position, where no
/// change is active, none.
pub proof fn lemma_one_primary_active(d: DiffResult, s: StepState, f: AnimationFrame)
    requires
        d.wf(),
    ensures
        primary_count(view_spec(d, s, f)) == if s.active_index < d.significant_changes@.len() {
            1int
        } else {
            0int
        },
{
    lemma_sig_ids_len(d.changes@);
    lemma_view_rec_primary(
        d.changes@,
        models_of(d.hunks@),
        s.active_index as int,
        active_hunk(d, s),
        f.in_transition_spec(),
        0,
    );
}

/// The position after `k` forward steps.
pub open spec fn fwd_steps(sig: Seq<usize>, hunks: Seq<HunkModel>, s: StepState, k: nat) -> StepState
    decreases k,
{
    if k == 0 {
        s
    } else {
        fwd_steps(sig, hunks, forward_target(sig, hunks, s), (k - 1) as nat)
    }
}

proof fn lemma_fwd_steps_plain(sig: Seq<usize>, hunks: Seq<HunkModel>, s: StepState, k: nat)
    requires
        !s.hunk_preview_mode,
        s.active_index <= sig.len() <= usize::MAX,
    ensures
        ({
            let r = fwd_steps(sig, hunks, s, k);
            &&& r.active_index == if s.active_index + k <= sig.len() {
                s.active_index + k
            } else {
                sig.len() as int
            }
            &&& r.hunk_preview_mode == s.hunk_preview_mode
            &&& r.current_hunk == s.current_hunk
        }),
    decreases k,
{
    if k > 0 {
        lemma_fwd_steps_plain(sig, hunks, forward_target(sig, hunks, s), (k - 1) as nat);
    }
}

/// Stepping bounds: from the initial position, exactly one forward step
/// per significant change reaches the terminal position; one further
/// forward step changes nothing; a backward step at the initial position
/// changes nothing.
pub proof fn lemma_stepping_bounds(sig: Seq<usize>, hunks: Seq<HunkModel>, s0: StepState)
    requires
        s0.active_index == 0,
        !s0.hunk_preview_mode,
        sig.len() <= usize::MAX,
    ensures
        fwd_steps(sig, hunks, s0, sig.len()).active_index == sig.len(),
        forward_target(sig, hunks, fwd_steps(sig, hunks, s0, sig.len())) == fwd_steps(
            sig,
            hunks,
            s0,
            sig.len(),
        ),
        backward_target(sig, hunks, s0) == s0,
{
    lemma_fwd_steps_plain(sig, hunks, s0, sig.len());
}

} // verus!
