use oyo_core::{
    AnimationFrame, DiffEngine, DiffNavigator, FileDiff, LineKind, MultiFileDiff, ViewSpanKind,
};
use oyo_core::multi::FileEntry;

fn navigator(old: &str, new: &str) -> DiffNavigator {
    let engine = DiffEngine::new();
    DiffNavigator::new(engine.diff_strings(old, new))
}

#[test]
fn test_stepping_bounds() {
    let mut nav = navigator("a\nb\nc\nd", "a\nX\nc\nY");
    let total = nav.total_steps();
    assert!(total > 0);
    assert_eq!(nav.state().active_index, 0);

    // A backward step at the start is a no-op.
    nav.step_backward();
    assert_eq!(nav.state().active_index, 0);

    // Exactly one forward step per significant change reaches the end.
    for i in 0..total {
        assert_eq!(nav.state().active_index, i);
        nav.step_forward();
    }
    assert_eq!(nav.state().active_index, total);

    // One further forward step is a no-op.
    nav.step_forward();
    assert_eq!(nav.state().active_index, total);
}

#[test]
fn test_hunk_preview_steps_whole_hunks() {
    // Two hunks: changes on old lines 1 and 2 group; line 9 stands alone.
    let old = "a\nb\nc\nd\ne\nf\ng\nh\ni";
    let new = "A\nB\nc\nd\ne\nf\ng\nh\nI";
    let mut nav = navigator(old, new);
    assert_eq!(nav.total_steps(), 3);
    assert_eq!(nav.diff().hunks.len(), 2);

    nav.set_hunk_preview_mode(true);
    nav.step_forward();
    assert_eq!(nav.state().active_index, 2);
    assert_eq!(nav.state().current_hunk, 1);
    nav.step_forward();
    assert_eq!(nav.state().active_index, 3);

    nav.step_backward();
    assert_eq!(nav.state().active_index, 2);
    nav.step_backward();
    assert_eq!(nav.state().active_index, 0);
    nav.step_backward();
    assert_eq!(nav.state().active_index, 0);
}

#[test]
fn test_view_at_start_shows_old_document() {
    let mut nav = navigator("keep\ngone\nkeep2\n", "keep\nkeep2\nadded\n");
    let view = nav.current_view();

    // At position 0 every line renders old-side text; the insertion is
    // not active here, so it does not exist yet.
    let texts: Vec<String> = view
        .iter()
        .map(|l| l.spans.iter().map(|s| s.text.as_str()).collect::<String>())
        .collect();
    assert!(texts.contains(&String::from("keep")));
    assert!(texts.contains(&String::from("gone")));
    assert!(texts.contains(&String::from("keep2")));

    // Exactly one primary-active row at a non-terminal position.
    assert_eq!(view.iter().filter(|l| l.is_primary_active).count(), 1);

    // Walk to the end: the view now shows the new document.
    let total = nav.total_steps();
    for _ in 0..total {
        nav.step_forward();
    }
    let view = nav.current_view();
    let texts: Vec<String> = view
        .iter()
        .map(|l| l.spans.iter().map(|s| s.text.as_str()).collect::<String>())
        .collect();
    assert!(texts.contains(&String::from("added")));
    assert!(!texts.contains(&String::from("gone")));
}

#[test]
fn test_view_kinds_per_position() {
    let mut nav = navigator("a\nold\nz", "a\nnew\nz");
    let view = nav.current_view();

    // The replacement is active at position 0 and renders as modified.
    let kinds: Vec<LineKind> = view.iter().map(|l| l.kind).collect();
    assert_eq!(kinds, vec![LineKind::Context, LineKind::Modified, LineKind::Context]);
    assert!(view[1].is_active);
    assert!(view[1].is_active_change);
    assert!(view[1].has_changes);
    assert!(!view[0].has_changes);
    assert_eq!(view[1].hunk_index, Some(0));
    assert_eq!(view[0].hunk_index, None);

    // Applied, the line stays modified and shows the new text.
    nav.step_forward();
    let view = nav.current_view();
    assert_eq!(view[1].kind, LineKind::Modified);
    assert!(!view[1].is_active);
    let text: String = view[1].spans.iter().map(|s| s.text.as_str()).collect();
    assert_eq!(text, "new");
}

#[test]
fn test_view_pending_kinds_mid_transition() {
    let nav = navigator("a\nold\nz", "a\nnew\nz");
    let frame = AnimationFrame {
        phase: oyo_core::step::AnimationPhase::Stepping,
        progress: 500,
        direction: oyo_core::StepDirection::Forward,
    };
    let view = nav.current_view_with_frame(frame);

    assert_eq!(view[1].kind, LineKind::PendingModify);
    let has_pending_span = view[1]
        .spans
        .iter()
        .any(|s| s.kind == ViewSpanKind::PendingDelete || s.kind == ViewSpanKind::PendingInsert);
    assert!(has_pending_span);

    // At the endpoints of the transition no pending kind remains.
    let settled = nav.current_view_with_frame(AnimationFrame {
        phase: oyo_core::step::AnimationPhase::Stepping,
        progress: 1000,
        direction: oyo_core::StepDirection::Forward,
    });
    assert_eq!(settled[1].kind, LineKind::Modified);
}

#[test]
fn test_view_deleted_line_vanishes_when_applied() {
    let mut nav = navigator("a\ngone\nz", "a\nz");
    let view = nav.current_view();
    assert_eq!(view.len(), 3);
    assert_eq!(view[1].kind, LineKind::Deleted);

    nav.step_forward();
    let view = nav.current_view();
    assert_eq!(view.len(), 2);
    assert_eq!(view[0].kind, LineKind::Context);
    assert_eq!(view[1].kind, LineKind::Context);
}

#[test]
fn test_view_hunk_extent_marks_neighbours() {
    let old = "a\nb\nc";
    let new = "A\nB\nc";
    let nav = navigator(old, new);
    let view = nav.current_view();

    // Both changed rows share hunk zero; the cursor row is the first, the
    // second shows the hunk extent.
    assert!(view[0].is_primary_active);
    assert!(!view[0].show_hunk_extent);
    assert!(!view[1].is_primary_active);
    assert!(view[1].show_hunk_extent);
}

#[test]
fn test_animation_frame_bounds() {
    let idle = AnimationFrame::idle();
    assert!(!idle.in_transition());
    let mid = AnimationFrame { progress: 1, ..idle };
    assert!(mid.in_transition());
    let start = AnimationFrame { progress: 0, ..idle };
    assert!(!start.in_transition());
}

#[test]
fn test_multi_file_diff_composition() {
    let engine = DiffEngine::new();
    let first = FileDiff {
        old_path: Some(String::from("first.txt")),
        new_path: Some(String::from("first.txt")),
        result: engine.diff_strings("a\nb", "a\nc"),
    };
    let second = FileDiff {
        old_path: Some(String::from("second.txt")),
        new_path: Some(String::from("second.txt")),
        result: engine.diff_strings("x", "x\ny"),
    };

    let mut multi = MultiFileDiff::new();
    assert!(multi.is_empty());
    assert!(multi.current().is_none());
    assert!(multi.current_navigator().is_none());

    multi.add_file(first);
    multi.add_file(second);
    assert_eq!(multi.len(), 2);
    assert_eq!(multi.active_index(), 0);

    let entry: &FileEntry = multi.current().expect("an active entry");
    assert_eq!(entry.old_path.as_deref(), Some("first.txt"));

    // Stepping drives only the active document.
    multi.step_forward();
    assert_eq!(multi.current_navigator().unwrap().state().active_index, 1);

    multi.set_active(1);
    assert_eq!(multi.active_index(), 1);
    assert_eq!(multi.current_navigator().unwrap().state().active_index, 0);

    // An index past the end changes nothing.
    multi.set_active(5);
    assert_eq!(multi.active_index(), 1);

    multi.step_forward();
    multi.step_backward();
    assert_eq!(multi.current_navigator().unwrap().state().active_index, 0);
}

#[test]
fn test_view_no_changes_has_no_primary() {
    let nav = navigator("same\nsame2", "same\nsame2");
    assert_eq!(nav.total_steps(), 0);
    let view = nav.current_view();
    assert_eq!(view.len(), 2);
    assert!(view.iter().all(|l| l.kind == LineKind::Context));
    assert_eq!(view.iter().filter(|l| l.is_primary_active).count(), 0);
}
