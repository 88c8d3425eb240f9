use oyo_core::{Change, ChangeKind, ChangeSpan, DiffEngine};
use oyo_core::tokenize_code;

fn old_side_text(result: &oyo_core::DiffResult) -> Vec<String> {
    let mut lines = Vec::new();
    for c in &result.changes {
        let first = match c.spans.first() {
            Some(s) => s,
            None => continue,
        };
        if first.old_line.is_none() {
            continue;
        }
        let mut line = String::new();
        for s in &c.spans {
            if s.kind != ChangeKind::Insert {
                line.push_str(&s.text);
            }
        }
        lines.push(line);
    }
    lines
}

fn new_side_text(result: &oyo_core::DiffResult) -> Vec<String> {
    let mut lines = Vec::new();
    for c in &result.changes {
        let first = match c.spans.first() {
            Some(s) => s,
            None => continue,
        };
        if first.new_line.is_none() {
            continue;
        }
        let mut line = String::new();
        for s in &c.spans {
            match s.kind {
                ChangeKind::Delete => {}
                ChangeKind::Replace => {
                    if let Some(t) = &s.new_text {
                        line.push_str(t);
                    }
                }
                _ => line.push_str(&s.text),
            }
        }
        lines.push(line);
    }
    lines
}

#[test]
fn test_simple_diff() {
    let engine = DiffEngine::new();
    let old = "foo\nbar\nbaz";
    let new = "foo\nqux\nbaz";

    let result = engine.diff_strings(old, new);

    assert_eq!(result.insertions, 1);
    assert_eq!(result.deletions, 1);
    assert!(!result.significant_changes.is_empty());
}

#[test]
fn test_no_changes() {
    let engine = DiffEngine::new();
    let text = "foo\nbar\nbaz";

    let result = engine.diff_strings(text, text);

    assert_eq!(result.insertions, 0);
    assert_eq!(result.deletions, 0);
    assert!(result.significant_changes.is_empty());
}

#[test]
fn test_no_changes_has_no_hunks() {
    let engine = DiffEngine::new();
    let result = engine.diff_strings("foo\nbar\nbaz", "foo\nbar\nbaz");
    assert!(result.hunks.is_empty());
}

#[test]
fn test_word_level_diff() {
    let engine = DiffEngine::new().with_word_level(true);
    let old = "const foo = 4";
    let new = "const bar = 4";

    let result = engine.diff_strings(old, new);

    // Should have a single change with word-level spans
    assert_eq!(result.significant_changes.len(), 1);
}

#[test]
fn test_tokenize_code_basic() {
    let tokens = tokenize_code("KeyModifiers, MouseEventKind}");
    assert_eq!(
        tokens,
        vec!["KeyModifiers", ",", " ", "MouseEventKind", "}"]
    );
}

#[test]
fn test_tokenize_code_identifiers() {
    let tokens = tokenize_code("foo_bar baz123");
    assert_eq!(tokens, vec!["foo_bar", " ", "baz123"]);
}

#[test]
fn test_tokenize_code_punctuation() {
    let tokens = tokenize_code("use foo::{A, B};");
    assert_eq!(
        tokens,
        vec!["use", " ", "foo", ":", ":", "{", "A", ",", " ", "B", "}", ";"]
    );
}

#[test]
fn test_word_diff_punctuation_separation() {
    // This is the exact bug case: adding MouseEventKind to an import list
    let engine = DiffEngine::new().with_word_level(true);
    let old = "use foo::{KeyModifiers};";
    let new = "use foo::{KeyModifiers, MouseEventKind};";

    let result = engine.diff_strings(old, new);

    // Should have one change
    assert_eq!(result.significant_changes.len(), 1);

    let change = &result.changes[result.significant_changes[0]];

    // Find spans by kind
    let equal_content: String = change
        .spans
        .iter()
        .filter(|s| s.kind == ChangeKind::Equal)
        .map(|s| s.text.as_str())
        .collect();
    let insert_content: String = change
        .spans
        .iter()
        .filter(|s| s.kind == ChangeKind::Insert)
        .map(|s| s.text.as_str())
        .collect();

    // KeyModifiers should be in equal spans (unchanged)
    assert!(
        equal_content.contains("KeyModifiers"),
        "KeyModifiers should be equal, got equal: '{}', insert: '{}'",
        equal_content,
        insert_content
    );

    // MouseEventKind should be in insert spans (new)
    assert!(
        insert_content.contains("MouseEventKind"),
        "MouseEventKind should be inserted, got equal: '{}', insert: '{}'",
        equal_content,
        insert_content
    );

    // KeyModifiers should NOT be in insert spans
    assert!(
        !insert_content.contains("KeyModifiers"),
        "KeyModifiers should not be inserted, got insert: '{}'",
        insert_content
    );
}

#[test]
fn test_single_line_replace_makes_one_hunk() {
    let engine = DiffEngine::new();
    let result = engine.diff_strings("foo\nbar\nbaz", "foo\nqux\nbaz");

    assert_eq!(result.significant_changes.len(), 1);
    assert_eq!(result.insertions, 1);
    assert_eq!(result.deletions, 1);
    assert_eq!(result.hunks.len(), 1);
    assert_eq!(result.hunks[0].change_ids, vec![result.significant_changes[0]]);
}

#[test]
fn test_round_trip_reconstructs_both_sides() {
    let engine = DiffEngine::new();
    let old = "alpha\nbravo\ncharlie\ndelta";
    let new = "alpha\nbravo two\nextra\ndelta";

    let result = engine.diff_strings(old, new);

    assert_eq!(old_side_text(&result).join("\n"), old);
    assert_eq!(new_side_text(&result).join("\n"), new);
}

#[test]
fn test_round_trip_unequal_runs() {
    let engine = DiffEngine::new();
    let old = "a\nb\nc\nkeep";
    let new = "x\nkeep";

    let result = engine.diff_strings(old, new);

    assert_eq!(old_side_text(&result).join("\n"), old);
    assert_eq!(new_side_text(&result).join("\n"), new);
}

#[test]
fn test_hunk_boundary_gap_three_merges() {
    let engine = DiffEngine::new();
    // Changes on old lines 1 and 4: the gap is exactly three lines.
    let old = "a\nb\nc\nd\ne";
    let new = "A\nb\nc\nD\ne";

    let result = engine.diff_strings(old, new);

    assert_eq!(result.significant_changes.len(), 2);
    assert_eq!(result.hunks.len(), 1);
}

#[test]
fn test_hunk_boundary_gap_four_splits() {
    let engine = DiffEngine::new();
    // Changes on old lines 1 and 5: the gap is four lines.
    let old = "a\nb\nc\nd\ne";
    let new = "A\nb\nc\nd\nE";

    let result = engine.diff_strings(old, new);

    assert_eq!(result.significant_changes.len(), 2);
    assert_eq!(result.hunks.len(), 2);
}

#[test]
fn test_hunks_partition_significant_changes() {
    let engine = DiffEngine::new();
    let old = "a\nb\nc\nd\ne\nf\ng\nh\ni\nj\nk\nl";
    let new = "A\nb\nc\nd\ne\nF\ng\nh\ni\nj\nK\nl";

    let result = engine.diff_strings(old, new);

    let mut collected = Vec::new();
    for h in &result.hunks {
        collected.extend_from_slice(&h.change_ids);
    }
    assert_eq!(collected, result.significant_changes);
}

#[test]
fn test_word_level_disabled_emits_singles() {
    let engine = DiffEngine::new().with_word_level(false);
    let result = engine.diff_strings("foo\nbar", "foo\nqux");

    // A delete change and an insert change instead of one pairing.
    assert_eq!(result.significant_changes.len(), 2);
    assert_eq!(result.insertions, 1);
    assert_eq!(result.deletions, 1);
    let delete = &result.changes[result.significant_changes[0]];
    let insert = &result.changes[result.significant_changes[1]];
    assert_eq!(delete.spans.len(), 1);
    assert_eq!(delete.spans[0].kind, ChangeKind::Delete);
    assert_eq!(delete.spans[0].text, "bar");
    assert_eq!(insert.spans[0].kind, ChangeKind::Insert);
    assert_eq!(insert.spans[0].text, "qux");
}

#[test]
fn test_line_numbers_on_equal_changes() {
    let engine = DiffEngine::new();
    let result = engine.diff_strings("same\nold", "same\nnew");

    let first = &result.changes[0];
    assert!(!first.has_changes());
    assert_eq!(first.spans[0].old_line, Some(1));
    assert_eq!(first.spans[0].new_line, Some(1));
    let second = &result.changes[result.significant_changes[0]];
    assert!(second.has_changes());
    assert_eq!(second.spans[0].old_line, Some(2));
    assert_eq!(second.spans[0].new_line, Some(2));
}

#[test]
fn test_get_hunk_absent_on_miss() {
    let engine = DiffEngine::new();
    let result = engine.diff_strings("a\nb", "a\nc");

    assert!(result.get_hunk(0).is_some());
    assert!(result.get_hunk(999).is_none());
}

#[test]
fn test_hunk_for_change_absent_on_miss() {
    let engine = DiffEngine::new();
    let result = engine.diff_strings("a\nb", "a\nc");

    let id = result.significant_changes[0];
    let hunk = result.hunk_for_change(id).expect("change belongs to a hunk");
    assert!(hunk.change_ids.contains(&id));
    assert!(result.hunk_for_change(9999).is_none());
}

#[test]
fn test_get_significant_changes_are_ordered() {
    let engine = DiffEngine::new();
    let result = engine.diff_strings("a\nb\nc", "x\nb\ny");

    let sig = result.get_significant_changes();
    assert_eq!(sig.len(), result.significant_changes.len());
    for (c, id) in sig.iter().zip(result.significant_changes.iter()) {
        assert_eq!(c.id, *id);
        assert!(c.has_changes());
    }
}

#[test]
fn test_hunk_len_and_is_empty() {
    let engine = DiffEngine::new();
    let result = engine.diff_strings("a\nb\nc", "A\nB\nc");

    let hunk = &result.hunks[0];
    assert_eq!(hunk.len(), hunk.change_ids.len());
    assert!(!hunk.is_empty());
}

#[test]
fn test_hunk_tallies_count_spans() {
    // With pairing off, the lone delete and the lone insert cannot be
    // compared by line number, so each opens its own hunk.
    let engine = DiffEngine::new().with_word_level(false);
    let result = engine.diff_strings("a\nb", "a\nc");

    assert_eq!(result.hunks.len(), 2);
    assert_eq!(result.hunks[0].deletions, 1);
    assert_eq!(result.hunks[0].insertions, 0);
    assert_eq!(result.hunks[0].old_start, Some(2));
    assert_eq!(result.hunks[0].new_start, None);
    assert_eq!(result.hunks[1].insertions, 1);
    assert_eq!(result.hunks[1].new_start, Some(2));
}

#[test]
fn test_paired_hunk_sticky_starts() {
    let engine = DiffEngine::new();
    let result = engine.diff_strings("a\nb", "a\nc");

    assert_eq!(result.hunks.len(), 1);
    assert_eq!(result.hunks[0].old_start, Some(2));
    assert_eq!(result.hunks[0].new_start, Some(2));
    assert_eq!(result.hunks[0].insertions, 1);
    assert_eq!(result.hunks[0].deletions, 1);
}

#[test]
fn test_diff_error_messages() {
    let read = oyo_core::DiffError::FileRead(String::from("missing"));
    let compute = oyo_core::DiffError::ComputeFailed(String::from("backend"));
    assert!(matches!(read, oyo_core::DiffError::FileRead(_)));
    assert!(matches!(compute, oyo_core::DiffError::ComputeFailed(_)));
}

#[test]
fn test_tokenize_empty_line() {
    let tokens = tokenize_code("");
    assert!(tokens.is_empty());
}

#[test]
fn test_tokenize_round_trip() {
    let line = "let x = foo(bar, 2) + 17;  // done";
    let tokens = tokenize_code(line);
    assert_eq!(tokens.concat(), line);
}

#[test]
fn test_diff_empty_documents() {
    let engine = DiffEngine::new();
    let result = engine.diff_strings("", "");
    assert_eq!(result.insertions, 0);
    assert_eq!(result.deletions, 0);
    assert!(result.significant_changes.is_empty());
    assert!(result.hunks.is_empty());
}

#[test]
fn test_diff_insert_into_empty() {
    let engine = DiffEngine::new();
    let result = engine.diff_strings("", "hello\nworld");
    assert_eq!(result.insertions, 2);
    assert_eq!(result.deletions, 0);
    assert_eq!(new_side_text(&result).join("\n"), "hello\nworld");
}

#[test]
fn test_change_predicates() {
    let equal = ChangeSpan::equal(String::from("ctx"));
    let insert = ChangeSpan::insert(String::from("add"));
    assert!(!equal.is_change());
    assert!(insert.is_change());

    let change = Change::new(0, vec![
        ChangeSpan::equal(String::from("a")),
        ChangeSpan::delete(String::from("b")),
        ChangeSpan::insert(String::from("c")),
    ]);
    assert!(change.has_changes());
    let changed = change.changes();
    assert_eq!(changed.len(), 2);
    assert_eq!(changed[0].kind, ChangeKind::Delete);
    assert_eq!(changed[1].kind, ChangeKind::Insert);

    let quiet = Change::single(1, ChangeSpan::equal(String::from("x")));
    assert!(!quiet.has_changes());
    assert!(quiet.changes().is_empty());
}

#[test]
fn test_change_builders() {
    let span = ChangeSpan::replace(String::from("old"), String::from("new"))
        .with_lines(Some(3), Some(4));
    assert_eq!(span.kind, ChangeKind::Replace);
    assert_eq!(span.text, "old");
    assert_eq!(span.new_text.as_deref(), Some("new"));
    assert_eq!(span.old_line, Some(3));
    assert_eq!(span.new_line, Some(4));

    let change = Change::single(7, span).with_description(String::from("swap"));
    assert_eq!(change.id, 7);
    assert_eq!(change.description.as_deref(), Some("swap"));
}

#[test]
fn test_engine_configuration() {
    let engine = DiffEngine::new();
    assert_eq!(engine.context_lines, 3);
    assert!(engine.word_level);
    let engine = engine.with_context(5).with_word_level(false);
    assert_eq!(engine.context_lines, 5);
    assert!(!engine.word_level);
}

#[test]
fn test_crlf_documents() {
    let engine = DiffEngine::new();
    let result = engine.diff_strings("a\r\nb\r\n", "a\r\nc\r\n");

    assert_eq!(result.significant_changes.len(), 1);
    assert_eq!(result.insertions, 1);
    assert_eq!(result.deletions, 1);
    // Stored text drops the newline but keeps the carriage return.
    assert_eq!(result.changes[0].spans[0].text, "a\r");
}
