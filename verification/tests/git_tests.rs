use oyo_core::{ChangedFile, FileStatus, GitError};
use oyo_core::git::parse_name_status;

#[test]
fn test_parse_name_status() {
    let output = "M\tsrc/main.rs\nA\tsrc/new.rs\nD\tsrc/old.rs\n";
    let mut changes = Vec::new();
    parse_name_status(output, &mut changes);

    assert_eq!(changes.len(), 3);
    assert_eq!(changes[0].status, FileStatus::Modified);
    assert_eq!(changes[1].status, FileStatus::Added);
    assert_eq!(changes[2].status, FileStatus::Deleted);
}

#[test]
fn test_parse_name_status_paths() {
    let output = "M\tsrc/lib.rs\n";
    let mut changes = Vec::new();
    parse_name_status(output, &mut changes);

    assert_eq!(changes.len(), 1);
    assert_eq!(changes[0].path, "src/lib.rs");
    assert_eq!(changes[0].old_path, None);
}

#[test]
fn test_parse_name_status_rename_with_old_path() {
    let output = "R100\told/name.rs\tnew/name.rs\n";
    let mut changes = Vec::new();
    parse_name_status(output, &mut changes);

    assert_eq!(changes.len(), 1);
    assert_eq!(changes[0].status, FileStatus::Renamed);
    assert_eq!(changes[0].path, "new/name.rs");
    assert_eq!(changes[0].old_path.as_deref(), Some("old/name.rs"));
}

#[test]
fn test_parse_name_status_rename_without_old_path() {
    let output = "R\tdest.rs\n";
    let mut changes = Vec::new();
    parse_name_status(output, &mut changes);

    assert_eq!(changes.len(), 1);
    assert_eq!(changes[0].status, FileStatus::Renamed);
    assert_eq!(changes[0].path, "dest.rs");
    assert_eq!(changes[0].old_path, None);
}

#[test]
fn test_parse_name_status_skips_malformed_lines() {
    // An unknown status, a status with no path, and blank lines all drop.
    let output = "X\tignored.rs\nM\n\n   \nA\tkept.rs";
    let mut changes = Vec::new();
    parse_name_status(output, &mut changes);

    assert_eq!(changes.len(), 1);
    assert_eq!(changes[0].status, FileStatus::Added);
    assert_eq!(changes[0].path, "kept.rs");
}

#[test]
fn test_parse_name_status_appends() {
    let mut changes = vec![ChangedFile {
        path: String::from("seed.rs"),
        status: FileStatus::Untracked,
        old_path: None,
    }];
    parse_name_status("M\tmore.rs\n", &mut changes);

    assert_eq!(changes.len(), 2);
    assert_eq!(changes[0].path, "seed.rs");
    assert_eq!(changes[1].path, "more.rs");
}

#[test]
fn test_parse_name_status_trims_whitespace() {
    let output = "  M\tpadded.rs  \n";
    let mut changes = Vec::new();
    parse_name_status(output, &mut changes);

    assert_eq!(changes.len(), 1);
    assert_eq!(changes[0].status, FileStatus::Modified);
    assert_eq!(changes[0].path, "padded.rs");
}

#[test]
fn test_git_error_messages() {
    assert_eq!(GitError::NotARepo.message(), "Not a git repository");
    assert_eq!(
        GitError::CommandFailed(String::from("fatal: oops")).message(),
        "Git command failed: fatal: oops"
    );
    assert_eq!(
        GitError::Io(String::from("spawn failed")).message(),
        "IO error: spawn failed"
    );
}
