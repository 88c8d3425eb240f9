//! Version-control record parsing and the types a version-control
//! collaborator hands the tool.
//!
//! The transport is line oriented: each record reads `status<TAB>path`,
//! where `status` begins with one of `M`, `A`, `D`, `R`; a renamed file
//! additionally carries its old path when the record holds at least three
//! tab-separated fields. Fetching the records themselves is I/O and stays
//! outside this library.

use vstd::prelude::*;
use vstd::string::StrSliceExecFns;
use vstd::string::StringExecFns;
use crate::token::whitespace;

verus! {

/// Errors of the version-control collaborator.
#[derive(Debug)]
pub enum GitError {
    /// The directory is not a repository.
    NotARepo,
    /// The external tool ran and failed; carries its diagnostic text.
    CommandFailed(String),
    /// The external tool could not be launched; carries the I/O
    /// diagnostic.
    Io(String),
}

/// What an error's rendered message reads.
pub open spec fn git_error_message(e: GitError) -> Seq<char> {
    match e {
        GitError::NotARepo => "Not a git repository"@,
        GitError::CommandFailed(s) => "Git command failed: "@ + s@,
        GitError::Io(s) => "IO error: "@ + s@,
    }
}

impl GitError {
    /// Render the error as a message line.
    pub fn message(&self) -> (r: String)
        ensures
            r@ == git_error_message(*self),
    {
        match self {
            GitError::NotARepo => String::from_str("Not a git repository"),
            GitError::CommandFailed(s) => String::from_str("Git command failed: ").concat(
                s.as_str(),
            ),
            GitError::Io(s) => String::from_str("IO error: ").concat(s.as_str()),
        }
    }
}

/// Status of a file in version control.
#[derive(Debug, Clone, Copy, PartialEq, Eq, Structural)]
pub enum FileStatus {
    Modified,
    Added,
    Deleted,
    Renamed,
    Untracked,
}

/// A changed file, as one record of the transport reports it.
#[derive(Debug)]
pub struct ChangedFile {
    /// Path of the file, relative to the repository root.
    pub path: String,
    /// The reported status.
    pub status: FileStatus,
    /// For renamed files, the original path.
    pub old_path: Option<String>,
}

/// The mathematical value of a changed-file record.
pub struct ChangedFileModel {
    pub path: Seq<char>,
    pub status: FileStatus,
    pub old_path: Option<Seq<char>>,
}

impl View for ChangedFile {
    type V = ChangedFileModel;

    open spec fn view(&self) -> ChangedFileModel {
        ChangedFileModel {
            path: self.path@,
            status: self.status,
            old_path: match self.old_path {
                Some(p) => Some(p@),
                None => None,
            },
        }
    }
}

impl Clone for ChangedFile {
    fn clone(&self) -> (r: Self)
        ensures
            r@ == self@,
    {
        ChangedFile {
            path: self.path.clone(),
            status: self.status,
            old_path: match &self.old_path {
                Some(p) => Some(p.clone()),
                None => None,
            },
        }
    }
}

/// The models of a sequence of changed files.
pub open spec fn cf_models(cs: Seq<ChangedFile>) -> Seq<ChangedFileModel> {
    cs.map_values(|c: ChangedFile| c@)
}

/// The status a record's first character announces, if any.
pub open spec fn status_of(c: char) -> Option<FileStatus> {
    if c == 'M' {
        Some(FileStatus::Modified)
    } else if c == 'A' {
        Some(FileStatus::Added)
    } else if c == 'D' {
        Some(FileStatus::Deleted)
    } else if c == 'R' {
        Some(FileStatus::Renamed)
    } else {
        None
    }
}

/// `s` without leading whitespace.
pub open spec fn trim_front(s: Seq<char>) -> Seq<char>
    decreases s.len(),
{
    if s.len() > 0 && whitespace(s[0]) {
        trim_front(s.drop_first())
    } else {
        s
    }
}

/// `s` without trailing whitespace.
pub open spec fn trim_back(s: Seq<char>) -> Seq<char>
    decreases s.len(),
{
    if s.len() > 0 && whitespace(s.last()) {
        trim_back(s.drop_last())
    } else {
        s
    }
}

/// `s` without leading or trailing whitespace.
pub open spec fn trim_ws(s: Seq<char>) -> Seq<char> {
    trim_back(trim_front(s))
}

/// Index of the first tab of `t`; `t.len()` when there is none.
pub open spec fn first_tab(t: Seq<char>) -> int
    decreases t.len(),
{
    if t.len() == 0 {
        0
    } else if t[0] == '\t' {
        0
    } else {
        1 + first_tab(t.drop_first())
    }
}

/// Index of the last tab of `t`; `-1` when there is none.
pub open spec fn last_tab(t: Seq<char>) -> int
    decreases t.len(),
{
    if t.len() == 0 {
        -1
    } else if t.last() == '\t' {
        t.len() - 1
    } else {
        last_tab(t.drop_last())
    }
}

/// Parse one record line. The line is trimmed; an empty line, a line
/// whose first field is empty or announces no known status, and a line
/// with a single field all yield nothing. Otherwise the path is the text
/// after the last tab, and a renamed record with at least three fields
/// carries the second field as the old path.
pub open spec fn parse_line(line: Seq<char>) -> Option<ChangedFileModel> {
    let t = trim_ws(line);
    if t.len() == 0 {
        None
    } else {
        let ft = first_tab(t);
        if ft == 0 {
            None
        } else {
            match status_of(t[0]) {
                None => None,
                Some(status) => if ft >= t.len() {
                    None
                } else {
                    let rem = t.skip(ft + 1);
                    Some(
                        (ChangedFileModel {
                            path: t.skip(last_tab(t) + 1),
                            status,
                            old_path: if status == FileStatus::Renamed && first_tab(rem)
                                < rem.len() {
                                Some(t.subrange(ft + 1, ft + 1 + first_tab(rem)))
                            } else {
                                None
                            },
                        }),
                    )
                },
            }
        }
    }
}

/// The record of one parsed line, as zero or one models.
pub open spec fn line_models(line: Seq<char>) -> Seq<ChangedFileModel> {
    match parse_line(line) {
        Some(m) => seq![m],
        None => Seq::empty(),
    }
}

/// The records of `s`, accumulated left to right; `cur` is the current
/// line read so far. Lines split at `'\n'`.
pub open spec fn parsed_rec(s: Seq<char>, cur: Seq<char>) -> Seq<ChangedFileModel>
    decreases s.len(),
{
    if s.len() == 0 {
        line_models(cur)
    } else if s[0] == '\n' {
        line_models(cur) + parsed_rec(s.skip(1), Seq::empty())
    } else {
        parsed_rec(s.skip(1), cur.push(s[0]))
    }
}

/// Every changed-file record of a status listing.
pub open spec fn parsed(s: Seq<char>) -> Seq<ChangedFileModel> {
    parsed_rec(s, Seq::empty())
}

/// Parse the record on `output[start..end]`, if it holds one.
fn parse_one_line(output: &str, start: usize, end: usize) -> (r: Option<ChangedFile>)
    requires
        start <= end <= output@.len(),
    ensures
        match r {
            Some(cf) => parse_line(output@.subrange(start as int, end as int)) == Some(cf@),
            None => parse_line(output@.subrange(start as int, end as int)) is None,
        },
{
    let ghost line = output@.subrange(start as int, end as int);
    let mut a = start;
    while a < end && output.get_char(a).is_whitespace()
        invariant
            start <= a <= end <= output@.len(),
            trim_front(line) == trim_front(output@.subrange(a as int, end as int)),
        decreases end - a,
    {
        proof {
            assert(output@.subrange(a as int, end as int).drop_first() =~= output@.subrange(
                a + 1,
                end as int,
            ));
        }
        a = a + 1;
    }
    proof {
        assert(trim_front(output@.subrange(a as int, end as int)) == output@.subrange(
            a as int,
            end as int,
        ));
    }
    let mut b = end;
    while b > a && output.get_char(b - 1).is_whitespace()
        invariant
            a <= b <= end <= output@.len(),
            trim_back(output@.subrange(a as int, end as int)) == trim_back(
                output@.subrange(a as int, b as int),
            ),
        decreases b,
    {
        proof {
            assert(output@.subrange(a as int, b as int).drop_last() =~= output@.subrange(
                a as int,
                b - 1,
            ));
        }
        b = b - 1;
    }
    proof {
        assert(trim_back(output@.subrange(a as int, b as int)) == output@.subrange(
            a as int,
            b as int,
        ));
        assert(trim_ws(line) == output@.subrange(a as int, b as int));
    }
    let ghost t = output@.subrange(a as int, b as int);
    if a == b {
        return None;
    }
    let mut ft = a;
    while ft < b && output.get_char(ft) != '\t'
        invariant
            a <= ft <= b <= output@.len(),
            first_tab(t) == ft - a + first_tab(output@.subrange(ft as int, b as int)),
        decreases b - ft,
    {
        proof {
            assert(output@.subrange(ft as int, b as int).drop_first() =~= output@.subrange(
                ft + 1,
                b as int,
            ));
        }
        ft = ft + 1;
    }
    proof {
        if ft < b {
            assert(first_tab(output@.subrange(ft as int, b as int)) == 0);
        } else {
            assert(first_tab(t) == t.len()) by {
                assert(output@.subrange(ft as int, b as int).len() == 0);
            }
        }
    }
    if ft == a {
        return None;
    }
    let c0 = output.get_char(a);
    proof {
        assert(c0 == t[0]);
    }
    let status: FileStatus = if c0 == 'M' {
        FileStatus::Modified
    } else if c0 == 'A' {
        FileStatus::Added
    } else if c0 == 'D' {
        FileStatus::Deleted
    } else if c0 == 'R' {
        FileStatus::Renamed
    } else {
        return None;
    };
    if ft == b {
        return None;
    }
    let mut lt = b - 1;
    while output.get_char(lt) != '\t'
        invariant
            ft <= lt <= b - 1,
            b <= output@.len(),
            a <= ft < b,
            output@[ft as int] == '\t',
            last_tab(t) == last_tab(output@.subrange(a as int, lt + 1)) ,
        decreases lt,
    {
        proof {
            assert(output@.subrange(a as int, lt + 1).last() == output@[lt as int]);
            assert(output@.subrange(a as int, lt + 1).drop_last() =~= output@.subrange(
                a as int,
                lt as int,
            ));
            assert(lt != ft);
        }
        lt = lt - 1;
    }
    proof {
        assert(output@.subrange(a as int, lt + 1).last() == output@[lt as int]);
        assert(last_tab(output@.subrange(a as int, lt + 1)) == lt - a);
        assert(t.skip(last_tab(t) + 1) =~= output@.subrange(lt + 1, b as int));
    }
    let path = output.substring_char(lt + 1, b).to_owned();
    let old_path: Option<String> = match status {
        FileStatus::Renamed => {
            let ghost rem = t.skip(ft - a + 1);
            proof {
                assert(rem =~= output@.subrange(ft + 1, b as int));
            }
            let mut st = ft + 1;
            while st < b && output.get_char(st) != '\t'
                invariant
                    ft + 1 <= st <= b <= output@.len(),
                    first_tab(rem) == st - (ft + 1) + first_tab(
                        output@.subrange(st as int, b as int),
                    ),
                    rem == output@.subrange(ft + 1, b as int),
                decreases b - st,
            {
                proof {
                    assert(output@.subrange(st as int, b as int).drop_first() =~= output@.subrange(
                        st + 1,
                        b as int,
                    ));
                }
                st = st + 1;
            }
            if st < b {
                proof {
                    assert(first_tab(output@.subrange(st as int, b as int)) == 0);
                    assert(first_tab(rem) == st - (ft + 1));
                    assert(first_tab(rem) < rem.len());
                    assert(t.subrange(
                        first_tab(t) + 1,
                        first_tab(t) + 1 + first_tab(rem),
                    ) =~= output@.subrange(ft + 1, st as int));
                }
                Some(output.substring_char(ft + 1, st).to_owned())
            } else {
                proof {
                    assert(output@.subrange(st as int, b as int).len() == 0);
                    assert(first_tab(rem) == rem.len());
                }
                None
            }
        },
        _ => None,
    };
    Some(ChangedFile { path, status, old_path })
}

/// Parse a `status<TAB>path` listing, appending one record per
/// well-formed line to `changes`.
pub fn parse_name_status(output: &str, changes: &mut Vec<ChangedFile>)
    ensures
        cf_models(final(changes)@) == cf_models(old(changes)@) + parsed(output@),
{
    let ghost changes0 = changes@;
    let n = output.unicode_len();
    let mut line_start: usize = 0;
    let mut i: usize = 0;
    proof {
        assert(output@.skip(0) =~= output@);
        assert(output@.subrange(0, 0) =~= Seq::<char>::empty());
        assert(cf_models(changes0) + parsed(output@) =~= cf_models(changes0) + parsed_rec(
            output@.skip(0),
            output@.subrange(0, 0),
        ));
    }
    while i < n
        invariant
            line_start <= i <= n,
            n == output@.len(),
            cf_models(changes@) + parsed_rec(
                output@.skip(i as int),
                output@.subrange(line_start as int, i as int),
            ) == cf_models(changes0) + parsed(output@),
        decreases n - i,
    {
        let ghost cur = output@.subrange(line_start as int, i as int);
        let ghost rest = output@.skip(i as int);
        proof {
            assert(rest[0] == output@[i as int]);
            assert(rest.skip(1) =~= output@.skip(i + 1));
        }
        let c = output.get_char(i);
        if c == '\n' {
            match parse_one_line(output, line_start, i) {
                Some(cf) => {
                    let ghost prev = changes@;
                    changes.push(cf);
                    proof {
                        assert(cf_models(changes@) =~= cf_models(prev).push(changes@.last()@));
                        assert(cf_models(prev) + (line_models(cur) + parsed_rec(
                            output@.skip(i + 1),
                            Seq::empty(),
                        )) =~= cf_models(changes@) + parsed_rec(output@.skip(i + 1), Seq::empty()));
                    }
                },
                None => {
                    proof {
                        assert(line_models(cur) =~= Seq::<ChangedFileModel>::empty());
                        assert(cf_models(changes@) + (line_models(cur) + parsed_rec(
                            output@.skip(i + 1),
                            Seq::empty(),
                        )) =~= cf_models(changes@) + parsed_rec(output@.skip(i + 1), Seq::empty()));
                    }
                },
            }
            line_start = i + 1;
            proof {
                assert(output@.subrange(line_start as int, i + 1) =~= Seq::<char>::empty());
            }
        } else {
            proof {
                assert(cur.push(c) =~= output@.subrange(line_start as int, i + 1));
            }
        }
        i = i + 1;
    }
    proof {
        assert(output@.skip(n as int) =~= Seq::<char>::empty());
    }
    match parse_one_line(output, line_start, n) {
        Some(cf) => {
            let ghost prev = changes@;
            changes.push(cf);
            proof {
                let ghost cur = output@.subrange(line_start as int, n as int);
                assert(cf_models(changes@) =~= cf_models(prev).push(changes@.last()@));
                assert(cf_models(prev) + line_models(cur) =~= cf_models(changes@));
            }
        },
        None => {
            proof {
                let ghost cur = output@.subrange(line_start as int, n as int);
                assert(line_models(cur) =~= Seq::<ChangedFileModel>::empty());
                assert(cf_models(changes@) + line_models(cur) =~= cf_models(changes@));
            }
        },
    }
}

} // verus!
