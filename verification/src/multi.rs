//! Composition of several document diffs: one navigator per document
//! pair and a cursor over them. The composer holds no diff logic of its
//! own, and switching the active document is driven from outside.

use vstd::prelude::*;
use crate::diff::FileDiff;
use crate::hunks::models_of;
use crate::step::{backward_target, forward_target, DiffNavigator, StepState};

verus! {

/// One document pair under navigation: its provenance and its walk.
#[derive(Debug)]
pub struct FileEntry {
    /// Path of the old document, if known.
    pub old_path: Option<String>,
    /// Path of the new document, if known.
    pub new_path: Option<String>,
    /// The walk over this document pair's diff.
    pub navigator: DiffNavigator,
}

impl FileEntry {
    /// Put one computed file diff under navigation, at the initial
    /// position.
    pub fn new(file: FileDiff) -> (r: Self)
        ensures
            r.old_path == file.old_path,
            r.new_path == file.new_path,
            r.navigator.diff == file.result,
            r.navigator.state == (StepState {
                active_index: 0,
                hunk_preview_mode: false,
                current_hunk: 0,
            }),
            file.result.wf() ==> r.navigator.wf(),
    {
        FileEntry {
            old_path: file.old_path,
            new_path: file.new_path,
            navigator: DiffNavigator::new(file.result),
        }
    }
}

/// An ordered collection of document diffs and the index of the active
/// one.
#[derive(Debug)]
pub struct MultiFileDiff {
    /// The documents under navigation, in order.
    pub entries: Vec<FileEntry>,
    /// Index of the active document; `0` when there is none yet.
    pub active: usize,
}

impl MultiFileDiff {
    /// The cursor stays within the collection and every walk is sound.
    pub open spec fn wf(self) -> bool {
        &&& self.entries@.len() == 0 ==> self.active == 0
        &&& self.entries@.len() > 0 ==> self.active < self.entries@.len()
        &&& forall|i: int|
            0 <= i < self.entries@.len() ==> (#[trigger] self.entries@[i]).navigator.wf()
    }

    /// An empty composition.
    pub fn new() -> (r: Self)
        ensures
            r.entries@.len() == 0,
            r.active == 0,
            r.wf(),
    {
        MultiFileDiff { entries: Vec::new(), active: 0 }
    }

    /// Append one document pair, leaving the active index alone.
    pub fn add_file(&mut self, file: FileDiff)
        requires
            old(self).wf(),
            file.result.wf(),
        ensures
            final(self).wf(),
            final(self).active == old(self).active,
            final(self).entries@.len() == old(self).entries@.len() + 1,
            final(self).entries@.drop_last() == old(self).entries@,
            final(self).entries@.last().old_path == file.old_path,
            final(self).entries@.last().new_path == file.new_path,
            final(self).entries@.last().navigator.diff == file.result,
            final(self).entries@.last().navigator.state == (StepState {
                active_index: 0,
                hunk_preview_mode: false,
                current_hunk: 0,
            }),
    {
        let entry = FileEntry::new(file);
        self.entries.push(entry);
        proof {
            assert(self.entries@.drop_last() =~= old(self).entries@);
        }
    }

    /// How many documents the composition holds.
    pub fn len(&self) -> (r: usize)
        ensures
            r == self.entries@.len(),
    {
        self.entries.len()
    }

    /// Whether the composition holds no document.
    pub fn is_empty(&self) -> (r: bool)
        ensures
            r == (self.entries@.len() == 0),
    {
        self.entries.len() == 0
    }

    /// Index of the active document.
    pub fn active_index(&self) -> (r: usize)
        ensures
            r == self.active,
    {
        self.active
    }

    /// Make the document at `idx` active; an index past the end changes
    /// nothing.
    pub fn set_active(&mut self, idx: usize)
        requires
            old(self).wf(),
        ensures
            final(self).wf(),
            final(self).entries == old(self).entries,
            final(self).active == if idx < old(self).entries@.len() {
                idx
            } else {
                old(self).active
            },
    {
        if idx < self.entries.len() {
            self.active = idx;
        }
    }

    /// The active document pair, absent while the composition is empty.
    pub fn current(&self) -> (r: Option<&FileEntry>)
        ensures
            match r {
                Some(e) => self.active < self.entries@.len() && *e
                    == self.entries@[self.active as int],
                None => self.active >= self.entries@.len(),
            },
    {
        if self.active < self.entries.len() {
            Some(&self.entries[self.active])
        } else {
            None
        }
    }

    /// The active document's navigator, absent while the composition is
    /// empty.
    pub fn current_navigator(&self) -> (r: Option<&DiffNavigator>)
        ensures
            match r {
                Some(n) => self.active < self.entries@.len() && *n
                    == self.entries@[self.active as int].navigator,
                None => self.active >= self.entries@.len(),
            },
    {
        if self.active < self.entries.len() {
            Some(&self.entries[self.active].navigator)
        } else {
            None
        }
    }

    /// Step the active document's walk one unit forward; with no
    /// document, nothing changes.
    pub fn step_forward(&mut self)
        requires
            old(self).wf(),
        ensures
            final(self).wf(),
            final(self).active == old(self).active,
            final(self).entries@.len() == old(self).entries@.len(),
            old(self).entries@.len() == 0 ==> final(self).entries@ == old(self).entries@,
            old(self).entries@.len() > 0 ==> ({
                let e = old(self).entries@[old(self).active as int];
                final(self).entries@ == old(self).entries@.update(
                    old(self).active as int,
                    (FileEntry {
                        old_path: e.old_path,
                        new_path: e.new_path,
                        navigator: (DiffNavigator {
                            diff: e.navigator.diff,
                            state: forward_target(
                                e.navigator.diff.significant_changes@,
                                models_of(e.navigator.diff.hunks@),
                                e.navigator.state,
                            ),
                        }),
                    }),
                )
            }),
    {
        if self.active < self.entries.len() {
            let idx = self.active;
            let entry = &mut self.entries[idx];
            entry.navigator.step_forward();
            proof {
                assert(self.entries@ =~= old(self).entries@.update(
                    old(self).active as int,
                    self.entries@[old(self).active as int],
                ));
            }
        }
    }

    /// Step the active document's walk one unit backward; with no
    /// document, nothing changes.
    pub fn step_backward(&mut self)
        requires
            old(self).wf(),
        ensures
            final(self).wf(),
            final(self).active == old(self).active,
            final(self).entries@.len() == old(self).entries@.len(),
            old(self).entries@.len() == 0 ==> final(self).entries@ == old(self).entries@,
            old(self).entries@.len() > 0 ==> ({
                let e = old(self).entries@[old(self).active as int];
                final(self).entries@ == old(self).entries@.update(
                    old(self).active as int,
                    (FileEntry {
                        old_path: e.old_path,
                        new_path: e.new_path,
                        navigator: (DiffNavigator {
                            diff: e.navigator.diff,
                            state: backward_target(
                                e.navigator.diff.significant_changes@,
                                models_of(e.navigator.diff.hunks@),
                                e.navigator.state,
                            ),
                        }),
                    }),
                )
            }),
    {
        if self.active < self.entries.len() {
            let idx = self.active;
            let entry = &mut self.entries[idx];
            entry.navigator.step_backward();
            proof {
                assert(self.entries@ =~= old(self).entries@.update(
                    old(self).active as int,
                    self.entries@[old(self).active as int],
                ));
            }
        }
    }
}

} // verus!
