//! Sequence alignment over lines and over tokens, through the `similar`
//! crate's Myers-class text differ.
//!
//! An alignment is a flat sequence of operations. Reading only the
//! old-side operations (`Equal` and `Delete`) gives back exactly the old
//! sequence, in order; reading only the new-side operations (`Equal` and
//! `Insert`) gives back exactly the new sequence.

use vstd::prelude::*;
use crate::lines::split_lines;
use crate::token::views_of;

verus! {

/// One operation of a sequence alignment.
#[derive(Debug)]
pub enum AlignOp {
    /// The text is present on both sides.
    Equal(String),
    /// The text is present only on the old side.
    Delete(String),
    /// The text is present only on the new side.
    Insert(String),
}

impl AlignOp {
    /// The text the operation carries.
    pub open spec fn text(self) -> Seq<char> {
        match self {
            AlignOp::Equal(s) => s@,
            AlignOp::Delete(s) => s@,
            AlignOp::Insert(s) => s@,
        }
    }

    /// Whether the operation consumes an element of the old sequence.
    pub open spec fn is_old_side(self) -> bool {
        self is Equal || self is Delete
    }

    /// Whether the operation consumes an element of the new sequence.
    pub open spec fn is_new_side(self) -> bool {
        self is Equal || self is Insert
    }
}

/// The texts of the old-side operations, in order.
pub open spec fn old_side_texts(ops: Seq<AlignOp>) -> Seq<Seq<char>>
    decreases ops.len(),
{
    if ops.len() == 0 {
        Seq::empty()
    } else {
        let rest = old_side_texts(ops.drop_last());
        if ops.last().is_old_side() {
            rest.push(ops.last().text())
        } else {
            rest
        }
    }
}

/// The texts of the new-side operations, in order.
pub open spec fn new_side_texts(ops: Seq<AlignOp>) -> Seq<Seq<char>>
    decreases ops.len(),
{
    if ops.len() == 0 {
        Seq::empty()
    } else {
        let rest = new_side_texts(ops.drop_last());
        if ops.last().is_new_side() {
            rest.push(ops.last().text())
        } else {
            rest
        }
    }
}

/// Align two documents line by line.
///
/// Relies on similar::TextDiff::from_lines and TextDiff::iter_all_changes:
/// the flattened changes carry every old-side line exactly once, in order,
/// tagged Equal or Delete, and every new-side line exactly once, in order,
/// tagged Equal or Insert; an Equal change carries a line present on both
/// sides. Equal documents align as Equal changes only: the differ trims
/// the whole input as a common prefix, and long equal inputs take its
/// equal-inputs fast path.
#[verifier::external_body]
pub(crate) fn align_lines(old: &str, new: &str) -> (ops: Vec<AlignOp>)
    ensures
        old_side_texts(ops@) == split_lines(old@),
        new_side_texts(ops@) == split_lines(new@),
        old@ == new@ ==> forall|i: int| 0 <= i < ops@.len() ==> (#[trigger] ops@[i]) is Equal,
{
    let diff = similar::TextDiff::from_lines(old, new);
    diff.iter_all_changes()
        .map(|c| {
            let text = c.value().to_string();
            match c.tag() {
                similar::ChangeTag::Equal => AlignOp::Equal(text),
                similar::ChangeTag::Delete => AlignOp::Delete(text),
                similar::ChangeTag::Insert => AlignOp::Insert(text),
            }
        })
        .collect()
}

/// Align two token sequences element by element.
///
/// Relies on similar::TextDiff::from_slices and TextDiff::iter_all_changes:
/// the flattened changes carry every old token exactly once, in order,
/// tagged Equal or Delete, and every new token exactly once, in order,
/// tagged Equal or Insert; an Equal change carries a token present on both
/// sides. Equal sequences align as Equal changes only: the differ trims
/// the whole input as a common prefix, and long equal inputs take its
/// equal-inputs fast path.
#[verifier::external_body]
pub(crate) fn align_tokens(old: &Vec<String>, new: &Vec<String>) -> (ops: Vec<AlignOp>)
    ensures
        old_side_texts(ops@) == views_of(old@),
        new_side_texts(ops@) == views_of(new@),
        views_of(old@) == views_of(new@) ==> forall|i: int|
            0 <= i < ops@.len() ==> (#[trigger] ops@[i]) is Equal,
{
    let old_refs: Vec<&str> = old.iter().map(|s| s.as_str()).collect();
    let new_refs: Vec<&str> = new.iter().map(|s| s.as_str()).collect();
    let diff = similar::TextDiff::from_slices(&old_refs, &new_refs);
    diff.iter_all_changes()
        .map(|c| {
            let text = c.value().to_string();
            match c.tag() {
                similar::ChangeTag::Equal => AlignOp::Equal(text),
                similar::ChangeTag::Delete => AlignOp::Delete(text),
                similar::ChangeTag::Insert => AlignOp::Insert(text),
            }
        })
        .collect()
}

} // verus!
