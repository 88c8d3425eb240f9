//! Line decomposition of a document, and the newline trimming applied to
//! stored line text.
//!
//! A document splits into lines after every `'\n'`, after every `'\r'` not
//! followed by `'\n'`, and after every `"\r\n"` pair; terminators stay with
//! their line, and a final unterminated run forms the last line. Splitting
//! is lossless: concatenating the lines restores the document.

use vstd::prelude::*;
use vstd::string::StrSliceExecFns;

verus! {

/// The lines of `s`, accumulated left to right; `cur` is the (possibly
/// empty) prefix of the current line read so far.
pub open spec fn split_lines_rec(s: Seq<char>, cur: Seq<char>) -> Seq<Seq<char>>
    decreases s.len(),
{
    if s.len() == 0 {
        if cur.len() == 0 {
            Seq::empty()
        } else {
            seq![cur]
        }
    } else if s[0] == '\n' {
        seq![cur.push('\n')] + split_lines_rec(s.skip(1), Seq::empty())
    } else if s[0] == '\r' {
        if s.len() >= 2 && s[1] == '\n' {
            seq![cur.push('\r').push('\n')] + split_lines_rec(s.skip(2), Seq::empty())
        } else {
            seq![cur.push('\r')] + split_lines_rec(s.skip(1), Seq::empty())
        }
    } else {
        split_lines_rec(s.skip(1), cur.push(s[0]))
    }
}

/// The lines of a document, terminators included.
pub open spec fn split_lines(s: Seq<char>) -> Seq<Seq<char>> {
    split_lines_rec(s, Seq::empty())
}

/// Concatenation of a sequence of texts, in order.
pub open spec fn concat_texts(ls: Seq<Seq<char>>) -> Seq<char>
    decreases ls.len(),
{
    if ls.len() == 0 {
        Seq::empty()
    } else {
        ls[0] + concat_texts(ls.drop_first())
    }
}

/// `s` with every trailing `'\n'` removed.
pub open spec fn trim_nl(s: Seq<char>) -> Seq<char>
    decreases s.len(),
{
    if s.len() > 0 && s.last() == '\n' {
        trim_nl(s.drop_last())
    } else {
        s
    }
}

/// Each of `ls` with its trailing newlines removed.
pub open spec fn trimmed_texts(ls: Seq<Seq<char>>) -> Seq<Seq<char>> {
    ls.map_values(|l: Seq<char>| trim_nl(l))
}

/// Concatenation distributes over appending of text sequences.
pub proof fn lemma_concat_texts_append(a: Seq<Seq<char>>, b: Seq<Seq<char>>)
    ensures
        concat_texts(a + b) == concat_texts(a) + concat_texts(b),
    decreases a.len(),
{
    if a.len() == 0 {
        assert(a + b =~= b);
        assert(concat_texts(a) + concat_texts(b) =~= concat_texts(b));
    } else {
        lemma_concat_texts_append(a.drop_first(), b);
        assert((a + b).drop_first() =~= a.drop_first() + b);
        assert((a + b)[0] == a[0]);
        assert(a[0] + (concat_texts(a.drop_first()) + concat_texts(b)) =~= (a[0]
            + concat_texts(a.drop_first())) + concat_texts(b));
    }
}

/// Concatenation of a single text is that text.
pub proof fn lemma_concat_texts_singleton(x: Seq<char>)
    ensures
        concat_texts(seq![x]) == x,
{
    assert(seq![x].drop_first() =~= Seq::<Seq<char>>::empty());
    assert(concat_texts(seq![x]) =~= x + concat_texts(Seq::<Seq<char>>::empty()));
    assert(x + Seq::<char>::empty() =~= x);
}

proof fn lemma_split_lines_rec_concat(s: Seq<char>, cur: Seq<char>)
    ensures
        concat_texts(split_lines_rec(s, cur)) == cur + s,
    decreases s.len(),
{
    if s.len() == 0 {
        if cur.len() == 0 {
            assert(cur + s =~= Seq::<char>::empty());
        } else {
            lemma_concat_texts_singleton(cur);
            assert(cur + s =~= cur);
        }
    } else if s[0] == '\n' {
        lemma_split_lines_rec_concat(s.skip(1), Seq::empty());
        lemma_concat_texts_append(seq![cur.push('\n')], split_lines_rec(s.skip(1), Seq::empty()));
        lemma_concat_texts_singleton(cur.push('\n'));
        assert(Seq::<char>::empty() + s.skip(1) =~= s.skip(1));
        assert(cur.push('\n') + s.skip(1) =~= cur + s);
    } else if s[0] == '\r' {
        if s.len() >= 2 && s[1] == '\n' {
            lemma_split_lines_rec_concat(s.skip(2), Seq::empty());
            lemma_concat_texts_append(
                seq![cur.push('\r').push('\n')],
                split_lines_rec(s.skip(2), Seq::empty()),
            );
            lemma_concat_texts_singleton(cur.push('\r').push('\n'));
            assert(Seq::<char>::empty() + s.skip(2) =~= s.skip(2));
            assert(cur.push('\r').push('\n') + s.skip(2) =~= cur + s);
        } else {
            lemma_split_lines_rec_concat(s.skip(1), Seq::empty());
            lemma_concat_texts_append(
                seq![cur.push('\r')],
                split_lines_rec(s.skip(1), Seq::empty()),
            );
            lemma_concat_texts_singleton(cur.push('\r'));
            assert(Seq::<char>::empty() + s.skip(1) =~= s.skip(1));
            assert(cur.push('\r') + s.skip(1) =~= cur + s);
        }
    } else {
        lemma_split_lines_rec_concat(s.skip(1), cur.push(s[0]));
        assert(cur.push(s[0]) + s.skip(1) =~= cur + s);
    }
}

/// Line splitting is lossless: the lines of a document, concatenated in
/// order, are the document itself.
pub proof fn lemma_split_lines_concat(s: Seq<char>)
    ensures
        concat_texts(split_lines(s)) == s,
{
    lemma_split_lines_rec_concat(s, Seq::empty());
    assert(Seq::<char>::empty() + s =~= s);
}

/// The texts joined with single `'\n'` separators.
pub open spec fn join_nl(ls: Seq<Seq<char>>) -> Seq<char>
    decreases ls.len(),
{
    if ls.len() == 0 {
        Seq::empty()
    } else if ls.len() == 1 {
        ls[0]
    } else {
        ls[0] + seq!['\n'] + join_nl(ls.drop_first())
    }
}

/// A document has no bare carriage-return line break: every `'\r'` is
/// followed by `'\n'` or ends the document.
pub open spec fn no_bare_cr(s: Seq<char>) -> bool {
    forall|i: int| 0 <= i < s.len() - 1 && #[trigger] s[i] == '\r' ==> s[i + 1] == '\n'
}

/// Trimming is idempotent.
pub proof fn lemma_trim_nl_idempotent(s: Seq<char>)
    ensures
        trim_nl(trim_nl(s)) == trim_nl(s),
    decreases s.len(),
{
    if s.len() > 0 && s.last() == '\n' {
        lemma_trim_nl_idempotent(s.drop_last());
    }
}

/// Trailing newlines of a suffix vanish under trimming.
pub proof fn lemma_trim_nl_absorbs(a: Seq<char>, b: Seq<char>)
    ensures
        trim_nl(a + b) == trim_nl(a + trim_nl(b)),
    decreases b.len(),
{
    if b.len() > 0 && b.last() == '\n' {
        assert((a + b).len() > 0);
        assert((a + b).last() == '\n');
        assert((a + b).drop_last() =~= a + b.drop_last());
        lemma_trim_nl_absorbs(a, b.drop_last());
    }
}

/// Joining trimmed lines and concatenating raw lines agree after
/// trimming, provided every line but the last carries exactly its own
/// `'\n'` terminator.
proof fn lemma_join_trimmed(ls: Seq<Seq<char>>)
    requires
        lines_shape(ls),
    ensures
        trim_nl(concat_texts(ls)) == trim_nl(join_nl(trimmed_texts(ls))),
    decreases ls.len(),
{
    if ls.len() == 0 {
        assert(trimmed_texts(ls) =~= Seq::<Seq<char>>::empty());
    } else if ls.len() == 1 {
        assert(concat_texts(ls) =~= ls[0]) by {
            lemma_concat_texts_singleton(ls[0]);
            assert(ls =~= seq![ls[0]]);
        }
        assert(trimmed_texts(ls).len() == 1);
        assert(join_nl(trimmed_texts(ls)) == trimmed_texts(ls)[0]);
        assert(trimmed_texts(ls)[0] == trim_nl(ls[0]));
        lemma_trim_nl_idempotent(ls[0]);
    } else {
        let rest = ls.drop_first();
        assert forall|i: int| 0 <= i < rest.len() - 1 implies #[trigger] rest[i] == trim_nl(
            rest[i],
        ).push('\n') by {
            assert(rest[i] == ls[i + 1]);
            assert(ls[i + 1] == trim_nl(ls[i + 1]).push('\n'));
        }
        assert(lines_shape(rest));
        lemma_join_trimmed(rest);
        assert(ls[0] == trim_nl(ls[0]).push('\n'));
        let t0 = trim_nl(ls[0]);
        let cr = concat_texts(rest);
        let jr = join_nl(trimmed_texts(rest));
        assert(concat_texts(ls) == ls[0] + cr);
        assert(trimmed_texts(ls).len() == ls.len());
        assert(trimmed_texts(ls)[0] == t0);
        assert(trimmed_texts(ls).drop_first() =~= trimmed_texts(rest));
        assert(join_nl(trimmed_texts(ls)) == t0 + seq!['\n'] + jr);
        assert(t0 + seq!['\n'] =~= ls[0]) by {
            assert(trim_nl(ls[0]).push('\n') =~= trim_nl(ls[0]) + seq!['\n']);
        }
        assert(t0 + seq!['\n'] + jr =~= ls[0] + jr);
        lemma_trim_nl_absorbs(ls[0], cr);
        lemma_trim_nl_absorbs(ls[0], jr);
        assert(trim_nl(ls[0] + trim_nl(cr)) == trim_nl(ls[0] + trim_nl(jr)));
    }
}

/// Every text of `ls` except the last carries exactly its own `'\n'`
/// terminator.
pub open spec fn lines_shape(ls: Seq<Seq<char>>) -> bool {
    forall|i: int| 0 <= i < ls.len() - 1 ==> #[trigger] ls[i] == trim_nl(ls[i]).push('\n')
}

/// Under `no_bare_cr`, the lines of a document have `lines_shape`;
/// `cur`, the prefix of the current line, holds no terminator characters.
proof fn lemma_split_lines_rec_shape(s: Seq<char>, cur: Seq<char>)
    requires
        no_bare_cr(s),
        forall|j: int| 0 <= j < cur.len() ==> #[trigger] cur[j] != '\n' && cur[j] != '\r',
    ensures
        lines_shape(split_lines_rec(s, cur)),
    decreases s.len(),
{
    let ls = split_lines_rec(s, cur);
    if s.len() == 0 {
        assert(ls.len() <= 1);
        assert(lines_shape(ls));
    } else if s[0] == '\n' {
        let line = cur.push('\n');
        assert(trim_nl(line) == cur) by {
            assert(line.len() > 0 && line.last() == '\n');
            assert(line.drop_last() =~= cur);
            assert(trim_nl(line) == trim_nl(cur));
            if cur.len() > 0 {
                assert(cur[cur.len() - 1] != '\n');
            }
            assert(trim_nl(cur) == cur);
        }
        assert(no_bare_cr(s.skip(1))) by {
            assert(forall|i: int|
                0 <= i < s.skip(1).len() - 1 && #[trigger] s.skip(1)[i] == '\r' ==> s.skip(1)[i
                    + 1] == '\n') by {
                assert(forall|i: int|
                    0 <= i < s.skip(1).len() ==> #[trigger] s.skip(1)[i] == s[i + 1]);
            }
        }
        lemma_split_lines_rec_shape(s.skip(1), Seq::empty());
        let rest = split_lines_rec(s.skip(1), Seq::empty());
        assert(ls == seq![line] + rest);
        assert forall|i: int| 0 <= i < ls.len() - 1 implies #[trigger] ls[i] == trim_nl(
            ls[i],
        ).push('\n') by {
            if i == 0 {
                assert(ls[0] == line);
                assert(line == trim_nl(line).push('\n'));
            } else {
                assert(ls[i] == rest[i - 1]);
                assert(rest[i - 1] == trim_nl(rest[i - 1]).push('\n'));
            }
        }
        assert(lines_shape(ls));
    } else if s[0] == '\r' {
        if s.len() >= 2 && s[1] == '\n' {
            let line = cur.push('\r').push('\n');
            assert(trim_nl(line) == cur.push('\r')) by {
                assert(line.len() > 0 && line.last() == '\n');
                assert(line.drop_last() =~= cur.push('\r'));
                assert(trim_nl(line) == trim_nl(cur.push('\r')));
                assert(cur.push('\r').last() == '\r');
                assert(trim_nl(cur.push('\r')) == cur.push('\r'));
            }
            assert(no_bare_cr(s.skip(2))) by {
                assert(forall|i: int|
                    0 <= i < s.skip(2).len() ==> #[trigger] s.skip(2)[i] == s[i + 2]);
            }
            lemma_split_lines_rec_shape(s.skip(2), Seq::empty());
            let rest = split_lines_rec(s.skip(2), Seq::empty());
            assert(ls == seq![line] + rest);
            assert forall|i: int| 0 <= i < ls.len() - 1 implies #[trigger] ls[i] == trim_nl(
                ls[i],
            ).push('\n') by {
                if i == 0 {
                    assert(ls[0] == line);
                    assert(line == trim_nl(line).push('\n'));
                } else {
                    assert(ls[i] == rest[i - 1]);
                    assert(rest[i - 1] == trim_nl(rest[i - 1]).push('\n'));
                }
            }
            assert(lines_shape(ls));
        } else {
            // A bare carriage return can only end the document, so the
            // line it closes is the last.
            assert(s.len() == 1);
            let line = cur.push('\r');
            assert(s.skip(1) =~= Seq::<char>::empty());
            assert(split_lines_rec(s.skip(1), Seq::empty()) =~= Seq::<Seq<char>>::empty());
            assert(ls =~= seq![line] + Seq::<Seq<char>>::empty());
            assert(ls.len() == 1);
            assert(lines_shape(ls));
        }
    } else {
        assert(no_bare_cr(s.skip(1))) by {
            assert(forall|i: int|
                0 <= i < s.skip(1).len() ==> #[trigger] s.skip(1)[i] == s[i + 1]);
        }
        assert(forall|j: int|
            0 <= j < cur.push(s[0]).len() ==> #[trigger] cur.push(s[0])[j] != '\n' && cur.push(
                s[0],
            )[j] != '\r');
        lemma_split_lines_rec_shape(s.skip(1), cur.push(s[0]));
        assert(ls == split_lines_rec(s.skip(1), cur.push(s[0])));
        assert(lines_shape(ls));
    }
}

/// Round trip at the document level: for a document without bare
/// carriage-return line breaks, its lines, trimmed and joined back with
/// `'\n'`, reproduce the document up to trailing-newline normalization.
pub proof fn lemma_document_round_trip(s: Seq<char>)
    requires
        no_bare_cr(s),
    ensures
        trim_nl(join_nl(trimmed_texts(split_lines(s)))) == trim_nl(s),
{
    lemma_split_lines_rec_shape(s, Seq::empty());
    assert(lines_shape(split_lines(s)));
    lemma_join_trimmed(split_lines(s));
    lemma_split_lines_concat(s);
}

/// Trimming maps over appends element by element.
pub proof fn lemma_trimmed_texts_append(a: Seq<Seq<char>>, b: Seq<Seq<char>>)
    ensures
        trimmed_texts(a + b) == trimmed_texts(a) + trimmed_texts(b),
{
    assert(trimmed_texts(a + b) =~= trimmed_texts(a) + trimmed_texts(b));
}

/// Trimming a single text.
pub proof fn lemma_trimmed_texts_singleton(x: Seq<char>)
    ensures
        trimmed_texts(seq![x]) == seq![trim_nl(x)],
{
    assert(trimmed_texts(seq![x]) =~= seq![trim_nl(x)]);
}

/// Remove every trailing `'\n'` from a string, as stored line text drops
/// its terminator.
pub fn trim_trailing_newlines(s: &str) -> (r: String)
    ensures
        r@ == trim_nl(s@),
{
    let n = s.unicode_len();
    let mut end: usize = n;
    proof {
        assert(s@.take(n as int) =~= s@);
    }
    while end > 0 && s.get_char(end - 1) == '\n'
        invariant
            end <= n,
            n == s@.len(),
            trim_nl(s@) == trim_nl(s@.take(end as int)),
        decreases end,
    {
        proof {
            assert(s@.take(end as int).drop_last() =~= s@.take(end - 1));
        }
        end = end - 1;
    }
    proof {
        if end == 0 {
            assert(s@.take(0) =~= Seq::<char>::empty());
        }
        assert(trim_nl(s@.take(end as int)) == s@.take(end as int));
    }
    s.substring_char(0, end).to_owned()
}

} // verus!
