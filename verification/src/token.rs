//! Tokenizer feeding word-level alignment: a line splits, left to right,
//! into maximal identifier runs, maximal whitespace runs, and one-character
//! punctuation tokens.

use vstd::prelude::*;
use vstd::string::StrSliceExecFns;
use crate::lines::concat_texts;

verus! {

/// What `char::is_alphanumeric` returns; the result depends on the
/// character alone.
pub uninterp spec fn alphanumeric(c: char) -> bool;

/// What `char::is_whitespace` returns; the result depends on the
/// character alone.
pub uninterp spec fn whitespace(c: char) -> bool;

/// Relies on char::is_alphanumeric for the Unicode alphanumeric classes.
pub assume_specification[ char::is_alphanumeric ](c: char) -> (r: bool)
    ensures
        r == alphanumeric(c),
;

/// Relies on char::is_whitespace for the Unicode whitespace class.
pub assume_specification[ char::is_whitespace ](c: char) -> (r: bool)
    ensures
        r == whitespace(c),
;

/// A character that continues an identifier token.
pub open spec fn word_char(c: char) -> bool {
    alphanumeric(c) || c == '_'
}

/// Two characters that belong to the same maximal run.
pub open spec fn same_run(a: char, b: char) -> bool {
    (word_char(a) && word_char(b)) || (whitespace(a) && whitespace(b))
}

/// The tokens of `s`, accumulated left to right; `cur` is the (possibly
/// empty) identifier or whitespace run read so far.
pub open spec fn tokenize_rec(s: Seq<char>, cur: Seq<char>) -> Seq<Seq<char>>
    decreases s.len(),
{
    if s.len() == 0 {
        if cur.len() == 0 {
            Seq::empty()
        } else {
            seq![cur]
        }
    } else {
        let c = s[0];
        if cur.len() > 0 && same_run(cur[0], c) {
            tokenize_rec(s.skip(1), cur.push(c))
        } else {
            let flushed: Seq<Seq<char>> = if cur.len() == 0 {
                Seq::empty()
            } else {
                seq![cur]
            };
            if word_char(c) || whitespace(c) {
                flushed + tokenize_rec(s.skip(1), seq![c])
            } else {
                flushed + seq![seq![c]] + tokenize_rec(s.skip(1), Seq::empty())
            }
        }
    }
}

/// The tokens of a line.
pub open spec fn tokens_of(s: Seq<char>) -> Seq<Seq<char>> {
    tokenize_rec(s, Seq::empty())
}

/// The views of a sequence of strings.
pub open spec fn views_of(ts: Seq<String>) -> Seq<Seq<char>> {
    ts.map_values(|t: String| t@)
}

proof fn lemma_tokenize_rec_concat(s: Seq<char>, cur: Seq<char>)
    ensures
        concat_texts(tokenize_rec(s, cur)) == cur + s,
    decreases s.len(),
{
    if s.len() == 0 {
        if cur.len() == 0 {
            assert(cur + s =~= Seq::<char>::empty());
        } else {
            crate::lines::lemma_concat_texts_singleton(cur);
            assert(cur + s =~= cur);
        }
    } else {
        let c = s[0];
        if cur.len() > 0 && same_run(cur[0], c) {
            lemma_tokenize_rec_concat(s.skip(1), cur.push(c));
            assert(cur.push(c) + s.skip(1) =~= cur + s);
        } else {
            let flushed: Seq<Seq<char>> = if cur.len() == 0 {
                Seq::empty()
            } else {
                seq![cur]
            };
            assert(concat_texts(flushed) =~= cur) by {
                if cur.len() > 0 {
                    crate::lines::lemma_concat_texts_singleton(cur);
                }
            }
            if word_char(c) || whitespace(c) {
                lemma_tokenize_rec_concat(s.skip(1), seq![c]);
                crate::lines::lemma_concat_texts_append(
                    flushed,
                    tokenize_rec(s.skip(1), seq![c]),
                );
                assert(seq![c] + s.skip(1) =~= s.subrange(0, 1) + s.skip(1));
                assert(seq![c] + s.skip(1) =~= s);
                assert(cur + s =~= cur + (seq![c] + s.skip(1)));
            } else {
                lemma_tokenize_rec_concat(s.skip(1), Seq::empty());
                crate::lines::lemma_concat_texts_append(
                    flushed + seq![seq![c]],
                    tokenize_rec(s.skip(1), Seq::empty()),
                );
                crate::lines::lemma_concat_texts_append(flushed, seq![seq![c]]);
                crate::lines::lemma_concat_texts_singleton(seq![c]);
                assert(Seq::<char>::empty() + s.skip(1) =~= s.skip(1));
                assert((cur + seq![c]) + s.skip(1) =~= cur + s);
            }
        }
    }
}

/// Tokenization is lossless: the tokens of a line, concatenated in order,
/// are the line itself.
pub proof fn lemma_tokens_concat(s: Seq<char>)
    ensures
        concat_texts(tokens_of(s)) == s,
{
    lemma_tokenize_rec_concat(s, Seq::empty());
    assert(Seq::<char>::empty() + s =~= s);
}

/// Split a line into identifier, whitespace-run and punctuation tokens.
pub fn tokenize_code(line: &str) -> (r: Vec<String>)
    ensures
        views_of(r@) == tokens_of(line@),
{
    let n = line.unicode_len();
    let mut r: Vec<String> = Vec::new();
    let mut run_start: usize = 0;
    let mut i: usize = 0;
    proof {
        assert(line@.skip(0) =~= line@);
        assert(line@.subrange(0, 0) =~= Seq::<char>::empty());
        assert(views_of(r@) =~= Seq::<Seq<char>>::empty());
    }
    while i < n
        invariant
            run_start <= i <= n,
            n == line@.len(),
            run_start < i ==> (word_char(line@[run_start as int]) || whitespace(
                line@[run_start as int],
            )),
            forall|j: int|
                run_start < j < i ==> same_run(
                    line@[run_start as int],
                    #[trigger] line@[j],
                ),
            tokens_of(line@) == views_of(r@) + tokenize_rec(
                line@.skip(i as int),
                line@.subrange(run_start as int, i as int),
            ),
        decreases n - i,
    {
        let ghost cur = line@.subrange(run_start as int, i as int);
        let ghost rest = line@.skip(i as int);
        proof {
            assert(rest.len() > 0);
            assert(rest[0] == line@[i as int]);
            assert(rest.skip(1) =~= line@.skip(i + 1));
        }
        let c = line.get_char(i);
        let is_word = c.is_alphanumeric() || c == '_';
        let is_space = c.is_whitespace();
        if run_start < i {
            let c0 = line.get_char(run_start);
            let c0_word = c0.is_alphanumeric() || c0 == '_';
            let c0_space = c0.is_whitespace();
            let same = (is_word && c0_word) || (is_space && c0_space);
            if same {
                proof {
                    assert(cur[0] == line@[run_start as int]);
                    assert(cur.push(c) =~= line@.subrange(run_start as int, i + 1));
                }
            } else {
                proof {
                    assert(cur.len() > 0);
                    assert(cur[0] == line@[run_start as int]);
                    assert(!same_run(cur[0], c));
                }
                let tok = line.substring_char(run_start, i).to_owned();
                r.push(tok);
                proof {
                    assert(views_of(r@) =~= views_of(r@.drop_last()) + seq![cur]);
                }
                if is_word || is_space {
                    run_start = i;
                    proof {
                        assert(seq![c] =~= line@.subrange(i as int, i + 1));
                    }
                } else {
                    let tok2 = line.substring_char(i, i + 1).to_owned();
                    proof {
                        assert(tok2@ =~= seq![c]);
                    }
                    r.push(tok2);
                    proof {
                        assert(views_of(r@) =~= views_of(r@.drop_last()) + seq![seq![c]]);
                        assert(line@.subrange(i + 1, i + 1) =~= Seq::<char>::empty());
                    }
                    run_start = i + 1;
                }
            }
        } else {
            proof {
                assert(cur.len() == 0);
            }
            if is_word || is_space {
                proof {
                    assert(seq![c] =~= line@.subrange(i as int, i + 1));
                    assert(views_of(r@) + Seq::<Seq<char>>::empty() =~= views_of(r@));
                }
            } else {
                let tok2 = line.substring_char(i, i + 1).to_owned();
                proof {
                    assert(tok2@ =~= seq![c]);
                }
                r.push(tok2);
                proof {
                    assert(views_of(r@) =~= views_of(r@.drop_last()) + seq![seq![c]]);
                    assert(line@.subrange(i + 1, i + 1) =~= Seq::<char>::empty());
                    assert(Seq::<Seq<char>>::empty() + seq![seq![c]] + tokenize_rec(
                        line@.skip(i + 1),
                        Seq::empty(),
                    ) =~= seq![seq![c]] + tokenize_rec(line@.skip(i + 1), Seq::empty()));
                }
                run_start = i + 1;
            }
        }
        i = i + 1;
    }
    proof {
        let cur = line@.subrange(run_start as int, n as int);
        assert(line@.skip(n as int) =~= Seq::<char>::empty());
        if run_start < n {
            assert(tokenize_rec(Seq::<char>::empty(), cur) =~= seq![cur]);
        } else {
            assert(cur =~= Seq::<char>::empty());
            assert(tokenize_rec(Seq::<char>::empty(), cur) =~= Seq::<Seq<char>>::empty());
        }
    }
    if run_start < n {
        let tok = line.substring_char(run_start, n).to_owned();
        r.push(tok);
        proof {
            let cur = line@.subrange(run_start as int, n as int);
            assert(views_of(r@) =~= views_of(r@.drop_last()) + seq![cur]);
        }
    } else {
        proof {
            assert(views_of(r@) + Seq::<Seq<char>>::empty() =~= views_of(r@));
        }
    }
    r
}

} // verus!
