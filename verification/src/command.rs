//! Command tokenization: a shell-like command string is split into argv
//! tokens. Whitespace separates tokens; within one token, double-quoted
//! segments (inner spaces preserved) and plain segments concatenate, so a
//! quote abutting other text extends the same token. A backslash is an
//! ordinary character, as it recurs literally in filesystem paths. A quoted
//! segment without its closing quote makes the whole command untokenizable.

use crate::text::{find_first, is_space, lemma_find_first_is};
use vstd::prelude::*;

verus! {

/// A character that ends a plain segment: whitespace or an opening quote.
pub open spec fn is_break(c: char) -> bool {
    is_space(c) || c == '"'
}

/// One token read from the head of `s`: the concatenation of its adjacent
/// segments — a quoted segment contributes the text between its quotes, a
/// plain segment runs to the next whitespace or quote — paired with the
/// remainder of the input, which starts at whitespace or is empty. `None`
/// when a quote is never closed.
pub open spec fn token_segments(s: Seq<char>) -> Option<(Seq<char>, Seq<char>)>
    decreases s.len(),
{
    if s.len() == 0 || is_space(s[0]) {
        Some((Seq::empty(), s))
    } else if s[0] == '"' {
        let rest = s.drop_first();
        let j = find_first(rest, |c: char| c == '"');
        if 0 <= j < rest.len() {
            match token_segments(rest.skip(j + 1)) {
                Some(p) => Some((rest.take(j) + p.0, p.1)),
                None => None,
            }
        } else {
            // no closing quote
            None
        }
    } else {
        let j = find_first(s, |c: char| is_break(c));
        // the first character is no break, so j >= 1; the finder never points
        // past the end either, but the bound is restated for the termination
        // checker, so the last branch is never taken
        if 1 <= j <= s.len() {
            match token_segments(s.skip(j)) {
                Some(p) => Some((s.take(j) + p.0, p.1)),
                None => None,
            }
        } else {
            None
        }
    }
}

/// The token list of a command string, or `None` when a quoted segment is
/// never closed.
pub open spec fn tokens_of(s: Seq<char>) -> Option<Seq<Seq<char>>>
    decreases s.len(),
{
    if s.len() == 0 {
        Some(Seq::empty())
    } else if is_space(s[0]) {
        tokens_of(s.drop_first())
    } else {
        match token_segments(s) {
            Some(p) => {
                // a token starting at a non-space character consumes at least
                // that character; the bound is restated for the termination
                // checker, so the last branch is never taken
                if p.1.len() < s.len() {
                    match tokens_of(p.1) {
                        Some(ts) => Some(seq![p.0] + ts),
                        None => None,
                    }
                } else {
                    None
                }
            },
            None => None,
        }
    }
}

/// Whitespace test on one character.
fn is_space_char(c: char) -> (b: bool)
    ensures
        b == is_space(c),
{
    c == ' ' || c == '\t' || c == '\r' || c == '\n'
}

/// Segment-break test on one character.
fn is_break_char(c: char) -> (b: bool)
    ensures
        b == is_break(c),
{
    is_space_char(c) || c == '"'
}

/// Split a command string into argv tokens; `None` when a quoted segment is
/// never closed.
pub fn split_command(cmd: &str) -> (r: Option<Vec<String>>)
    ensures
        r matches Some(v) ==> tokens_of(cmd@) == Some(v.deep_view()),
        r is None ==> tokens_of(cmd@) is None,
{
    let len = cmd.unicode_len();
    let mut toks: Vec<String> = Vec::new();
    proof {
        assert(cmd@.skip(0) =~= cmd@);
        if tokens_of(cmd@) is Some {
            let ts = tokens_of(cmd@)->Some_0;
            assert(toks.deep_view() + ts =~= ts);
        }
    }
    let mut i: usize = 0;
    while i < len
        invariant
            i <= len,
            len == cmd@.len(),
            tokens_of(cmd@) == (match tokens_of(cmd@.skip(i as int)) {
                Some(ts) => Some(toks.deep_view() + ts),
                None => None::<Seq<Seq<char>>>,
            }),
        decreases len - i,
    {
        let ghost toks0 = toks.deep_view();
        let c = cmd.get_char(i);
        proof {
            assert(cmd@.skip(i as int)[0] == cmd@[i as int]);
        }
        if is_space_char(c) {
            proof {
                assert(cmd@.skip(i as int).drop_first() =~= cmd@.skip(i + 1));
            }
            i = i + 1;
        } else {
            let ghost i0 = i as int;
            let mut tok = String::new();
            proof {
                if token_segments(cmd@.skip(i0)) is Some {
                    let p = token_segments(cmd@.skip(i0))->Some_0;
                    assert(tok@ + p.0 =~= p.0);
                }
            }
            loop
                invariant
                    i0 <= i <= len,
                    len == cmd@.len(),
                    0 <= i0 < len,
                    !is_space(cmd@[i0]),
                    toks.deep_view() == toks0,
                    tokens_of(cmd@) == (match tokens_of(cmd@.skip(i0)) {
                        Some(ts) => Some(toks0 + ts),
                        None => None::<Seq<Seq<char>>>,
                    }),
                    token_segments(cmd@.skip(i0)) == (match token_segments(cmd@.skip(i as int)) {
                        Some(p) => Some::<(Seq<char>, Seq<char>)>((tok@ + p.0, p.1)),
                        None => None::<(Seq<char>, Seq<char>)>,
                    }),
                ensures
                    i0 < i <= len,
                    len == cmd@.len(),
                    0 <= i0 < len,
                    !is_space(cmd@[i0]),
                    toks.deep_view() == toks0,
                    tokens_of(cmd@) == (match tokens_of(cmd@.skip(i0)) {
                        Some(ts) => Some(toks0 + ts),
                        None => None::<Seq<Seq<char>>>,
                    }),
                    token_segments(cmd@.skip(i0)) == Some((tok@, cmd@.skip(i as int))),
                decreases len - i,
            {
                if i == len {
                    proof {
                        assert(cmd@.skip(i as int) =~= Seq::<char>::empty());
                        assert(token_segments(cmd@.skip(i as int)) == Some(
                            (Seq::<char>::empty(), cmd@.skip(i as int)),
                        ));
                        assert(tok@ + Seq::<char>::empty() =~= tok@);
                        assert(i0 < i as int);
                    }
                    break ;
                }
                let c2 = cmd.get_char(i);
                proof {
                    assert(cmd@.skip(i as int)[0] == cmd@[i as int]);
                }
                if is_space_char(c2) {
                    proof {
                        assert(token_segments(cmd@.skip(i as int)) == Some(
                            (Seq::<char>::empty(), cmd@.skip(i as int)),
                        ));
                        assert(tok@ + Seq::<char>::empty() =~= tok@);
                        assert(i0 < i as int);
                    }
                    break ;
                }
                let ghost si = cmd@.skip(i as int);
                if c2 == '"' {
                    let ghost rest = si.drop_first();
                    let mut j = i + 1;
                    while j < len && cmd.get_char(j) != '"'
                        invariant
                            i + 1 <= j <= len,
                            len == cmd@.len(),
                            forall|k: int| i + 1 <= k < j ==> cmd@[k] != '"',
                        decreases len - j,
                    {
                        j = j + 1;
                    }
                    proof {
                        assert(rest =~= cmd@.skip(i + 1));
                        assert forall|k: int| 0 <= k < j - i - 1 implies !((|c: char| c == '"')(
                            rest[k],
                        )) by {
                            assert(rest[k] == cmd@[i + 1 + k]);
                        }
                        if j < len {
                            assert(rest[j - i - 1] == cmd@[j as int]);
                        }
                        lemma_find_first_is(rest, |c: char| c == '"', j - i - 1);
                    }
                    if j == len {
                        proof {
                            assert(token_segments(si) is None);
                            assert(tokens_of(cmd@.skip(i0)) is None);
                        }
                        return None;
                    }
                    let ghost tok0 = tok@;
                    tok.append(cmd.substring_char(i + 1, j));
                    proof {
                        assert(tok@ =~= tok0 + rest.take(j - i - 1));
                        assert(rest.skip(j - i) =~= cmd@.skip(j + 1));
                        if token_segments(cmd@.skip(j + 1)) is Some {
                            let q = token_segments(cmd@.skip(j + 1))->Some_0;
                            assert(tok0 + (rest.take(j - i - 1) + q.0) =~= tok@ + q.0);
                        }
                    }
                    i = j + 1;
                } else {
                    let mut j = i + 1;
                    while j < len && !is_break_char(cmd.get_char(j))
                        invariant
                            i + 1 <= j <= len,
                            len == cmd@.len(),
                            forall|k: int| i < k < j ==> !is_break(cmd@[k]),
                        decreases len - j,
                    {
                        j = j + 1;
                    }
                    proof {
                        assert(!is_break(si[0]));
                        assert forall|k: int| 0 <= k < j - i implies !((|c: char| is_break(c))(
                            si[k],
                        )) by {
                            assert(si[k] == cmd@[i + k]);
                        }
                        if j < len {
                            assert(si[j - i] == cmd@[j as int]);
                        }
                        lemma_find_first_is(si, |c: char| is_break(c), j - i);
                    }
                    let ghost tok0 = tok@;
                    tok.append(cmd.substring_char(i, j));
                    proof {
                        assert(tok@ =~= tok0 + si.take(j - i));
                        assert(si.skip(j - i) =~= cmd@.skip(j as int));
                        if token_segments(cmd@.skip(j as int)) is Some {
                            let q = token_segments(cmd@.skip(j as int))->Some_0;
                            assert(tok0 + (si.take(j - i) + q.0) =~= tok@ + q.0);
                        }
                    }
                    i = j;
                }
            }
            proof {
                assert(cmd@.skip(i as int).len() < cmd@.skip(i0).len());
            }
            let ghost tokv = tok@;
            toks.push(tok);
            proof {
                assert(toks.deep_view() =~= toks0.push(tokv));
                if tokens_of(cmd@.skip(i as int)) is Some {
                    let ts = tokens_of(cmd@.skip(i as int))->Some_0;
                    assert(toks0 + (seq![tokv] + ts) =~= toks.deep_view() + ts);
                }
            }
        }
    }
    proof {
        assert(cmd@.skip(len as int) =~= Seq::<char>::empty());
        assert(toks.deep_view() + Seq::<Seq<char>>::empty() =~= toks.deep_view());
    }
    Some(toks)
}

} // verus!
