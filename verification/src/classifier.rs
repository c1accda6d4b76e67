//! Classification of a stage's diagnostic stream: buffering of partial lines
//! across reads, and the fixed vocabulary of error-indicating substrings.
//!
//! The host reads raw bytes from each stage's diagnostic pipe and hands the
//! decoded text to [`LineBuffer::push_chunk`]; every completed line is
//! returned for forwarding to observers and for classification.

use crate::text::{lower_seq, seq_contains, str_contains, to_lower};
use vstd::prelude::*;

verus! {

/// A diagnostic line signals an error when its ASCII-lowercased text contains
/// one of a fixed vocabulary of error-indicating substrings. This is a
/// documented best-effort heuristic: the authoritative failure signal remains
/// the stage exit status.
pub open spec fn is_error_line_spec(line: Seq<char>) -> bool {
    ||| seq_contains(lower_seq(line), "error"@)
    ||| seq_contains(lower_seq(line), "failed"@)
    ||| seq_contains(lower_seq(line), "invalid argument"@)
    ||| seq_contains(lower_seq(line), "cannot"@)
    ||| seq_contains(lower_seq(line), "matches no streams"@)
    ||| seq_contains(lower_seq(line), "no such file or directory"@)
    ||| seq_contains(lower_seq(line), "already exists"@)
}

/// Test one diagnostic line against the error vocabulary, case-insensitively.
pub fn is_error_line(line: &str) -> (b: bool)
    ensures
        b == is_error_line_spec(line@),
{
    let lower = to_lower(line);
    str_contains(lower.as_str(), "error") || str_contains(lower.as_str(), "failed")
        || str_contains(lower.as_str(), "invalid argument") || str_contains(
        lower.as_str(),
        "cannot",
    ) || str_contains(lower.as_str(), "matches no streams") || str_contains(
        lower.as_str(),
        "no such file or directory",
    ) || str_contains(lower.as_str(), "already exists")
}

/// Position of the first newline in `s`, or `-1` if there is none.
pub open spec fn find_newline(s: Seq<char>) -> int
    decreases s.len(),
{
    if s.len() == 0 {
        -1
    } else if s[0] == '\n' {
        0
    } else {
        let r = find_newline(s.drop_first());
        if r < 0 {
            -1
        } else {
            r + 1
        }
    }
}

/// `find_newline` returns the smallest newline position, or `-1` when the
/// sequence holds no newline at all.
pub proof fn lemma_find_newline(s: Seq<char>)
    ensures
        find_newline(s) == -1 ==> forall|k: int| 0 <= k < s.len() ==> s[k] != '\n',
        find_newline(s) >= 0 ==> {
            &&& 0 <= find_newline(s) < s.len()
            &&& s[find_newline(s)] == '\n'
            &&& forall|k: int| 0 <= k < find_newline(s) ==> s[k] != '\n'
        },
    decreases s.len(),
{
    if s.len() == 0 {
    } else if s[0] == '\n' {
    } else {
        let t = s.drop_first();
        lemma_find_newline(t);
        assert(forall|k: int| 0 <= k < t.len() ==> t[k] == s[k + 1]);
        if find_newline(t) < 0 {
            assert forall|k: int| 0 <= k < s.len() implies s[k] != '\n' by {
                if k > 0 {
                    assert(s[k] == t[k - 1]);
                }
            }
        } else {
            assert forall|k: int| 0 <= k < find_newline(s) implies s[k] != '\n' by {
                if k > 0 {
                    assert(s[k] == t[k - 1]);
                }
            }
        }
    }
}

/// A line with any run of trailing carriage returns removed.
pub open spec fn strip_cr(s: Seq<char>) -> Seq<char>
    decreases s.len(),
{
    if s.len() > 0 && s[s.len() - 1] == '\r' {
        strip_cr(s.drop_last())
    } else {
        s
    }
}

/// `strip_cr` keeps exactly the prefix that ends before the trailing
/// carriage-return run.
pub proof fn lemma_strip_cr(s: Seq<char>, e: int)
    requires
        0 <= e <= s.len(),
        forall|k: int| e <= k < s.len() ==> s[k] == '\r',
        e > 0 ==> s[e - 1] != '\r',
    ensures
        strip_cr(s) == s.take(e),
    decreases s.len(),
{
    if s.len() > 0 && s[s.len() - 1] == '\r' {
        assert(e < s.len());
        lemma_strip_cr(s.drop_last(), e);
        assert(s.drop_last().take(e) =~= s.take(e));
    } else {
        assert(e == s.len());
        assert(s.take(e) =~= s);
    }
}

/// Every completed line of `s`, in order: split at each newline, strip
/// trailing carriage returns. Every line counts, an empty one too: observers
/// receive each completed line verbatim.
pub open spec fn complete_lines(s: Seq<char>) -> Seq<Seq<char>>
    decreases s.len(),
{
    let j = find_newline(s);
    if 0 <= j < s.len() {
        seq![strip_cr(s.take(j))] + complete_lines(s.skip(j + 1))
    } else {
        Seq::empty()
    }
}

/// What remains after the last newline of `s`: the unterminated tail.
pub open spec fn leftover(s: Seq<char>) -> Seq<char>
    decreases s.len(),
{
    let j = find_newline(s);
    if 0 <= j < s.len() {
        leftover(s.skip(j + 1))
    } else {
        s
    }
}

/// Position of the first newline of `s`, scanned left to right.
fn find_nl(s: &str) -> (r: Option<usize>)
    ensures
        r matches Some(j) ==> j as int == find_newline(s@) && 0 <= j < s@.len(),
        r is None ==> find_newline(s@) == -1,
{
    let len = s.unicode_len();
    let mut i: usize = 0;
    while i < len
        invariant
            i <= len,
            len == s@.len(),
            forall|k: int| 0 <= k < i ==> s@[k] != '\n',
        decreases len - i,
    {
        if s.get_char(i) == '\n' {
            proof {
                lemma_find_newline(s@);
                let f = find_newline(s@);
                if f == -1 {
                    assert(s@[i as int] != '\n');
                } else {
                    if f < i {
                        assert(s@[f] != '\n');
                    }
                    if f > i {
                        assert(s@[i as int] != '\n');
                    }
                }
            }
            return Some(i);
        }
        i = i + 1;
    }
    proof {
        lemma_find_newline(s@);
        if find_newline(s@) >= 0 {
            assert(s@[find_newline(s@)] != '\n');
        }
    }
    None
}

/// Accumulates the diagnostic text of one stage across reads that need not be
/// line-aligned, and hands out each line as soon as its newline arrives.
pub struct LineBuffer {
    pub buf: String,
}

impl View for LineBuffer {
    type V = Seq<char>;

    open spec fn view(&self) -> Seq<char> {
        self.buf@
    }
}

impl LineBuffer {
    /// An empty buffer.
    pub fn new() -> (r: LineBuffer)
        ensures
            r@ == Seq::<char>::empty(),
    {
        LineBuffer { buf: String::new() }
    }

    /// Append one read's worth of text and return every line completed by it,
    /// cleaned of its newline and of trailing carriage returns — every line,
    /// an empty one included. The unterminated tail stays buffered.
    pub fn push_chunk(&mut self, chunk: &str) -> (lines: Vec<String>)
        ensures
            final(self)@ == leftover(old(self)@ + chunk@),
            lines.deep_view() == complete_lines(old(self)@ + chunk@),
    {
        self.buf.append(chunk);
        let ghost all = self.buf@;
        let mut lines: Vec<String> = Vec::new();
        proof {
            assert(lines.deep_view() + complete_lines(all) =~= complete_lines(all));
        }
        loop
            invariant
                complete_lines(all) == lines.deep_view() + complete_lines(self.buf@),
                leftover(all) == leftover(self.buf@),
            ensures
                complete_lines(all) == lines.deep_view() + complete_lines(self.buf@),
                leftover(all) == leftover(self.buf@),
                find_newline(self.buf@) == -1,
            decreases self.buf@.len(),
        {
            let ghost cur = self.buf@;
            let ghost lines0 = lines.deep_view();
            let j = match find_nl(self.buf.as_str()) {
                Some(j) => j,
                None => { break ; },
            };
            let mut e = j;
            while e > 0 && self.buf.as_str().get_char(e - 1) == '\r'
                invariant
                    e <= j,
                    self.buf@ == cur,
                    0 <= j < cur.len(),
                    forall|k: int| e <= k < j ==> cur[k] == '\r',
                decreases e,
            {
                e = e - 1;
            }
            proof {
                assert forall|k: int| e <= k < j implies cur.take(j as int)[k] == '\r' by {
                    assert(cur.take(j as int)[k] == cur[k]);
                }
                lemma_strip_cr(cur.take(j as int), e as int);
            }
            let line = self.buf.as_str().substring_char(0, e).to_owned();
            let len = self.buf.as_str().unicode_len();
            let rest = self.buf.as_str().substring_char(j + 1, len).to_owned();
            self.buf = rest;
            proof {
                assert(line@ == strip_cr(cur.take(j as int)));
                assert(self.buf@ == cur.skip(j + 1));
            }
            lines.push(line);
            proof {
                assert(lines.deep_view() =~= lines0.push(strip_cr(cur.take(j as int))));
                assert(complete_lines(cur) == seq![strip_cr(cur.take(j as int))]
                    + complete_lines(cur.skip(j + 1)));
                assert(lines.deep_view() + complete_lines(self.buf@) =~= lines0
                    + complete_lines(cur));
            }
        }
        lines
    }

    /// Drain whatever unterminated text remains, to be classified and
    /// forwarded as a final line when the stream closes. `None` when nothing
    /// is buffered.
    pub fn flush(&mut self) -> (r: Option<String>)
        ensures
            final(self)@ == Seq::<char>::empty(),
            old(self)@.len() > 0 ==> (r matches Some(s) && s@ == old(self)@),
            old(self)@.len() == 0 ==> r is None,
    {
        if self.buf.as_str().is_empty() {
            None
        } else {
            let out = self.buf.clone();
            self.buf = String::new();
            Some(out)
        }
    }
}

} // verus!
