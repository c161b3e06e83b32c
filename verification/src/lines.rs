//! Splitting text into its lines.

use crate::strings::views;
use vstd::prelude::*;
use vstd::string::StrSliceExecFns;

verus! {

/// The place of the first line feed at or after `from`, or the length of
/// `text` where none follows.
pub open spec fn line_end(text: Seq<char>, from: int) -> int
    decreases text.len() - from,
{
    if from < 0 || from >= text.len() || text[from] == '\n' {
        from
    } else {
        line_end(text, from + 1)
    }
}

/// `line` without the carriage return that it ends with, if it ends with one.
pub open spec fn without_cr(line: Seq<char>) -> Seq<char> {
    if line.len() > 0 && line.last() == '\r' {
        line.drop_last()
    } else {
        line
    }
}

/// The lines of `text` that start at or after `from`, where a line starts at
/// `from`.
pub open spec fn lines_from(text: Seq<char>, from: int) -> Seq<Seq<char>>
    decreases text.len() - from,
{
    if from < 0 || from >= text.len() {
        seq![]
    } else {
        let end = line_end(text, from);
        if end < text.len() {
            proof {
                lemma_line_end(text, from);
            }
            seq![without_cr(text.subrange(from, end))] + lines_from(text, end + 1)
        } else {
            seq![text.subrange(from, text.len() as int)]
        }
    }
}

/// The lines of `text`. A line ends at a line feed, or at a carriage return
/// directly before one; neither belongs to the line. The last line needs no
/// line feed, and what has no line feed after it is a line as it stands;
/// after the last line feed an empty rest is no line.
pub open spec fn lines_of(text: Seq<char>) -> Seq<Seq<char>> {
    lines_from(text, 0)
}

/// `line_end` lies between `from` and the end of the text, on a line feed
/// unless it is the end, and no line feed lies before it.
pub proof fn lemma_line_end(text: Seq<char>, from: int)
    requires
        0 <= from <= text.len(),
    ensures
        from <= line_end(text, from) <= text.len(),
        line_end(text, from) < text.len() ==> text[line_end(text, from)] == '\n',
        forall|k: int| from <= k < line_end(text, from) ==> text[k] != '\n',
    decreases text.len() - from,
{
    if from < text.len() && text[from] != '\n' {
        lemma_line_end(text, from + 1);
    }
}

/// Where no line feed lies between `from` and `at`, the line that starts at
/// `from` ends where the one that starts at `at` ends.
pub proof fn lemma_line_end_skips(text: Seq<char>, from: int, at: int)
    requires
        0 <= from <= at <= text.len(),
        forall|k: int| from <= k < at ==> text[k] != '\n',
    ensures
        line_end(text, from) == line_end(text, at),
    decreases at - from,
{
    if from < at {
        lemma_line_end_skips(text, from + 1, at);
    }
}

/// Splits `text` into its lines.
pub fn split_lines(text: &str) -> (lines: Vec<String>)
    ensures
        views(lines@) == lines_of(text@),
{
    let total = text.unicode_len();
    let mut lines: Vec<String> = Vec::new();
    let mut start: usize = 0;
    let mut at: usize = 0;
    let mut after_cr = false;
    for c in it: text.chars()
        invariant
            it.seq() == text@,
            total == text@.len(),
            at == it.index(),
            start <= at <= total,
            after_cr == (start < at && text@[at - 1] == '\r'),
            forall|k: int| start <= k < at ==> text@[k] != '\n',
            views(lines@) + lines_from(text@, start as int) == lines_of(text@),
    {
        assert(c == text@[at as int]);
        if c == '\n' {
            let end = if after_cr {
                at - 1
            } else {
                at
            };
            let line = text.substring_char(start, end).to_owned();
            proof {
                lemma_line_end_skips(text@, start as int, at as int);
                assert(line_end(text@, start as int) == at);
                assert(line@ == without_cr(text@.subrange(start as int, at as int)));
                assert(views(lines@.push(line)) == views(lines@).push(line@));
            }
            lines.push(line);
            start = at + 1;
        }
        after_cr = c == '\r';
        at = at + 1;
    }
    if start < at {
        let line = text.substring_char(start, at).to_owned();
        proof {
            lemma_line_end_skips(text@, start as int, at as int);
            assert(views(lines@.push(line)) == views(lines@).push(line@));
        }
        lines.push(line);
    }
    lines
}

} // verus!
