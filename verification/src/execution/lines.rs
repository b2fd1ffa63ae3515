//! Text as lines.

use vstd::prelude::*;

verus! {

/// The position of the next newline, from `from` on, or the end.
pub open spec fn line_end(text: Seq<char>, from: int) -> int
    decreases text.len() - from,
{
    if from < 0 || from >= text.len() || text[from] == '\n' {
        from
    } else {
        line_end(text, from + 1)
    }
}

/// A line without the carriage return that stands before a newline.
pub open spec fn line_text(text: Seq<char>, from: int, end: int) -> Seq<char> {
    if end < text.len() && end > from && text[end - 1] == '\r' {
        text.subrange(from, end - 1)
    } else {
        text.subrange(from, end)
    }
}

/// The lines from `from` on. A newline ends a line; one at the end starts no further line.
pub open spec fn lines_from(text: Seq<char>, from: int) -> Seq<Seq<char>>
    decreases text.len() + 1 - from,
{
    if from < 0 || from >= text.len() {
        Seq::empty()
    } else {
        proof {
            lemma_line_end(text, from);
        }
        seq![line_text(text, from, line_end(text, from))] + lines_from(
            text,
            line_end(text, from) + 1,
        )
    }
}

/// Where a line ends.
pub proof fn lemma_line_end(text: Seq<char>, from: int)
    requires
        0 <= from <= text.len(),
    ensures
        from <= line_end(text, from) <= text.len(),
        forall|k: int| from <= k < line_end(text, from) ==> text[k] != '\n',
        line_end(text, from) < text.len() ==> text[line_end(text, from)] == '\n',
    decreases text.len() - from,
{
    if from < text.len() && text[from] != '\n' {
        lemma_line_end(text, from + 1);
    }
}

/// The lines of a text.
pub fn text_lines(text: &str) -> (r: Vec<String>)
    ensures
        r@.map_values(|s: String| s@) == lines_from(text@, 0),
{
    let len: usize = text.unicode_len();
    let mut lines: Vec<String> = Vec::new();
    let mut from: usize = 0;
    assert(lines@.map_values(|s: String| s@) =~= Seq::<Seq<char>>::empty());
    assert(lines@.map_values(|s: String| s@) + lines_from(text@, 0) =~= lines_from(text@, 0));
    while from < len
        invariant
            len == text@.len(),
            lines@.map_values(|s: String| s@) + lines_from(text@, from as int) == lines_from(
                text@,
                0,
            ),
        decreases len - from,
    {
        let mut end: usize = from;
        while end < len && text.get_char(end) != '\n'
            invariant
                from <= end <= len,
                len == text@.len(),
                line_end(text@, end as int) == line_end(text@, from as int),
            decreases len - end,
        {
            end = end + 1;
        }
        let last: usize = if end < len && end > from && text.get_char(end - 1) == '\r' {
            end - 1
        } else {
            end
        };
        let line = text.substring_char(from, last);
        let ghost before = lines@;
        let ghost tail = lines_from(text@, end as int + 1);
        lines.push(line.to_owned());
        proof {
            assert(line@ == line_text(text@, from as int, end as int));
            assert(lines_from(text@, from as int) == seq![line@] + tail);
            assert(lines@.map_values(|s: String| s@) =~= before.map_values(|s: String| s@).push(
                line@,
            ));
            assert(lines@.map_values(|s: String| s@) + tail =~= before.map_values(
                |s: String| s@,
            ) + (seq![line@] + tail));
        }
        if end == len {
            assert(tail =~= Seq::<Seq<char>>::empty());
            assert(lines@.map_values(|s: String| s@) + tail =~= lines@.map_values(|s: String| s@));
            return lines;
        }
        from = end + 1;
    }
    assert(lines@.map_values(|s: String| s@) + lines_from(text@, from as int)
        =~= lines@.map_values(|s: String| s@));
    lines
}

} // verus!
