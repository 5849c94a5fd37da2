//! The beginning of a long text.

use crate::text::to_chars;
use vstd::prelude::*;

verus! {

/// How many lines a text has, the last of them with or without a line feed at its end.
pub open spec fn line_count(text: Seq<char>) -> nat
    decreases text.len(),
{
    if text.len() == 0 {
        0
    } else if starts_line(text.drop_last()) {
        line_count(text.drop_last()) + 1
    } else {
        line_count(text.drop_last())
    }
}

/// Whether the next character after `text` stands at the start of a line.
pub open spec fn starts_line(text: Seq<char>) -> bool {
    text.len() == 0 || text.last() == '\n'
}

/// Whether `part` is the longest beginning of `text` that has no more than `max_lines` lines.
pub open spec fn is_preview(part: Seq<char>, text: Seq<char>, max_lines: nat) -> bool {
    &&& part.is_prefix_of(text)
    &&& line_count(part) <= max_lines
    &&& forall|k: int|
        part.len() < k <= text.len() ==> line_count(#[trigger] text.take(k)) > max_lines
}

proof fn lemma_line_count_grows(text: Seq<char>, i: int, k: int)
    requires
        0 <= i <= k <= text.len(),
    ensures
        line_count(text.take(i)) <= line_count(text.take(k)),
    decreases k,
{
    if i < k {
        assert(text.take(k).drop_last() =~= text.take(k - 1));
        lemma_line_count_grows(text, i, k - 1);
    }
}

/// The first lines of a text, and whether there are more.
pub fn preview_slice(text: &str, max_lines: usize) -> (preview: (&str, bool))
    ensures
        is_preview(preview.0@, text@, max_lines as nat),
        preview.1 <==> line_count(text@) > max_lines,
{
    let chars: Vec<char> = to_chars(text);
    let mut lines: usize = 0;
    let mut at_start: bool = true;
    for i in 0..chars.len()
        invariant
            chars@ == text@,
            lines == line_count(text@.take(i as int)),
            lines <= max_lines,
            at_start == starts_line(text@.take(i as int)),
    {
        assert(text@.take(i + 1).drop_last() =~= text@.take(i as int));
        if at_start {
            if lines == max_lines {
                let part: &str = text.substring_char(0, i);
                proof {
                    assert(part@ =~= text@.take(i as int));
                    assert forall|k: int| part@.len() < k <= text@.len() implies line_count(
                        #[trigger] text@.take(k),
                    ) > max_lines by {
                        lemma_line_count_grows(text@, i + 1, k);
                    }
                    assert(text@.take(text@.len() as int) =~= text@);
                }
                return (part, true);
            }
            lines += 1;
        }
        at_start = chars[i] == '\n';
    }
    assert(text@.take(text@.len() as int) =~= text@);
    (text, false)
}

/// A preview has as many lines as it may, or all of them, and is the whole text if all of them.
pub proof fn law_preview_fills_its_lines(part: Seq<char>, text: Seq<char>, max_lines: nat)
    requires
        is_preview(part, text, max_lines),
    ensures
        line_count(part) == if line_count(text) < max_lines {
            line_count(text)
        } else {
            max_lines
        },
        line_count(text) <= max_lines <==> part == text,
{
    assert(part =~= text.take(part.len() as int));
    assert(text.take(text.len() as int) =~= text);
    if part.len() < text.len() {
        let k = part.len() as int + 1;
        let next = text.take(k);
        assert(next.drop_last() =~= part);
        lemma_line_count_grows(text, k, text.len() as int);
    }
}

} // verus!
