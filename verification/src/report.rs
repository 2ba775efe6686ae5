//! The report of an error: the error shown in the line of source code that
//! it refers to.

use vstd::prelude::*;
use crate::error::{message_of, ErrorKind, RuntimeError, SourcePos};
use crate::lexer::chars_of;
use crate::strings::{decimal, push_char, push_decimal, push_text};

verus! {

/// A run of `n` spaces.
pub open spec fn spaces(n: nat) -> Seq<char> {
    Seq::new(n, |i: int| ' ')
}

/// The index of the first line feed of `chars` at or behind `from`, or the
/// length of `chars` if there is none.
pub open spec fn line_end(chars: Seq<char>, from: int) -> int
    decreases chars.len() - from,
{
    if from >= chars.len() {
        chars.len() as int
    } else if chars[from] == '\n' {
        from
    } else {
        line_end(chars, from + 1)
    }
}

/// The index at which line `n` of `chars` begins, lines counted from 0: the
/// index behind the line feed that ends the line before.
pub open spec fn line_start(chars: Seq<char>, n: nat) -> int
    decreases n,
{
    if n == 0 {
        0
    } else {
        line_end(chars, line_start(chars, (n - 1) as nat)) + 1
    }
}

/// The text of the line of `chars` that begins at `from` and ends in front
/// of `end`: a carriage return in front of the line feed is no part of it.
pub open spec fn line_text(chars: Seq<char>, from: int, end: int) -> Seq<char> {
    if from < end < chars.len() && chars[end - 1] == '\r' {
        chars.subrange(from, end - 1)
    } else {
        chars.subrange(from, end)
    }
}

/// Line `n` of `chars`, lines counted from 0, if there are as many. A line
/// feed ends a line; what stands behind the last line feed is a line if it
/// is not empty.
pub open spec fn nth_line(chars: Seq<char>, n: nat) -> Option<Seq<char>> {
    let start = line_start(chars, n);
    if start >= chars.len() {
        None
    } else {
        Some(line_text(chars, start, line_end(chars, start)))
    }
}

/// A number in decimal, with spaces in front of it where it has fewer than
/// five digits.
pub open spec fn padded(n: nat) -> Seq<char> {
    if decimal(n).len() >= 5 {
        decimal(n)
    } else {
        spaces((5 - decimal(n).len()) as nat) + decimal(n)
    }
}

/// The lines that show an error of kind `kind` at `pos` in `source`. An
/// error without a position is shown by its message. An error with a
/// position is shown by its message, the line of the source with its
/// number, a mark under the column, and a line that is empty but for the
/// margin; it is not shown at all if the source has no such line.
pub open spec fn report_lines(kind: ErrorKind, pos: Option<SourcePos>, source: Seq<char>) -> Seq<
    Seq<char>,
> {
    match pos {
        None => seq!["error: "@ + message_of(kind)],
        Some(pos) => if pos.line >= 1 && nth_line(source, (pos.line - 1) as nat) is Some {
            seq![
                "error: "@ + message_of(kind),
                padded(pos.line as nat) + "|"@ + nth_line(source, (pos.line - 1) as nat)->0,
                spaces(5) + "|"@ + spaces(
                    if pos.column == 0 {
                        1
                    } else {
                        pos.column as nat
                    },
                ) + "^"@,
                spaces(5) + "|"@,
            ]
        } else {
            Seq::empty()
        },
    }
}

/// A line end lies at or behind the index that the search for it began at,
/// and within the text.
pub proof fn lemma_line_end_bounds(chars: Seq<char>, from: int)
    requires
        0 <= from,
    ensures
        from <= line_end(chars, from) || chars.len() <= from,
        line_end(chars, from) <= chars.len(),
        line_end(chars, from) < chars.len() ==> chars[line_end(chars, from)] == '\n',
    decreases chars.len() - from,
{
    if from < chars.len() && chars[from] != '\n' {
        lemma_line_end_bounds(chars, from + 1);
    }
}

/// Behind a line that begins at or behind the end of the text, every line
/// begins behind the end of the text.
pub proof fn lemma_no_line_behind_the_last(chars: Seq<char>, n: nat, m: nat)
    requires
        n <= m,
        line_start(chars, n) >= chars.len(),
    ensures
        line_start(chars, m) >= chars.len(),
    decreases m - n,
{
    if n < m {
        lemma_no_line_behind_the_last(chars, n, (m - 1) as nat);
        lemma_line_end_bounds(chars, line_start(chars, (m - 1) as nat));
    }
}

/// Every line begins at or behind the start of the text.
pub proof fn lemma_line_start_bounds(chars: Seq<char>, n: nat)
    ensures
        0 <= line_start(chars, n),
    decreases n,
{
    if n > 0 {
        lemma_line_start_bounds(chars, (n - 1) as nat);
        lemma_line_end_bounds(chars, line_start(chars, (n - 1) as nat));
    }
}

/// Appends `n` spaces to `text`.
fn push_spaces(text: &mut String, n: usize)
    ensures
        final(text)@ == old(text)@ + spaces(n as nat),
{
    let mut count: usize = 0;
    assert(text@ =~= old(text)@ + spaces(0));
    while count < n
        invariant
            count <= n,
            text@ == old(text)@ + spaces(count as nat),
        decreases n - count,
    {
        push_char(text, ' ');
        count = count + 1;
        assert(text@ =~= old(text)@ + spaces(count as nat));
    }
}

/// The index of the first line feed of `chars` at or behind `from`.
fn find_line_end(chars: &Vec<char>, from: usize) -> (end: usize)
    requires
        from <= chars@.len(),
    ensures
        end == line_end(chars@, from as int),
        from <= end <= chars@.len(),
{
    let mut end: usize = from;
    while end < chars.len() && chars[end] != '\n'
        invariant
            from <= end <= chars@.len(),
            line_end(chars@, end as int) == line_end(chars@, from as int),
        decreases chars@.len() - end,
    {
        end = end + 1;
    }
    end
}

/// The index at which line `n` of `chars` begins, if the text has as many
/// lines.
fn find_line_start(chars: &Vec<char>, n: u32) -> (start: Option<usize>)
    ensures
        match start {
            Some(start) => start == line_start(chars@, n as nat) && start < chars@.len(),
            None => line_start(chars@, n as nat) >= chars@.len(),
        },
{
    let mut start: usize = 0;
    let mut line: u32 = 0;
    while line < n
        invariant
            line <= n,
            start == line_start(chars@, line as nat),
            start <= chars@.len(),
        decreases n - line,
    {
        let end = find_line_end(chars, start);
        if end >= chars.len() {
            proof {
                lemma_no_line_behind_the_last(chars@, (line + 1) as nat, n as nat);
            }
            return None;
        }
        start = end + 1;
        line = line + 1;
    }
    if start < chars.len() {
        Some(start)
    } else {
        None
    }
}

impl RuntimeError {
    /// The lines that show the error in `source`, the source code that it
    /// came from.
    pub fn print_with_source(&self, source: &str) -> (lines: Vec<String>)
        ensures
            lines@.map_values(|line: String| line@) == report_lines(
                self.spec_kind(),
                self.spec_pos(),
                source@,
            ),
    {
        let mut lines: Vec<String> = Vec::new();
        let mut head = String::from_str("error: ");
        let message = self.message();
        push_text(&mut head, message.as_str());
        match self.error_pos() {
            None => {
                lines.push(head);
                assert(lines@.map_values(|line: String| line@) =~= report_lines(
                    self.spec_kind(),
                    self.spec_pos(),
                    source@,
                ));
            },
            Some(pos) => {
                if pos.line == 0 {
                    assert(lines@.map_values(|line: String| line@) =~= report_lines(
                        self.spec_kind(),
                        self.spec_pos(),
                        source@,
                    ));
                    return lines;
                }
                let chars = chars_of(source);
                match find_line_start(&chars, pos.line - 1) {
                    None => {
                        assert(lines@.map_values(|line: String| line@) =~= report_lines(
                            self.spec_kind(),
                            self.spec_pos(),
                            source@,
                        ));
                    },
                    Some(start) => {
                        let end = find_line_end(&chars, start);
                        let stop: usize = if end < chars.len() && start < end && chars[end - 1]
                            == '\r' {
                            end - 1
                        } else {
                            end
                        };
                        let mut shown = String::new();
                        let digits = digits_of(pos.line);
                        if digits < 5 {
                            push_spaces(&mut shown, 5 - digits);
                        }
                        push_decimal(&mut shown, pos.line as usize);
                        push_text(&mut shown, "|");
                        let ghost margin = shown@;
                        let mut index: usize = start;
                        while index < stop
                            invariant
                                start <= index <= stop <= chars@.len(),
                                shown@ == margin + chars@.subrange(start as int, index as int),
                            decreases stop - index,
                        {
                            push_char(&mut shown, chars[index]);
                            index = index + 1;
                            assert(shown@ =~= margin + chars@.subrange(
                                start as int,
                                index as int,
                            ));
                        }
                        let mut mark = String::new();
                        push_spaces(&mut mark, 5);
                        push_text(&mut mark, "|");
                        let width: usize = if pos.column == 0 {
                            1
                        } else {
                            pos.column as usize
                        };
                        push_spaces(&mut mark, width);
                        push_text(&mut mark, "^");
                        let mut rest = String::new();
                        push_spaces(&mut rest, 5);
                        push_text(&mut rest, "|");
                        proof {
                            assert(margin =~= padded(pos.line as nat) + "|"@);
                            assert(chars@.subrange(start as int, stop as int) == line_text(
                                chars@,
                                start as int,
                                end as int,
                            ));
                        }
                        lines.push(head);
                        lines.push(shown);
                        lines.push(mark);
                        lines.push(rest);
                        assert(lines@.map_values(|line: String| line@) =~= report_lines(
                            self.spec_kind(),
                            self.spec_pos(),
                            source@,
                        ));
                    },
                }
            },
        }
        lines
    }
}

/// The count of the decimal digits of a number.
fn digits_of(n: u32) -> (count: usize)
    ensures
        count == decimal(n as nat).len(),
        1 <= count <= 10,
{
    let mut count: usize = 1;
    let mut rest: u32 = n;
    proof {
        lemma_decimal_len(n as nat);
    }
    while rest >= 10
        invariant
            1 <= count,
            count + decimal(rest as nat).len() == decimal(n as nat).len() + 1,
            decimal(n as nat).len() <= 10,
        decreases rest,
    {
        proof {
            reveal_with_fuel(decimal, 2);
        }
        rest = rest / 10;
        count = count + 1;
    }
    proof {
        reveal_with_fuel(decimal, 2);
    }
    count
}

/// A number below `2^32` has ten decimal digits at most.
proof fn lemma_decimal_len(n: nat)
    requires
        n <= u32::MAX,
    ensures
        1 <= decimal(n).len() <= 10,
{
    reveal_with_fuel(decimal, 11);
}

} // verus!
