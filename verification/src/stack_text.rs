//! The text of a script's stack, as lines of a Ruby backtrace.

use vstd::prelude::*;

use crate::text::is_white;
use crate::text::white;
use crate::watchdog::texts;

verus! {

/// Where the text from `from` up to `to` starts once white space is taken off
/// its front.
pub open spec fn trimmed_start(s: Seq<char>, from: int, to: int) -> int
    decreases to - from,
{
    if from >= to || !is_white(s[from]) {
        from
    } else {
        trimmed_start(s, from + 1, to)
    }
}

/// Where the text from `from` up to `to` ends once white space is taken off its
/// end.
pub open spec fn trimmed_end(s: Seq<char>, from: int, to: int) -> int
    decreases to - from,
{
    if to <= from || !is_white(s[to - 1]) {
        to
    } else {
        trimmed_end(s, from, to - 1)
    }
}

/// Where a line ends: at a line feed, or at the end of the text.
pub open spec fn line_end(s: Seq<char>, from: int) -> int
    decreases s.len() - from,
{
    if from < 0 || from >= s.len() || s[from] == '\n' {
        from
    } else {
        line_end(s, from + 1)
    }
}

/// Where a space with an opening parenthesis behind it first stands in the text
/// from `from` up to `to`; `to` if nowhere.
pub open spec fn paren_at(s: Seq<char>, from: int, to: int) -> int
    decreases to - from,
{
    if from + 1 >= to {
        to
    } else if s[from] == ' ' && s[from + 1] == '(' {
        from
    } else {
        paren_at(s, from + 1, to)
    }
}

/// A frame as a line of a backtrace. A function with a place in parentheses
/// behind it becomes the place and then the function; anything else stays as it
/// is.
pub open spec fn frame_of(frame: Seq<char>) -> Seq<char> {
    let n = frame.len() as int;
    let open = paren_at(frame, 0, n);
    if n > 0 && frame.last() == ')' && open < n {
        frame.subrange(open + 2, n - 1) + ":in '"@ + frame.subrange(0, open) + "'"@
    } else {
        frame
    }
}

/// The line of a backtrace that stands for one line of the engine's text, if it
/// is a frame: `at` and a space in front, and something behind them.
pub open spec fn line_frame(s: Seq<char>, from: int, to: int) -> Option<Seq<char>> {
    let start = trimmed_start(s, from, to);
    let end = trimmed_end(s, start, to);
    if end - start > 3 && s[start] == 'a' && s[start + 1] == 't' && s[start + 2] == ' ' {
        Some(frame_of(s.subrange(start + 3, end)))
    } else {
        None
    }
}

/// The lines of a backtrace, from the line at `from` on.
pub open spec fn frames_from(s: Seq<char>, from: int) -> Seq<Seq<char>>
    decreases s.len() - from,
{
    let end = line_end(s, from);
    if from < 0 || from >= s.len() || end < from {
        seq![]
    } else {
        let rest = if end < s.len() {
            frames_from(s, end + 1)
        } else {
            seq![]
        };
        match line_frame(s, from, end) {
            Some(frame) => seq![frame] + rest,
            None => rest,
        }
    }
}

/// The text of a script's stack as lines of a Ruby backtrace. What is no frame,
/// such as the error's message, is left out.
pub open spec fn js_frames(stack: Seq<char>) -> Seq<Seq<char>> {
    frames_from(stack, 0)
}

/// The characters of a text.
fn char_vec(text: &str) -> (chars: Vec<char>)
    ensures
        chars@ == text@,
{
    let mut chars: Vec<char> = Vec::new();
    for c in it: text.chars()
        invariant
            it.seq() == text@,
            chars@ == text@.take(it.index()),
    {
        chars.push(c);
        assert(chars@ =~= text@.take(it.index() + 1));
    }
    assert(text@.take(text@.len() as int) =~= text@);
    chars
}

/// A frame as a line of a backtrace; it stands at `text[from..to]`.
fn frame_line(text: &str, chars: &Vec<char>, from: usize, to: usize) -> (line: String)
    requires
        chars@ == text@,
        from < to <= chars@.len(),
    ensures
        line@ == frame_of(text@.subrange(from as int, to as int)),
{
    let ghost frame = text@.subrange(from as int, to as int);
    let mut open: usize = from;
    while open + 1 < to && !(chars[open] == ' ' && chars[open + 1] == '(')
        invariant
            chars@ == text@,
            from <= open < to <= chars@.len(),
            frame == text@.subrange(from as int, to as int),
            paren_at(frame, open - from, to - from) == paren_at(frame, 0, to - from),
        decreases to - open,
    {
        assert(frame[open - from] == chars@[open as int]);
        assert(frame[open + 1 - from] == chars@[open + 1]);
        open = open + 1;
    }
    assert(frame.last() == chars@[to - 1]);
    if chars[to - 1] == ')' && open + 1 < to {
        assert(frame[open - from] == chars@[open as int]);
        assert(frame[open + 1 - from] == chars@[open + 1]);
        assert(open + 2 < to) by {
            assert(chars@[to - 1] == ')');
        }
        let mut line: String = text.substring_char(open + 2, to - 1).to_owned();
        line.append(":in '");
        line.append(text.substring_char(from, open));
        line.append("'");
        assert(frame.subrange(open - from + 2, to - from - 1) =~= text@.subrange(
            open + 2,
            to - 1,
        ));
        assert(frame.subrange(0, open - from) =~= text@.subrange(from as int, open as int));
        assert(line@ =~= frame_of(frame));
        line
    } else {
        text.substring_char(from, to).to_owned()
    }
}

/// The text of a script's stack as lines of a Ruby backtrace.
pub fn parse_js_stack(stack: &str) -> (lines: Vec<String>)
    ensures
        texts(lines@) == js_frames(stack@),
{
    let chars = char_vec(stack);
    let n: usize = chars.len();
    let mut lines: Vec<String> = Vec::new();
    let mut from: usize = 0;
    assert(texts(lines@) =~= seq![]);
    assert(texts(lines@) + frames_from(stack@, 0) =~= js_frames(stack@));
    while from < n
        invariant
            chars@ == stack@,
            n == chars@.len(),
            from <= n,
            texts(lines@) + frames_from(stack@, from as int) == js_frames(stack@),
        decreases n - from,
    {
        let mut end: usize = from;
        while end < n && chars[end] != '\n'
            invariant
                chars@ == stack@,
                n == chars@.len(),
                from <= end <= n,
                line_end(stack@, end as int) == line_end(stack@, from as int),
            decreases n - end,
        {
            end = end + 1;
        }
        let mut start: usize = from;
        while start < end && white(chars[start])
            invariant
                chars@ == stack@,
                from <= start <= end <= chars@.len(),
                trimmed_start(stack@, start as int, end as int) == trimmed_start(
                    stack@,
                    from as int,
                    end as int,
                ),
            decreases end - start,
        {
            start = start + 1;
        }
        let mut stop: usize = end;
        while stop > start && white(chars[stop - 1])
            invariant
                chars@ == stack@,
                from <= start <= stop <= end <= chars@.len(),
                trimmed_end(stack@, start as int, stop as int) == trimmed_end(
                    stack@,
                    start as int,
                    end as int,
                ),
            decreases stop - start,
        {
            stop = stop - 1;
        }
        let ghost before = lines@;
        let ghost rest = if end < n {
            frames_from(stack@, end + 1)
        } else {
            seq![]
        };
        if stop - start > 3 && chars[start] == 'a' && chars[start + 1] == 't' && chars[start + 2]
            == ' ' {
            let line = frame_line(stack, &chars, start + 3, stop);
            lines.push(line);
            assert(texts(lines@) =~= texts(before).push(line@));
            assert(texts(lines@) + rest =~= texts(before) + (seq![line@] + rest));
        } else {
            assert(texts(lines@) + rest =~= texts(before) + rest);
        }
        if end == n {
            assert(texts(lines@) =~= texts(lines@) + rest);
            return lines;
        }
        from = end + 1;
    }
    assert(texts(lines@) + seq![] =~= texts(lines@));
    lines
}

proof fn lemma_paren_at(s: Seq<char>, from: int, at: int, to: int)
    requires
        from <= at,
        at + 1 < to,
        s[at] == ' ' && s[at + 1] == '(',
        forall|i: int| from <= i < at ==> !(#[trigger] s[i] == ' ' && s[i + 1] == '('),
    ensures
        paren_at(s, from, to) == at,
    decreases at - from,
{
    if from < at {
        assert(!(s[from] == ' ' && s[from + 1] == '('));
        lemma_paren_at(s, from + 1, at, to);
    }
}

/// A frame with a function becomes the place and then the function, as Ruby writes
/// it; a frame without one stays as it is.
pub proof fn law_frames_read_like_ruby(function: Seq<char>, place: Seq<char>, plain: Seq<char>)
    requires
        forall|i: int|
            0 <= i < function.len() ==> !(#[trigger] function[i] == ' ' && (if i + 1
                < function.len() {
                function[i + 1]
            } else {
                ' '
            }) == '('),
        plain.len() == 0 || plain.last() != ')',
    ensures
        frame_of(function + seq![' ', '('] + place + seq![')']) == place + ":in '"@ + function + "'"@,
        frame_of(plain) == plain,
{
    let frame = function + seq![' ', '('] + place + seq![')'];
    let n = frame.len() as int;
    let at = function.len() as int;
    assert forall|i: int| 0 <= i < at implies !(#[trigger] frame[i] == ' ' && frame[i + 1] == '(') by {
        assert(frame[i] == function[i]);
        if i + 1 < at {
            assert(frame[i + 1] == function[i + 1]);
        } else {
            assert(frame[i + 1] == ' ');
        }
    }
    assert(frame[at] == ' ' && frame[at + 1] == '(');
    lemma_paren_at(frame, 0, at, n);
    assert(frame.last() == ')');
    assert(frame.subrange(at + 2, n - 1) =~= place);
    assert(frame.subrange(0, at) =~= function);
}

/// A line of the engine's text that starts with `at` and a space, behind any white
/// space, is a frame; any other line is left out. The lines are taken in order, up
/// to the end of the text.
pub proof fn law_lines_are_taken_in_order(
    s: Seq<char>,
    from: int,
    start: int,
    stop: int,
    end: int,
)
    requires
        0 <= from <= start <= stop <= end <= s.len(),
        from < s.len(),
        end < s.len() ==> s[end] == '\n',
        forall|i: int| from <= i < end ==> #[trigger] s[i] != '\n',
        forall|i: int| from <= i < start ==> is_white(#[trigger] s[i]),
        forall|i: int| stop <= i < end ==> is_white(#[trigger] s[i]),
        start < stop ==> !is_white(s[start]) && !is_white(s[stop - 1]),
        start == stop ==> start == end,
    ensures
        ({
            let rest = if end < s.len() {
                frames_from(s, end + 1)
            } else {
                seq![]
            };
            let is_frame = stop - start > 3 && s[start] == 'a' && s[start + 1] == 't' && s[start
                + 2] == ' ';
            &&& is_frame ==> frames_from(s, from) == seq![frame_of(s.subrange(start + 3, stop))]
                + rest
            &&& !is_frame ==> frames_from(s, from) == rest
        }),
{
    lemma_line_end(s, from, end);
    lemma_trimmed_start(s, from, start, end);
    lemma_trimmed_end(s, start, stop, end);
}

proof fn lemma_line_end(s: Seq<char>, from: int, end: int)
    requires
        0 <= from <= end <= s.len(),
        end < s.len() ==> s[end] == '\n',
        forall|i: int| from <= i < end ==> #[trigger] s[i] != '\n',
    ensures
        line_end(s, from) == end,
    decreases end - from,
{
    if from < end {
        assert(s[from] != '\n');
        lemma_line_end(s, from + 1, end);
    }
}

proof fn lemma_trimmed_start(s: Seq<char>, from: int, start: int, end: int)
    requires
        0 <= from <= start <= end <= s.len(),
        forall|i: int| from <= i < start ==> is_white(#[trigger] s[i]),
        start < end ==> !is_white(s[start]),
    ensures
        trimmed_start(s, from, end) == start,
    decreases start - from,
{
    if from < start {
        assert(is_white(s[from]));
        lemma_trimmed_start(s, from + 1, start, end);
    }
}

proof fn lemma_trimmed_end(s: Seq<char>, start: int, stop: int, end: int)
    requires
        0 <= start <= stop <= end <= s.len(),
        forall|i: int| stop <= i < end ==> is_white(#[trigger] s[i]),
        start < stop ==> !is_white(s[stop - 1]),
    ensures
        trimmed_end(s, start, end) == stop,
    decreases end - stop,
{
    if stop < end {
        assert(is_white(s[end - 1]));
        lemma_trimmed_end(s, start, stop, end - 1);
    }
}

} // verus!
