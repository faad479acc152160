//! The engine's flags, which are set once before it starts.

use vstd::prelude::*;

use crate::error::plain_error;
use crate::error::ErrorClass;
use crate::error::RubyError;
use crate::text::is_white;
use crate::text::white;

verus! {

/// A flag as it is written on a command line: with a value or without.
pub open spec fn flag_text(flag: (String, Option<String>)) -> Seq<char> {
    match flag.1 {
        Some(value) => " --"@ + flag.0@ + "="@ + value@,
        None => " --"@ + flag.0@,
    }
}

/// Flags one after the other.
pub open spec fn flags_text(flags: Seq<(String, Option<String>)>) -> Seq<char>
    decreases flags.len(),
{
    if flags.len() == 0 {
        seq![]
    } else {
        flags_text(flags.drop_last()) + flag_text(flags.last())
    }
}

/// A text without the white space at its two ends.
pub open spec fn trimmed(text: Seq<char>) -> Seq<char>
    decreases text.len(),
{
    if text.len() == 0 {
        text
    } else if is_white(text[0]) {
        trimmed(text.skip(1))
    } else if is_white(text.last()) {
        trimmed(text.drop_last())
    } else {
        text
    }
}

fn trim(text: &String) -> (out: String)
    ensures
        out@ == trimmed(text@),
{
    let s = text.as_str();
    let length: usize = s.unicode_len();
    let mut from: usize = 0;
    let mut to: usize = length;
    assert(s@.subrange(0, length as int) =~= s@);
    while from < to && white(s.get_char(from))
        invariant
            from <= to <= s@.len(),
            to == length,
            length == s@.len(),
            trimmed(s@.subrange(from as int, to as int)) == trimmed(s@),
        decreases to - from,
    {
        assert(s@.subrange(from as int, to as int).skip(1) =~= s@.subrange(from + 1, to as int));
        from = from + 1;
    }
    while from < to && white(s.get_char(to - 1))
        invariant
            from <= to <= s@.len(),
            from < to ==> !is_white(s@[from as int]),
            trimmed(s@.subrange(from as int, to as int)) == trimmed(s@),
        decreases to - from,
    {
        assert(s@.subrange(from as int, to as int).drop_last() =~= s@.subrange(
            from as int,
            to - 1,
        ));
        to = to - 1;
    }
    s.substring_char(from, to).to_owned()
}

/// The flags as the engine takes them, unless it has been started already.
pub fn platform_set_flags(started: bool, flags: Vec<(String, Option<String>)>) -> (out: Result<
    String,
    RubyError,
>)
    ensures
        if started {
            out matches Err(error) && error@ == plain_error(
                ErrorClass::PlatformAlreadyInitialized,
                "the V8 platform is already initialized; set flags before the first Isolate.new"@,
            )
        } else {
            out matches Ok(text) && text@ == trimmed(flags_text(flags@))
        },
{
    if started {
        return Err(
            RubyError::plain(
                ErrorClass::PlatformAlreadyInitialized,
                "the V8 platform is already initialized; set flags before the first Isolate.new".to_owned(),
            ),
        );
    }
    let mut text: String = String::new();
    let mut i: usize = 0;
    assert(flags@.take(0) =~= seq![]);
    while i < flags.len()
        invariant
            i <= flags@.len(),
            text@ == flags_text(flags@.take(i as int)),
        decreases flags@.len() - i,
    {
        let ghost before = text@;
        assert(flags@.take(i + 1).drop_last() =~= flags@.take(i as int));
        text.append(" --");
        text.append(flags[i].0.as_str());
        if let Some(value) = &flags[i].1 {
            text.append("=");
            text.append(value.as_str());
        }
        assert(text@ =~= before + flag_text(flags@[i as int]));
        i = i + 1;
    }
    assert(flags@.take(i as int) =~= flags@);
    Ok(trim(&text))
}

/// Each flag is written behind those before it: two dashes, its name, and its value
/// behind an equals sign if it has one.
pub proof fn law_flags_are_written_in_order(
    flags: Seq<(String, Option<String>)>,
    name: String,
    value: String,
)
    ensures
        flags_text(flags.push((name, Some(value)))) == flags_text(flags) + " --"@ + name@ + "="@
            + value@,
        flags_text(flags.push((name, None))) == flags_text(flags) + " --"@ + name@,
        flags_text(seq![]) == Seq::<char>::empty(),
{
    assert(flags.push((name, Some(value))).drop_last() =~= flags);
    assert(flags.push((name, None)).drop_last() =~= flags);
    assert(flags_text(flags.push((name, Some(value)))) =~= flags_text(flags) + " --"@ + name@
        + "="@ + value@);
    assert(flags_text(flags.push((name, None))) =~= flags_text(flags) + " --"@ + name@);
}

/// Trimming takes white space off the two ends and nothing else: what is left stands
/// in the text, with nothing but white space around it, and neither starts nor ends
/// with any.
pub proof fn law_trimming_takes_white_space_only(text: Seq<char>) -> (from: int)
    ensures
        0 <= from <= from + trimmed(text).len() <= text.len(),
        trimmed(text) == text.subrange(from, from + trimmed(text).len()),
        forall|i: int|
            0 <= i < text.len() && !(from <= i < from + trimmed(text).len()) ==> is_white(
                #[trigger] text[i],
            ),
        trimmed(text).len() > 0 ==> !is_white(trimmed(text)[0]) && !is_white(trimmed(text).last()),
    decreases text.len(),
{
    if text.len() == 0 {
        assert(trimmed(text) =~= text.subrange(0, 0));
        0
    } else if is_white(text[0]) {
        let rest = text.skip(1);
        let from = law_trimming_takes_white_space_only(rest);
        let n = trimmed(rest).len();
        assert(text.subrange(from + 1, from + 1 + n) =~= rest.subrange(from, from + n));
        assert forall|i: int|
            0 <= i < text.len() && !(from + 1 <= i < from + 1 + n) implies is_white(
            #[trigger] text[i],
        ) by {
            if i > 0 {
                assert(text[i] == rest[i - 1]);
            }
        }
        from + 1
    } else if is_white(text.last()) {
        let rest = text.drop_last();
        let from = law_trimming_takes_white_space_only(rest);
        let n = trimmed(rest).len();
        assert(text.subrange(from, from + n) =~= rest.subrange(from, from + n));
        assert forall|i: int| 0 <= i < text.len() && !(from <= i < from + n) implies is_white(
            #[trigger] text[i],
        ) by {
            if i < text.len() - 1 {
                assert(text[i] == rest[i]);
            }
        }
        from
    } else {
        assert(text.subrange(0, text.len() as int) =~= text);
        0
    }
}

} // verus!
