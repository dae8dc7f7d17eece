//! Turns subtitle entries into three parallel arrays: identifiers, time ranges
//! and texts with line breaks marked.
use vstd::prelude::*;
use crate::subtitle_combiner::SubtitleError;
use crate::text::{push_char, replace, replace_str};
use crate::NEWLINE_MARK;
use vstd::string::StringExecFns;

verus! {

/// One subtitle entry: when it is shown, in milliseconds, and its text.
#[derive(Debug)]
pub struct Entry {
    pub start_ms: i64,
    pub end_ms: i64,
    pub line: Option<String>,
}

/// The decimal digit for `d`.
pub open spec fn digit(d: int) -> char {
    if d <= 0 { '0' } else if d == 1 { '1' } else if d == 2 { '2' } else if d == 3 { '3' }
    else if d == 4 { '4' } else if d == 5 { '5' } else if d == 6 { '6' } else if d == 7 { '7' }
    else if d == 8 { '8' } else { '9' }
}

/// `n` written in decimal, without leading zeros.
pub open spec fn decimal(n: nat) -> Seq<char>
    decreases n,
{
    if n < 10 {
        seq![digit(n as int)]
    } else {
        decimal(n / 10).push(digit((n % 10) as int))
    }
}

/// `n` in decimal, with leading zeros up to `width` digits.
pub open spec fn zero_padded(n: nat, width: nat) -> Seq<char> {
    let d = decimal(n);
    if d.len() < width {
        Seq::new((width - d.len()) as nat, |i: int| '0') + d
    } else {
        d
    }
}

/// A time point in milliseconds as `[-]H:MM:SS.mmm`.
pub open spec fn clock_text(ms: int) -> Seq<char> {
    let t = if ms < 0 { -ms } else { ms };
    (if ms < 0 { seq!['-'] } else { Seq::empty() }) + decimal((t / 3600000) as nat) + seq![':']
        + zero_padded(((t / 60000) % 60) as nat, 2) + seq![':'] + zero_padded(
        ((t / 1000) % 60) as nat,
        2,
    ) + seq!['.'] + zero_padded((t % 1000) as nat, 3)
}

/// The time range of an entry, `<start> --> <end>`.
pub open spec fn time_range(e: Entry) -> Seq<char> {
    clock_text(e.start_ms as int) + seq![' ', '-', '-', '>', ' '] + clock_text(e.end_ms as int)
}

/// An entry's text with each line break replaced by the line-break mark.
pub open spec fn marked_text(line: Seq<char>) -> Seq<char> {
    replace(line, seq!['\n'], NEWLINE_MARK@)
}

/// Whether the time points of the entries can be written (their negation fits).
pub open spec fn times_in_range(entries: Seq<Entry>) -> bool {
    forall|i: int| 0 <= i < entries.len() ==> #[trigger] entries[i].start_ms > i64::MIN
        && entries[i].end_ms > i64::MIN
}

/// Relies on the `Display` of `subparse::timetypes::TimePoint`, which writes
/// the sign, the hours, then minutes and seconds with two digits and
/// milliseconds with three.
#[verifier::external_body]
fn time_point_text(ms: i64) -> (r: String)
    requires
        ms > i64::MIN,
    ensures
        r@ == clock_text(ms as int),
{
    subparse::timetypes::TimePoint::from_msecs(ms).to_string()
}

fn digit_char(d: usize) -> (c: char)
    requires
        d < 10,
    ensures
        c == digit(d as int),
{
    match d {
        0 => '0',
        1 => '1',
        2 => '2',
        3 => '3',
        4 => '4',
        5 => '5',
        6 => '6',
        7 => '7',
        8 => '8',
        _ => '9',
    }
}

/// `n` written in decimal.
pub fn decimal_string(n: usize) -> (r: String)
    ensures
        r@ == decimal(n as nat),
    decreases n,
{
    if n < 10 {
        let mut s = String::new();
        push_char(&mut s, digit_char(n));
        s
    } else {
        let mut s = decimal_string(n / 10);
        push_char(&mut s, digit_char(n % 10));
        s
    }
}

/// `x` holds, for every entry in order, its identifier (its position counted
/// from 1), its time range and its marked text; every entry has a text.
pub open spec fn extracts(entries: Seq<Entry>, x: SubtitleExtractor) -> bool {
    &&& x.number_info@.len() == entries.len()
    &&& x.time_info@.len() == entries.len()
    &&& x.text_info@.len() == entries.len()
    &&& forall|i: int|
        0 <= i < entries.len() ==> {
            &&& (#[trigger] entries[i]).line is Some
            &&& x.number_info@[i]@ == decimal((i + 1) as nat)
            &&& x.time_info@[i]@ == time_range(entries[i])
            &&& x.text_info@[i]@ == marked_text(entries[i].line->0@)
        }
}

/// Entry `i` is the first one without text.
pub open spec fn first_missing(entries: Seq<Entry>, i: int) -> bool {
    &&& 0 <= i < entries.len()
    &&& entries[i].line is None
    &&& forall|j: int| 0 <= j < i ==> (#[trigger] entries[j]).line is Some
}

/// The three parallel arrays of a document's entries.
#[derive(Debug)]
pub struct SubtitleExtractor {
    pub time_info: Vec<String>,
    pub text_info: Vec<String>,
    pub number_info: Vec<String>,
}

impl SubtitleExtractor {
    pub fn new() -> (r: Self)
        ensures
            r.time_info@.len() == 0,
            r.text_info@.len() == 0,
            r.number_info@.len() == 0,
    {
        SubtitleExtractor { time_info: Vec::new(), text_info: Vec::new(), number_info: Vec::new() }
    }

    /// The time range of an entry, `<start> --> <end>`.
    pub fn format_time_info(entry: &Entry) -> (r: String)
        requires
            entry.start_ms > i64::MIN,
            entry.end_ms > i64::MIN,
        ensures
            r@ == time_range(*entry),
    {
        let mut s = time_point_text(entry.start_ms);
        s.append(" --> ");
        let end = time_point_text(entry.end_ms);
        s.append(end.as_str());
        proof {
            reveal_strlit(" --> ");
        }
        assert(s@ =~= time_range(*entry));
        s
    }

    /// The entry's text with line breaks marked, if it has one.
    pub fn process_text_info(entry: &Entry) -> (r: Option<String>)
        ensures
            match entry.line {
                Some(l) => r is Some && r->0@ == marked_text(l@),
                None => r is None,
            },
    {
        proof {
            reveal_strlit("\n");
            assert("\n"@ =~= seq!['\n']);
        }
        match &entry.line {
            Some(l) => Some(replace_str(l.as_str(), "\n", NEWLINE_MARK)),
            None => None,
        }
    }

    /// Extracts identifiers (`1`, `2`, ...), time ranges and marked texts;
    /// fails at the first entry without text.
    pub fn extractor(entries: &Vec<Entry>) -> (r: Result<Self, SubtitleError>)
        requires
            times_in_range(entries@),
        ensures
            match r {
                Ok(x) => extracts(entries@, x),
                Err(e) => exists|i: int| first_missing(entries@, i) && e == SubtitleError::MissingText(i as usize),
            },
    {
        let mut x = SubtitleExtractor::new();
        let mut index: usize = 0;
        while index < entries.len()
            invariant
                times_in_range(entries@),
                index <= entries@.len(),
                x.number_info@.len() == index,
                x.time_info@.len() == index,
                x.text_info@.len() == index,
                forall|i: int|
                    0 <= i < index ==> {
                        &&& (#[trigger] entries@[i]).line is Some
                        &&& x.number_info@[i]@ == decimal((i + 1) as nat)
                        &&& x.time_info@[i]@ == time_range(entries@[i])
                        &&& x.text_info@[i]@ == marked_text(entries@[i].line->0@)
                    },
            decreases entries.len() - index,
        {
            let entry = &entries[index];
            assert(entries@[index as int] == *entry);
            let time_info = Self::format_time_info(entry);
            let text_info = match Self::process_text_info(entry) {
                Some(t) => t,
                None => {
                    assert(first_missing(entries@, index as int));
                    return Err(SubtitleError::MissingText(index));
                },
            };
            x.time_info.push(time_info);
            x.text_info.push(text_info);
            x.number_info.push(decimal_string(index + 1));
            index = index + 1;
        }
        assert(extracts(entries@, x));
        Ok(x)
    }
}

} // verus!
