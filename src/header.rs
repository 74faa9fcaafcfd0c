use vstd::prelude::*;
use crate::datetime::{is_valid_date, is_valid_time, Date, Time};
use crate::text::string_of;

verus! {

pub open spec fn is_digit(c: char) -> bool {
    '0' <= c && c <= '9'
}

pub open spec fn digit(c: char) -> int {
    (c as u32) as int - ('0' as u32) as int
}

/// Positions `i .. i + n` of `s` exist and hold decimal digits.
pub open spec fn digits_at(s: Seq<char>, i: int, n: int) -> bool {
    0 <= i && i + n <= s.len() && forall|j: int| i <= j < i + n ==> is_digit(#[trigger] s[j])
}

/// The two-digit number at position `i`.
pub open spec fn num2(s: Seq<char>, i: int) -> int {
    digit(s[i]) * 10 + digit(s[i + 1])
}

/// The four-digit number at position `i`.
pub open spec fn num4(s: Seq<char>, i: int) -> int {
    num2(s, i) * 100 + num2(s, i + 2)
}

/// The line starts with a stamp shaped `YYYY-MM-DD HH:MM`.
pub open spec fn has_stamp(s: Seq<char>) -> bool {
    &&& s.len() >= 16
    &&& digits_at(s, 0, 4)
    &&& s[4] == '-'
    &&& digits_at(s, 5, 2)
    &&& s[7] == '-'
    &&& digits_at(s, 8, 2)
    &&& s[10] == ' '
    &&& digits_at(s, 11, 2)
    &&& s[13] == ':'
    &&& digits_at(s, 14, 2)
}

/// The stamp goes on with `:SS`, followed by the end of the line or a space.
pub open spec fn has_seconds(s: Seq<char>) -> bool {
    &&& s.len() >= 19
    &&& s[16] == ':'
    &&& digits_at(s, 17, 2)
    &&& (s.len() == 19 || s[19] == ' ')
}

/// Where the stamp of a header line ends, if the line has one that is followed
/// by the end of the line or by a space.
pub open spec fn stamp_end(s: Seq<char>) -> Option<int> {
    if !has_stamp(s) {
        None
    } else if has_seconds(s) {
        Some(19)
    } else if s.len() == 16 || s[16] == ' ' {
        Some(16)
    } else {
        None
    }
}

/// What follows the stamp ending at `e` and the one space after it.
pub open spec fn body_after(s: Seq<char>, e: int) -> Seq<char> {
    if s.len() == e {
        Seq::empty()
    } else {
        s.skip(e + 1)
    }
}

/// The first position from `i` on where `": "` starts.
pub open spec fn sep_from(b: Seq<char>, i: int) -> Option<int>
    decreases b.len() - i,
{
    if i < 0 || i + 1 >= b.len() {
        None
    } else if b[i] == ':' && b[i + 1] == ' ' {
        Some(i)
    } else {
        sep_from(b, i + 1)
    }
}

/// The body starts with a speaker's name followed by `": "`.
pub open spec fn has_speaker(b: Seq<char>) -> bool {
    sep_from(b, 0) is Some && sep_from(b, 0)->0 > 0
}

pub open spec fn speaker_of(b: Seq<char>) -> Option<Seq<char>> {
    if has_speaker(b) {
        Some(b.take(sep_from(b, 0)->0))
    } else {
        None
    }
}

pub open spec fn message_of(b: Seq<char>) -> Seq<char> {
    if has_speaker(b) {
        b.skip(sep_from(b, 0)->0 + 2)
    } else {
        b
    }
}

pub open spec fn stamp_date(s: Seq<char>) -> Date {
    Date { year: num4(s, 0) as u32, month: num2(s, 5) as u32, day: num2(s, 8) as u32 }
}

pub open spec fn stamp_time(s: Seq<char>, e: int) -> Time {
    Time {
        hour: num2(s, 11) as u32,
        minute: num2(s, 14) as u32,
        second: if e == 19 { num2(s, 17) as u32 } else { 0 },
    }
}

pub open spec fn stamp_valid(s: Seq<char>, e: int) -> bool {
    &&& is_valid_date(num4(s, 0), num2(s, 5), num2(s, 8))
    &&& is_valid_time(num2(s, 11), num2(s, 14), if e == 19 { num2(s, 17) } else { 0 })
}

/// What one physical line of a transcript is.
pub ghost enum LineModel {
    /// It starts a chat: `YYYY-MM-DD HH:MM[:SS] [speaker: ]message`.
    Header { date: Date, time: Time, speaker: Option<Seq<char>>, message: Seq<char> },
    /// It has the shape of a header, but its date or time does not exist.
    Malformed,
    /// Anything else: one more line of the latest chat's message.
    Continuation,
}

pub open spec fn classify(s: Seq<char>) -> LineModel {
    match stamp_end(s) {
        None => LineModel::Continuation,
        Some(e) => if !stamp_valid(s, e) {
            LineModel::Malformed
        } else {
            LineModel::Header {
                date: stamp_date(s),
                time: stamp_time(s, e),
                speaker: speaker_of(body_after(s, e)),
                message: message_of(body_after(s, e)),
            }
        },
    }
}

/// A classified line.
pub enum LineKind {
    Header { date: Date, time: Time, speaker: Option<String>, message: String },
    Malformed,
    Continuation,
}

impl View for LineKind {
    type V = LineModel;

    open spec fn view(&self) -> LineModel {
        match self {
            LineKind::Header { date, time, speaker, message } => LineModel::Header {
                date: *date,
                time: *time,
                speaker: match speaker {
                    Some(s) => Some(s@),
                    None => None,
                },
                message: message@,
            },
            LineKind::Malformed => LineModel::Malformed,
            LineKind::Continuation => LineModel::Continuation,
        }
    }
}

fn digits_at_exec(cs: &Vec<char>, i: usize, n: usize) -> (r: bool)
    requires
        i + n <= cs@.len(),
    ensures
        r == digits_at(cs@, i as int, n as int),
{
    let len = cs.len();
    let end = i + n;
    let mut j: usize = i;
    while j < end
        invariant
            len == cs@.len(),
            end == i + n,
            i <= j <= i + n <= cs@.len(),
            forall|t: int| i <= t < j ==> is_digit(#[trigger] cs@[t]),
        decreases i + n - j,
    {
        if !('0' <= cs[j] && cs[j] <= '9') {
            return false;
        }
        j = j + 1;
    }
    true
}

fn digit_exec(c: char) -> (r: u32)
    requires
        is_digit(c),
    ensures
        r as int == digit(c),
        r <= 9,
{
    (c as u32) - ('0' as u32)
}

fn num2_exec(cs: &Vec<char>, i: usize) -> (r: u32)
    requires
        digits_at(cs@, i as int, 2),
    ensures
        r as int == num2(cs@, i as int),
        r <= 99,
{
    let len = cs.len();
    assert(i + 1 < len);
    assert(is_digit(cs@[i as int]) && is_digit(cs@[i + 1]));
    digit_exec(cs[i]) * 10 + digit_exec(cs[i + 1])
}

/// The first position `k` of `cs[start..]` where `": "` starts, if any.
fn find_sep(cs: &Vec<char>, start: usize) -> (r: Option<usize>)
    requires
        start <= cs@.len(),
    ensures
        r is None <==> sep_from(cs@.skip(start as int), 0) is None,
        r matches Some(k) ==> sep_from(cs@.skip(start as int), 0) == Some(k as int) && start + k
            + 2 <= cs@.len(),
{
    let ghost b = cs@.skip(start as int);
    let n = cs.len();
    let mut i: usize = 0;
    while n - start - i > 1
        invariant
            start <= n == cs@.len(),
            b == cs@.skip(start as int),
            start + i <= n,
            sep_from(b, 0) == sep_from(b, i as int),
        decreases n - start - i,
    {
        if cs[start + i] == ':' && cs[start + i + 1] == ' ' {
            return Some(i);
        }
        i = i + 1;
    }
    None
}

/// Classifies one physical line, given as its characters.
pub fn classify_line(cs: &Vec<char>) -> (r: LineKind)
    ensures
        r@ == classify(cs@),
{
    let ghost s = cs@;
    let n = cs.len();
    if !(n >= 16 && digits_at_exec(cs, 0, 4) && cs[4] == '-' && digits_at_exec(cs, 5, 2) && cs[7]
        == '-' && digits_at_exec(cs, 8, 2) && cs[10] == ' ' && digits_at_exec(cs, 11, 2) && cs[13]
        == ':' && digits_at_exec(cs, 14, 2)) {
        return LineKind::Continuation;
    }
    let seconds = n >= 19 && cs[16] == ':' && digits_at_exec(cs, 17, 2) && (n == 19 || cs[19]
        == ' ');
    let e: usize = if seconds {
        19
    } else if n == 16 || cs[16] == ' ' {
        16
    } else {
        return LineKind::Continuation;
    };
    assert(stamp_end(s) == Some(e as int));
    let year = num2_exec(cs, 0) * 100 + num2_exec(cs, 2);
    let month = num2_exec(cs, 5);
    let day = num2_exec(cs, 8);
    let hour = num2_exec(cs, 11);
    let minute = num2_exec(cs, 14);
    let second = if seconds {
        num2_exec(cs, 17)
    } else {
        0
    };
    let date = match Date::from_ymd(year, month, day) {
        Some(d) => d,
        None => return LineKind::Malformed,
    };
    let time = match Time::from_hms(hour, minute, second) {
        Some(t) => t,
        None => return LineKind::Malformed,
    };
    let start: usize = if n == e {
        n
    } else {
        e + 1
    };
    proof {
        assert(body_after(s, e as int) =~= s.skip(start as int));
    }
    match find_sep(cs, start) {
        Some(k) if k > 0 => {
            let speaker = string_of(cs, start, start + k);
            let message = string_of(cs, start + k + 2, n);
            proof {
                let b = s.skip(start as int);
                assert(speaker@ =~= b.take(k as int));
                assert(message@ =~= b.skip(k + 2));
            }
            LineKind::Header { date, time, speaker: Some(speaker), message }
        },
        _ => {
            let message = string_of(cs, start, n);
            proof {
                assert(message@ =~= s.skip(start as int));
            }
            LineKind::Header { date, time, speaker: None, message }
        },
    }
}

} // verus!
