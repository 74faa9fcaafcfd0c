use vstd::prelude::*;
use crate::datetime::Date;
use crate::header::{classify, classify_line, LineKind, LineModel};
use crate::model::{
    chat_wf, day_wf, days_view, push_line_to_last, strings_view, ChatModel, Chat, Day, DayModel,
};
use crate::text::chars_of;

verus! {

/// A line that could not be read: its number (counting from 1) and its text.
pub struct ParseError {
    pub line_number: usize,
    pub content: String,
}

pub open spec fn errors_view(v: Seq<ParseError>) -> Seq<(int, Seq<char>)> {
    v.map_values(|e: ParseError| (e.line_number as int, e.content@))
}

/// Where reading a transcript stands after some of its lines.
pub ghost struct ParseModel {
    /// The days so far, one per date, in order of first appearance.
    pub days: Seq<DayModel>,
    /// The day that holds the latest chat, if a chat was started.
    pub current: Option<int>,
    /// The lines that could not be read.
    pub errors: Seq<(int, Seq<char>)>,
}

/// The first position from `i` on of a day with this date.
pub open spec fn find_day_from(days: Seq<DayModel>, date: Date, i: int) -> Option<int>
    decreases days.len() - i,
{
    if i < 0 || i >= days.len() {
        None
    } else if days[i].date == date {
        Some(i)
    } else {
        find_day_from(days, date, i + 1)
    }
}

/// The position of the day with this date, if there is one.
pub open spec fn find_day(days: Seq<DayModel>, date: Date) -> Option<int> {
    find_day_from(days, date, 0)
}

/// The days with the chats of `d` added: to the day of the same date, or as a new day at the end.
pub open spec fn add_day(days: Seq<DayModel>, d: DayModel) -> Seq<DayModel> {
    match find_day(days, d.date) {
        Some(j) => days.update(j, DayModel { date: d.date, chats: days[j].chats + d.chats }),
        None => days.push(d),
    }
}

/// Where `add_day` puts the chats of a day of this date.
pub open spec fn day_slot(days: Seq<DayModel>, date: Date) -> int {
    match find_day(days, date) {
        Some(j) => j,
        None => days.len() as int,
    }
}

/// Reads line number `n`, whose text is `line`.
pub open spec fn step(p: ParseModel, n: int, line: Seq<char>) -> ParseModel {
    match classify(line) {
        LineModel::Header { date, time, speaker, message } => {
            let d = DayModel {
                date,
                chats: seq![ChatModel { time, speaker, message_lines: seq![message] }],
            };
            ParseModel {
                days: add_day(p.days, d),
                current: Some(day_slot(p.days, date)),
                errors: p.errors,
            }
        },
        LineModel::Malformed => ParseModel {
            days: p.days,
            current: p.current,
            errors: p.errors.push((n, line)),
        },
        LineModel::Continuation => match p.current {
            Some(j) => ParseModel {
                days: p.days.update(j, push_line_to_last(p.days[j], line)),
                current: p.current,
                errors: p.errors,
            },
            None => ParseModel {
                days: p.days,
                current: p.current,
                errors: p.errors.push((n, line)),
            },
        },
    }
}

/// The result of reading these lines in order.
pub open spec fn parse_model(lines: Seq<Seq<char>>) -> ParseModel
    decreases lines.len(),
{
    if lines.len() == 0 {
        ParseModel { days: Seq::empty(), current: None, errors: Seq::empty() }
    } else {
        step(parse_model(lines.drop_last()), lines.len() as int, lines.last())
    }
}

/// One day per date, and every chat holds at least one line.
pub open spec fn days_wf(days: Seq<DayModel>) -> bool {
    &&& forall|i: int, j: int|
        0 <= i < j < days.len() ==> #[trigger] days[i].date != #[trigger] days[j].date
    &&& forall|i: int| 0 <= i < days.len() ==> day_wf(#[trigger] days[i])
}

pub open spec fn parse_wf(p: ParseModel) -> bool {
    &&& days_wf(p.days)
    &&& (p.current matches Some(j) ==> 0 <= j < p.days.len() && p.days[j].chats.len() > 0)
}

pub proof fn lemma_find_day_from(days: Seq<DayModel>, date: Date, i: int)
    requires
        0 <= i,
    ensures
        find_day_from(days, date, i) matches Some(j) ==> i <= j < days.len() && days[j].date
            == date,
        find_day_from(days, date, i) is None ==> forall|j: int|
            i <= j < days.len() ==> #[trigger] days[j].date != date,
    decreases days.len() - i,
{
    if i < days.len() && days[i].date != date {
        lemma_find_day_from(days, date, i + 1);
    }
}

pub proof fn lemma_add_day(days: Seq<DayModel>, d: DayModel)
    requires
        days_wf(days),
        day_wf(d),
    ensures
        days_wf(add_day(days, d)),
        0 <= day_slot(days, d.date) < add_day(days, d).len(),
        add_day(days, d)[day_slot(days, d.date)].chats.len() >= d.chats.len(),
        add_day(days, d).len() == days.len() + (if find_day(days, d.date) is None { 1int } else { 0 }),
{
    lemma_find_day_from(days, d.date, 0);
    let r = add_day(days, d);
    match find_day(days, d.date) {
        Some(j) => {
            assert forall|i: int| 0 <= i < r.len() implies day_wf(#[trigger] r[i]) by {
                if i == j {
                    assert forall|t: int| 0 <= t < r[i].chats.len() implies chat_wf(
                        #[trigger] r[i].chats[t],
                    ) by {
                        if t < days[j].chats.len() {
                            assert(day_wf(days[j]));
                        } else {
                            assert(r[i].chats[t] == d.chats[t - days[j].chats.len()]);
                        }
                    }
                }
            }
        },
        None => {
            assert forall|i: int, k: int| 0 <= i < k < r.len() implies #[trigger] r[i].date
                != #[trigger] r[k].date by {
                if k == days.len() {
                    assert(days[i].date != d.date);
                }
            }
        },
    }
}

pub proof fn lemma_step_wf(p: ParseModel, n: int, line: Seq<char>)
    requires
        parse_wf(p),
    ensures
        parse_wf(step(p, n, line)),
{
    match classify(line) {
        LineModel::Header { date, time, speaker, message } => {
            let c = ChatModel { time, speaker, message_lines: seq![message] };
            let d = DayModel { date, chats: seq![c] };
            assert(chat_wf(c));
            assert(day_wf(d));
            lemma_add_day(p.days, d);
        },
        LineModel::Malformed => {},
        LineModel::Continuation => {
            if let Some(j) = p.current {
                let r = p.days.update(j, push_line_to_last(p.days[j], line));
                assert(day_wf(p.days[j]));
                assert forall|i: int| 0 <= i < r.len() implies day_wf(#[trigger] r[i]) by {
                    if i == j {
                        assert forall|t: int| 0 <= t < r[i].chats.len() implies chat_wf(
                            #[trigger] r[i].chats[t],
                        ) by {
                            assert(chat_wf(p.days[j].chats[t]));
                        }
                    }
                }
                assert forall|i: int, k: int| 0 <= i < k < r.len() implies #[trigger] r[i].date
                    != #[trigger] r[k].date by {
                    assert(p.days[i].date != p.days[k].date);
                }
            }
        },
    }
}

pub proof fn lemma_parse_wf(lines: Seq<Seq<char>>)
    ensures
        parse_wf(parse_model(lines)),
    decreases lines.len(),
{
    if lines.len() > 0 {
        lemma_parse_wf(lines.drop_last());
        lemma_step_wf(parse_model(lines.drop_last()), lines.len() as int, lines.last());
    }
}

/// The position of the day with this date, if there is one.
pub fn find_day_exec(days: &Vec<Day>, date: Date) -> (r: Option<usize>)
    ensures
        r matches Some(j) ==> find_day(days_view(days@), date) == Some(j as int),
        r is None ==> find_day(days_view(days@), date) is None,
{
    let ghost v = days_view(days@);
    let mut i: usize = 0;
    while i < days.len()
        invariant
            i <= days@.len(),
            v == days_view(days@),
            find_day(v, date) == find_day_from(v, date, i as int),
        decreases days@.len() - i,
    {
        if days[i].date() == date {
            return Some(i);
        }
        i = i + 1;
    }
    None
}

/// Adds the chats of `d` to the day of the same date, or `d` itself as a new day at the end;
/// returns where its chats went.
pub fn add_day_exec(days: &mut Vec<Day>, d: Day) -> (r: usize)
    ensures
        days_view(final(days)@) == add_day(days_view(old(days)@), d@),
        r as int == day_slot(days_view(old(days)@), d@.date),
{
    proof {
        lemma_find_day_from(days_view(days@), d@.date, 0);
    }
    match find_day_exec(days, d.date()) {
        Some(j) => {
            let mut target = days.remove(j);
            target.append_chats(d);
            days.insert(j, target);
            proof {
                assert(days_view(days@) =~= add_day(days_view(old(days)@), d@));
            }
            j
        },
        None => {
            let j = days.len();
            days.push(d);
            proof {
                assert(days_view(days@) =~= add_day(days_view(old(days)@), d@));
            }
            j
        },
    }
}

/// Reads the lines of a transcript in order: the days it holds and the lines that could not be read.
pub fn parse_lines(lines: &Vec<String>) -> (r: (Vec<Day>, Vec<ParseError>))
    ensures
        days_view(r.0@) == parse_model(strings_view(lines@)).days,
        errors_view(r.1@) == parse_model(strings_view(lines@)).errors,
{
    let ghost ls = strings_view(lines@);
    let mut days: Vec<Day> = Vec::new();
    let mut errors: Vec<ParseError> = Vec::new();
    let mut current: Option<usize> = None;
    let mut i: usize = 0;
    proof {
        assert(ls.take(0) =~= Seq::<Seq<char>>::empty());
        assert(days_view(days@) =~= Seq::<DayModel>::empty());
        assert(errors_view(errors@) =~= Seq::<(int, Seq<char>)>::empty());
    }
    while i < lines.len()
        invariant
            i <= lines@.len(),
            ls == strings_view(lines@),
            days_view(days@) == parse_model(ls.take(i as int)).days,
            errors_view(errors@) == parse_model(ls.take(i as int)).errors,
            parse_model(ls.take(i as int)).current == (match current {
                Some(j) => Some(j as int),
                None => None,
            }),
        decreases lines@.len() - i,
    {
        let ghost p = parse_model(ls.take(i as int));
        proof {
            assert(ls.take(i + 1).drop_last() =~= ls.take(i as int));
            lemma_parse_wf(ls.take(i as int));
        }
        let line = &lines[i];
        let cs = chars_of(line.as_str());
        let n: usize = i + 1;
        match classify_line(&cs) {
            LineKind::Header { date, time, speaker, message } => {
                let mut ms: Vec<String> = Vec::new();
                ms.push(message);
                let c = Chat::new(time, speaker, ms);
                let mut cv: Vec<Chat> = Vec::new();
                cv.push(c);
                let d = Day::new(date, cv);
                proof {
                    assert(strings_view(ms@) =~= seq![message@]);
                    assert(d@.chats =~= seq![c@]);
                }
                let j = add_day_exec(&mut days, d);
                current = Some(j);
            },
            LineKind::Malformed => {
                let ghost prev = errors@;
                errors.push(ParseError { line_number: n, content: line.clone() });
                proof {
                    assert(errors_view(errors@) =~= errors_view(prev).push((n as int, ls[i as int])));
                }
            },
            LineKind::Continuation => match current {
                Some(j) => {
                    let mut target = days.remove(j);
                    target.push_line_to_last(line.clone());
                    days.insert(j, target);
                    proof {
                        assert(days_view(days@) =~= p.days.update(
                            j as int,
                            push_line_to_last(p.days[j as int], ls[i as int]),
                        ));
                    }
                },
                None => {
                    let ghost prev = errors@;
                    errors.push(ParseError { line_number: n, content: line.clone() });
                    proof {
                        assert(errors_view(errors@) =~= errors_view(prev).push(
                            (n as int, ls[i as int]),
                        ));
                    }
                },
            },
        }
        i = i + 1;
    }
    proof {
        assert(ls.take(lines@.len() as int) =~= ls);
    }
    (days, errors)
}

} // verus!
