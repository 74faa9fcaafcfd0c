use vstd::prelude::*;
use crate::datetime::Date;
use crate::model::{
    chat_lines, day_hits, day_lines, day_wf, days_view, hits_view, lemma_filter_take_step, lines_view,
    strings_view, Chat, ChatModel, Day, DayModel, LineContent,
};
use crate::parse::{
    add_day, add_day_exec, days_wf, errors_view, lemma_add_day, lemma_parse_wf, parse_lines,
    parse_model, ParseError,
};
use crate::text::{chars_of, contains, contains_exec, split_lines, split_lines_exec};

verus! {

/// Why a history could not be built.
pub enum HistoryError {
    /// The transcript could not be read from where it was asked for.
    Io,
    /// Lines of the transcript could not be read, in order.
    Parse(Vec<ParseError>),
}

/// The chats of all days that mention `k`: day after day, chat after chat.
pub open spec fn history_hits(days: Seq<DayModel>, k: Seq<char>) -> Seq<(Date, ChatModel)>
    decreases days.len(),
{
    if days.len() == 0 {
        Seq::empty()
    } else {
        history_hits(days.drop_last(), k) + day_hits(days.last(), k)
    }
}

/// The days with those of the same date merged, in order of first appearance.
pub open spec fn merge_days(days: Seq<DayModel>) -> Seq<DayModel>
    decreases days.len(),
{
    if days.len() == 0 {
        Seq::empty()
    } else {
        add_day(merge_days(days.drop_last()), days.last())
    }
}

/// The days of a transcript given as lines.
pub open spec fn history_of_lines(lines: Seq<Seq<char>>) -> Seq<DayModel> {
    parse_model(lines).days
}

/// The days of a transcript given as text.
pub open spec fn history_of_text(t: Seq<char>) -> Seq<DayModel> {
    history_of_lines(split_lines(t))
}

/// The lines of all days in the flat form: day after day.
pub open spec fn flat_lines(days: Seq<DayModel>) -> Seq<(Date, int, Seq<char>)>
    decreases days.len(),
{
    if days.len() == 0 {
        Seq::empty()
    } else {
        flat_lines(days.drop_last()) + day_lines(days.last())
    }
}

/// Each day has fewer lines than the largest `usize`, so that their positions can be counted.
pub open spec fn lines_countable(days: Seq<DayModel>) -> bool {
    forall|i: int| 0 <= i < days.len() ==> chat_lines(#[trigger] days[i].chats).len() < usize::MAX
}

/// A flat line holds `k`.
pub open spec fn line_hit(k: Seq<char>) -> spec_fn((Date, int, Seq<char>)) -> bool {
    |l: (Date, int, Seq<char>)| contains(l.2, k)
}

/// A flat line has this date.
pub open spec fn line_on(date: Date) -> spec_fn((Date, int, Seq<char>)) -> bool {
    |l: (Date, int, Seq<char>)| l.0 == date
}

/// Relies on rand::Rng::gen_range with rand::thread_rng: a value drawn from `0..n`
/// (it panics on an empty range, which `n > 0` rules out).
#[verifier::external_body]
fn random_below(n: usize) -> (r: usize)
    requires
        n > 0,
    ensures
        r < n,
{
    rand::Rng::gen_range(&mut rand::thread_rng(), 0..n)
}

/// The days of a chat transcript, one per date, in order of first appearance.
pub struct History {
    days: Vec<Day>,
}

impl View for History {
    type V = Seq<DayModel>;

    closed spec fn view(&self) -> Seq<DayModel> {
        days_view(self.days@)
    }
}

impl History {
    /// One day per date, and every chat holds at least one line.
    pub open spec fn wf(&self) -> bool {
        days_wf(self@)
    }

    /// A history of these days; days of the same date are merged, their chats kept in order.
    pub fn new(days: Vec<Day>) -> (r: History)
        requires
            forall|i: int| 0 <= i < days@.len() ==> day_wf(#[trigger] days@[i]@),
        ensures
            r@ == merge_days(days_view(days@)),
            r.wf(),
    {
        let ghost input = days_view(days@);
        let mut out: Vec<Day> = Vec::new();
        let mut i: usize = 0;
        proof {
            assert(input.take(0) =~= Seq::<DayModel>::empty());
            assert(days_view(out@) =~= Seq::<DayModel>::empty());
        }
        while i < days.len()
            invariant
                input == days_view(days@),
                i <= input.len(),
                days_view(out@) == merge_days(input.take(i as int)),
                days_wf(days_view(out@)),
                forall|t: int| 0 <= t < days@.len() ==> day_wf(#[trigger] days@[t]@),
            decreases input.len() - i,
        {
            proof {
                assert(input.take(i + 1).drop_last() =~= input.take(i as int));
            }
            let d = days[i].copy();
            proof {
                lemma_add_day(days_view(out@), d@);
            }
            add_day_exec(&mut out, d);
            i = i + 1;
        }
        proof {
            assert(input.take(input.len() as int) =~= input);
        }
        History { days: out }
    }

    /// The history of a transcript given as lines, and the lines that could not be read.
    pub fn from_lines_with_errors(lines: &Vec<String>) -> (r: (History, Vec<ParseError>))
        ensures
            r.0@ == history_of_lines(strings_view(lines@)),
            errors_view(r.1@) == parse_model(strings_view(lines@)).errors,
            r.0.wf(),
    {
        let (days, errors) = parse_lines(lines);
        proof {
            lemma_parse_wf(strings_view(lines@));
        }
        (History { days }, errors)
    }

    /// The history of a transcript given as lines; lines that cannot be read are left out.
    pub fn from_lines(lines: &Vec<String>) -> (r: History)
        ensures
            r@ == history_of_lines(strings_view(lines@)),
            r.wf(),
    {
        let (h, _errors) = History::from_lines_with_errors(lines);
        h
    }

    /// The history of a transcript; lines that cannot be read are left out.
    pub fn from_text(text: String) -> (r: History)
        ensures
            r@ == history_of_text(text@),
            r.wf(),
    {
        let lines = split_lines_exec(text.as_str());
        History::from_lines(&lines)
    }

    /// The history of a transcript, or every line that could not be read if there is one.
    pub fn from_text_strict(text: &str) -> (r: Result<History, HistoryError>)
        ensures
            parse_model(split_lines(text@)).errors.len() == 0 <==> r is Ok,
            r matches Ok(h) ==> h@ == history_of_text(text@) && h.wf(),
            r matches Err(e) ==> e matches HistoryError::Parse(errs) && errors_view(errs@)
                == parse_model(split_lines(text@)).errors,
    {
        let lines = split_lines_exec(text);
        let (h, errors) = History::from_lines_with_errors(&lines);
        if errors.len() == 0 {
            Ok(h)
        } else {
            Err(HistoryError::Parse(errors))
        }
    }

    /// The history of a transcript that was read from somewhere, or `None` if reading it
    /// failed: then the error is `Io`. Lines that cannot be read are left out.
    pub fn from_read_result(contents: Option<String>) -> (r: Result<History, HistoryError>)
        ensures
            contents is None <==> r is Err,
            r matches Err(e) ==> e is Io,
            r matches Ok(h) ==> h@ == history_of_text(contents->0@) && h.wf(),
    {
        match contents {
            Some(text) => Ok(History::from_text(text)),
            None => Err(HistoryError::Io),
        }
    }

    /// The day of this date, if the history has one.
    pub fn search_by_date(&self, date: Date) -> (r: Option<Day>)
        ensures
            r is Some <==> exists|i: int| 0 <= i < self@.len() && #[trigger] self@[i].date == date,
            r matches Some(d) ==> d@.date == date && self@.contains(d@),
    {
        let mut i: usize = 0;
        while i < self.days.len()
            invariant
                i <= self@.len(),
                forall|t: int| 0 <= t < i ==> #[trigger] self@[t].date != date,
            decreases self@.len() - i,
        {
            if self.days[i].date() == date {
                let d = self.days[i].copy();
                proof {
                    assert(self@[i as int] == d@);
                }
                return Some(d);
            }
            i = i + 1;
        }
        None
    }

    /// Every chat that mentions `keyword`, with its date: day after day, chat after chat.
    pub fn search_by_keyword(&self, keyword: &str) -> (r: Vec<(Date, Chat)>)
        ensures
            hits_view(r@) == history_hits(self@, keyword@),
    {
        let k = chars_of(keyword);
        let mut out: Vec<(Date, Chat)> = Vec::new();
        let mut i: usize = 0;
        proof {
            assert(self@.take(0) =~= Seq::<DayModel>::empty());
            assert(hits_view(out@) =~= Seq::<(Date, ChatModel)>::empty());
        }
        while i < self.days.len()
            invariant
                i <= self@.len(),
                k@ == keyword@,
                hits_view(out@) == history_hits(self@.take(i as int), keyword@),
            decreases self@.len() - i,
        {
            proof {
                assert(self@.take(i + 1).drop_last() =~= self@.take(i as int));
            }
            self.days[i].push_hits(&k, &mut out);
            i = i + 1;
        }
        proof {
            assert(self@.take(self@.len() as int) =~= self@);
        }
        out
    }

    /// The day at position `i`, if there is one.
    pub fn day_at(&self, i: usize) -> (r: Option<Day>)
        ensures
            r is Some <==> i < self@.len(),
            r matches Some(d) ==> d@ == self@[i as int],
    {
        if i < self.days.len() {
            Some(self.days[i].copy())
        } else {
            None
        }
    }

    /// A day drawn at random, each day as likely as another; `None` on an empty history.
    pub fn search_by_random(&self) -> (r: Option<Day>)
        ensures
            r is None <==> self@.len() == 0,
            r matches Some(d) ==> self@.contains(d@),
    {
        if self.days.len() == 0 {
            None
        } else {
            let i = random_below(self.days.len());
            let r = self.day_at(i);
            proof {
                assert(self@[i as int] == r->0@);
            }
            r
        }
    }

    /// Copies of all days, in order.
    pub fn days(&self) -> (r: Vec<Day>)
        ensures
            days_view(r@) == self@,
    {
        let mut out: Vec<Day> = Vec::new();
        let mut i: usize = 0;
        while i < self.days.len()
            invariant
                i <= self@.len(),
                days_view(out@) == self@.take(i as int),
            decreases self@.len() - i,
        {
            let ghost prev = out@;
            out.push(self.days[i].copy());
            proof {
                assert(days_view(out@) =~= days_view(prev).push(self@[i as int]));
                assert(self@.take(i + 1) =~= self@.take(i as int).push(self@[i as int]));
            }
            i = i + 1;
        }
        proof {
            assert(self@.take(self@.len() as int) =~= self@);
        }
        out
    }

    /// The number of days, that is of distinct dates.
    pub fn len(&self) -> (r: usize)
        ensures
            r == self@.len(),
    {
        self.days.len()
    }

    pub fn is_empty(&self) -> (r: bool)
        ensures
            r <==> self@.len() == 0,
    {
        self.days.len() == 0
    }

    /// Every line of the history in the flat form: day after day, each line with its date and
    /// its position within the day counting from 1.
    pub fn lines(&self) -> (r: Vec<LineContent>)
        requires
            lines_countable(self@),
        ensures
            lines_view(r@) == flat_lines(self@),
    {
        let mut out: Vec<LineContent> = Vec::new();
        let mut i: usize = 0;
        proof {
            assert(self@.take(0) =~= Seq::<DayModel>::empty());
            assert(lines_view(out@) =~= Seq::<(Date, int, Seq<char>)>::empty());
        }
        while i < self.days.len()
            invariant
                i <= self@.len(),
                lines_countable(self@),
                lines_view(out@) == flat_lines(self@.take(i as int)),
            decreases self@.len() - i,
        {
            proof {
                assert(self@.take(i + 1).drop_last() =~= self@.take(i as int));
                assert(chat_lines(self@[i as int].chats).len() < usize::MAX);
            }
            self.days[i].push_lines(&mut out);
            i = i + 1;
        }
        proof {
            assert(self@.take(self@.len() as int) =~= self@);
        }
        out
    }

    /// The lines in the flat form that hold `keyword`, in order.
    pub fn search_lines_by_keyword(&self, keyword: &str) -> (r: Vec<LineContent>)
        requires
            lines_countable(self@),
        ensures
            lines_view(r@) == flat_lines(self@).filter(line_hit(keyword@)),
    {
        let k = chars_of(keyword);
        let all = self.lines();
        let ghost ls = lines_view(all@);
        let ghost p = line_hit(keyword@);
        let mut out: Vec<LineContent> = Vec::new();
        let mut i: usize = 0;
        proof {
            reveal(Seq::filter);
            assert(ls.take(0).filter(p) =~= Seq::empty());
            assert(lines_view(out@) =~= ls.take(0).filter(p));
        }
        while i < all.len()
            invariant
                i <= all@.len(),
                ls == lines_view(all@),
                p == line_hit(keyword@),
                k@ == keyword@,
                lines_view(out@) == ls.take(i as int).filter(p),
            decreases all@.len() - i,
        {
            proof {
                lemma_filter_take_step(ls, p, i as int);
            }
            let text = chars_of(all[i].line.as_str());
            if contains_exec(&text, &k) {
                let ghost prev = out@;
                out.push(LineContent { date: all[i].date, line_count: all[i].line_count, line: all[i].line.clone() });
                proof {
                    assert(lines_view(out@) =~= lines_view(prev).push(ls[i as int]));
                }
            }
            i = i + 1;
        }
        proof {
            assert(ls.take(ls.len() as int) =~= ls);
        }
        out
    }

    /// The lines in the flat form that have this date, in order.
    pub fn search_lines_by_date(&self, date: Date) -> (r: Vec<LineContent>)
        requires
            lines_countable(self@),
        ensures
            lines_view(r@) == flat_lines(self@).filter(line_on(date)),
    {
        let all = self.lines();
        let ghost ls = lines_view(all@);
        let ghost p = line_on(date);
        let mut out: Vec<LineContent> = Vec::new();
        let mut i: usize = 0;
        proof {
            reveal(Seq::filter);
            assert(ls.take(0).filter(p) =~= Seq::empty());
            assert(lines_view(out@) =~= ls.take(0).filter(p));
        }
        while i < all.len()
            invariant
                i <= all@.len(),
                ls == lines_view(all@),
                p == line_on(date),
                lines_view(out@) == ls.take(i as int).filter(p),
            decreases all@.len() - i,
        {
            proof {
                lemma_filter_take_step(ls, p, i as int);
            }
            if all[i].date == date {
                let ghost prev = out@;
                out.push(LineContent { date: all[i].date, line_count: all[i].line_count, line: all[i].line.clone() });
                proof {
                    assert(lines_view(out@) =~= lines_view(prev).push(ls[i as int]));
                }
            }
            i = i + 1;
        }
        proof {
            assert(ls.take(ls.len() as int) =~= ls);
        }
        out
    }

    /// A line drawn at random from all lines in the flat form, each as likely as another;
    /// `None` when the history holds no line.
    pub fn random_line(&self) -> (r: Option<LineContent>)
        requires
            lines_countable(self@),
        ensures
            r is None <==> flat_lines(self@).len() == 0,
            r matches Some(l) ==> flat_lines(self@).contains((l.date, l.line_count as int, l.line@)),
    {
        let mut all = self.lines();
        if all.len() == 0 {
            None
        } else {
            let i = random_below(all.len());
            let ghost before = all@;
            let l = all.swap_remove(i);
            proof {
                assert(lines_view(before)[i as int] == (l.date, l.line_count as int, l.line@));
            }
            Some(l)
        }
    }
}

} // verus!
