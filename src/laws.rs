use vstd::prelude::*;
use crate::datetime::Date;
use crate::header::{classify, LineModel};
use crate::history::{history_of_lines, history_of_text};
use crate::parse::{
    days_wf, find_day, lemma_find_day_from, lemma_parse_wf, parse_model, parse_wf, step, ParseModel,
};
use crate::model::{chat_wf, day_hits, day_wf, mentions, push_line_to_last, ChatModel, DayModel};
use crate::history::history_hits;
use crate::text::{contains, occurs_at};
use crate::text::split_lines;

verus! {

/// The date of a line that starts a chat.
pub open spec fn header_date(line: Seq<char>) -> Option<Date> {
    match classify(line) {
        LineModel::Header { date, .. } => Some(date),
        _ => None,
    }
}

/// The dates of the lines that start a chat.
pub open spec fn header_dates(lines: Seq<Seq<char>>) -> Set<Date> {
    Set::new(|d: Date| exists|i: int| 0 <= i < lines.len() && #[trigger] header_date(lines[i]) == Some(d))
}

pub open spec fn dates_of(days: Seq<DayModel>) -> Seq<Date> {
    days.map_values(|d: DayModel| d.date)
}

proof fn lemma_step_dates(p: ParseModel, n: int, line: Seq<char>)
    requires
        parse_wf(p),
    ensures
        forall|x: Date|
            dates_of(step(p, n, line).days).contains(x) <==> (dates_of(p.days).contains(x)
                || header_date(line) == Some(x)),
{
    let q = step(p, n, line);
    match classify(line) {
        LineModel::Header { date, time, speaker, message } => {
            lemma_find_day_from(p.days, date, 0);
            match find_day(p.days, date) {
                Some(j) => {
                    assert(dates_of(q.days) =~= dates_of(p.days));
                    assert(dates_of(p.days)[j] == date);
                },
                None => {
                    assert(dates_of(q.days) =~= dates_of(p.days).push(date));
                    assert forall|x: Date|
                        dates_of(q.days).contains(x) <==> (dates_of(p.days).contains(x) || date
                            == x) by {
                        if dates_of(p.days).contains(x) {
                            let i = choose|i: int| 0 <= i < dates_of(p.days).len() && dates_of(p.days)[i] == x;
                            assert(dates_of(q.days)[i] == x);
                        }
                        if x == date {
                            assert(dates_of(q.days)[p.days.len() as int] == x);
                        }
                        if dates_of(q.days).contains(x) && x != date {
                            let i = choose|i: int| 0 <= i < dates_of(q.days).len() && dates_of(q.days)[i] == x;
                            assert(dates_of(p.days)[i] == x);
                        }
                    }
                },
            }
        },
        LineModel::Malformed => {},
        LineModel::Continuation => {
            assert(dates_of(q.days) =~= dates_of(p.days));
        },
    }
}

#[verifier::spinoff_prover]
proof fn lemma_dates_are_header_dates(lines: Seq<Seq<char>>)
    ensures
        dates_of(parse_model(lines).days).to_set() == header_dates(lines),
    decreases lines.len(),
{
    if lines.len() == 0 {
        assert(dates_of(parse_model(lines).days).to_set() =~= header_dates(lines));
    } else {
        let pre = lines.drop_last();
        let line = lines.last();
        lemma_dates_are_header_dates(pre);
        lemma_parse_wf(pre);
        lemma_step_dates(parse_model(pre), lines.len() as int, line);
        let a = dates_of(parse_model(lines).days);
        let b = dates_of(parse_model(pre).days);
        assert(parse_model(lines) == step(parse_model(pre), lines.len() as int, line));
        assert(forall|x: Date| a.contains(x) <==> (b.contains(x) || header_date(line) == Some(x)));
        assert forall|x: Date|
            header_dates(lines).contains(x) <==> (header_dates(pre).contains(x) || header_date(line)
                == Some(x)) by {
            if header_dates(lines).contains(x) {
                let i = choose|i: int| 0 <= i < lines.len() && #[trigger] header_date(lines[i]) == Some(x);
                if i < pre.len() {
                    assert(header_date(pre[i]) == Some(x));
                }
            }
            if header_dates(pre).contains(x) {
                let i = choose|i: int| 0 <= i < pre.len() && #[trigger] header_date(pre[i]) == Some(x);
                assert(header_date(lines[i]) == Some(x));
            }
            if header_date(line) == Some(x) {
                assert(header_date(lines[lines.len() - 1]) == Some(x));
            }
        }
        assert(a.to_set() =~= header_dates(lines));
    }
}

/// A history holds one day for each distinct date among the lines that start a chat,
/// wherever in the transcript those lines stand.
pub proof fn law_one_day_per_distinct_date(lines: Seq<Seq<char>>)
    ensures
        header_dates(lines).finite(),
        history_of_lines(lines).len() == header_dates(lines).len(),
{
    let days = parse_model(lines).days;
    lemma_parse_wf(lines);
    lemma_dates_are_header_dates(lines);
    let ds = dates_of(days);
    assert forall|i: int, j: int| 0 <= i < ds.len() && 0 <= j < ds.len() && i != j implies ds[i]
        != ds[j] by {
        if i < j {
            assert(days[i].date != days[j].date);
        } else {
            assert(days[j].date != days[i].date);
        }
    }
    assert(ds.no_duplicates());
    ds.unique_seq_to_set();
    vstd::seq_lib::seq_to_set_is_finite(ds);
}

/// The same, for a transcript given as text.
pub proof fn law_text_one_day_per_distinct_date(t: Seq<char>)
    ensures
        header_dates(split_lines(t)).finite(),
        history_of_text(t).len() == header_dates(split_lines(t)).len(),
{
    law_one_day_per_distinct_date(split_lines(t));
}

/// The chat that a header line starts.
pub open spec fn header_chat(line: Seq<char>) -> ChatModel {
    match classify(line) {
        LineModel::Header { time, speaker, message, .. } => ChatModel {
            time,
            speaker,
            message_lines: seq![message],
        },
        _ => ChatModel { time: arbitrary(), speaker: None, message_lines: Seq::empty() },
    }
}

proof fn lemma_round_trip(header: Seq<char>, rest: Seq<Seq<char>>)
    requires
        classify(header) is Header,
        forall|i: int| 0 <= i < rest.len() ==> #[trigger] classify(rest[i]) is Continuation,
    ensures
        parse_model(seq![header] + rest).current == Some(0int),
        parse_model(seq![header] + rest).days == seq![
            DayModel {
                date: header_date(header)->0,
                chats: seq![
                    ChatModel {
                        message_lines: header_chat(header).message_lines + rest,
                        ..header_chat(header)
                    },
                ],
            },
        ],
    decreases rest.len(),
{
    let lines = seq![header] + rest;
    if rest.len() == 0 {
        assert(lines.drop_last() =~= Seq::<Seq<char>>::empty());
        assert(header_chat(header).message_lines + rest =~= header_chat(header).message_lines);
        assert(find_day(Seq::<DayModel>::empty(), header_date(header)->0) is None);
        assert(lines.last() == header);
        assert(parse_model(lines) == step(parse_model(lines.drop_last()), 1, header));
        assert(parse_model(lines.drop_last()).days.len() == 0);
    } else {
        let pre = rest.drop_last();
        assert(lines.drop_last() =~= seq![header] + pre);
        assert(lines.last() == rest.last());
        lemma_round_trip(header, pre);
        assert(parse_model(lines) == step(parse_model(seq![header] + pre), lines.len() as int, rest.last()));
        assert(classify(rest[rest.len() - 1]) is Continuation);
        assert(header_chat(header).message_lines + pre.push(rest.last()) =~= (
        header_chat(header).message_lines + pre).push(rest.last()));
        assert(pre.push(rest.last()) =~= rest);
        let hc = header_chat(header);
        let p = parse_model(seq![header] + pre);
        let q = parse_model(lines);
        let c0 = p.days[0].chats[0];
        assert(c0 == ChatModel { message_lines: hc.message_lines + pre, ..hc });
        let nd = push_line_to_last(p.days[0], rest.last());
        assert(q.days == p.days.update(0, nd));
        let c1 = ChatModel { message_lines: hc.message_lines + rest, ..hc };
        assert(c1 == ChatModel { message_lines: c0.message_lines.push(rest.last()), ..c0 });
        assert(nd.chats =~= seq![c1]);
        assert(q.days =~= seq![DayModel { date: header_date(header)->0, chats: seq![c1] }]);
    }
}

/// A message cut into a header line and the continuation lines after it reads back as one
/// day holding one chat whose message lines are the header's message followed by those
/// lines, in order, none left out and none repeated.
pub proof fn law_message_lines_round_trip(header: Seq<char>, rest: Seq<Seq<char>>)
    requires
        classify(header) is Header,
        forall|i: int| 0 <= i < rest.len() ==> #[trigger] classify(rest[i]) is Continuation,
    ensures
        history_of_lines(seq![header] + rest) == seq![
            DayModel {
                date: header_date(header)->0,
                chats: seq![
                    ChatModel {
                        message_lines: header_chat(header).message_lines + rest,
                        ..header_chat(header)
                    },
                ],
            },
        ],
{
    lemma_round_trip(header, rest);
}

/// Every chat of the days, each with its day's date: day after day, chat after chat.
pub open spec fn all_chats(days: Seq<DayModel>) -> Seq<(Date, ChatModel)>
    decreases days.len(),
{
    if days.len() == 0 {
        Seq::empty()
    } else {
        all_chats(days.drop_last()) + days.last().chats.map_values(
            |c: ChatModel| (days.last().date, c),
        )
    }
}

/// A chat paired with its date mentions `k`.
pub open spec fn hit(k: Seq<char>) -> spec_fn((Date, ChatModel)) -> bool {
    |p: (Date, ChatModel)| mentions(p.1, k)
}

proof fn lemma_filter_map_commute(cs: Seq<ChatModel>, date: Date, k: Seq<char>)
    ensures
        cs.filter(|c: ChatModel| mentions(c, k)).map_values(|c: ChatModel| (date, c)) == cs.map_values(
            |c: ChatModel| (date, c),
        ).filter(hit(k)),
    decreases cs.len(),
{
    reveal(Seq::filter);
    let f = |c: ChatModel| (date, c);
    if cs.len() > 0 {
        lemma_filter_map_commute(cs.drop_last(), date, k);
        assert(cs.map_values(f).drop_last() =~= cs.drop_last().map_values(f));
        assert(cs.filter(|c: ChatModel| mentions(c, k)).map_values(f) =~= cs.map_values(f).filter(
            hit(k),
        ));
    } else {
        assert(cs.filter(|c: ChatModel| mentions(c, k)).map_values(f) =~= cs.map_values(f).filter(
            hit(k),
        ));
    }
}

/// The keyword search returns exactly the chats that have a line holding the keyword, each
/// once, with its date, in transcript order.
pub proof fn law_keyword_hits_are_the_mentioning_chats(days: Seq<DayModel>, k: Seq<char>)
    ensures
        history_hits(days, k) == all_chats(days).filter(hit(k)),
        forall|i: int|
            0 <= i < history_hits(days, k).len() ==> mentions(#[trigger] history_hits(days, k)[i].1, k),
    decreases days.len(),
{
    broadcast use Seq::filter_distributes_over_add, Seq::lemma_filter_pred;
    if days.len() > 0 {
        law_keyword_hits_are_the_mentioning_chats(days.drop_last(), k);
        lemma_filter_map_commute(days.last().chats, days.last().date, k);
    } else {
        reveal(Seq::filter);
        assert(all_chats(days).filter(hit(k)) =~= Seq::<(Date, ChatModel)>::empty());
    }
}

proof fn lemma_filter_keeps_all<A>(s: Seq<A>, p: spec_fn(A) -> bool)
    requires
        forall|i: int| 0 <= i < s.len() ==> p(#[trigger] s[i]),
    ensures
        s.filter(p) == s,
    decreases s.len(),
{
    reveal(Seq::filter);
    if s.len() > 0 {
        lemma_filter_keeps_all(s.drop_last(), p);
        assert(s.drop_last().push(s.last()) =~= s);
    }
}

/// A chat mentions the empty keyword.
proof fn lemma_mentions_empty(c: ChatModel)
    requires
        chat_wf(c),
    ensures
        mentions(c, Seq::empty()),
{
    assert(c.message_lines[0].subrange(0, 0) =~= Seq::<char>::empty());
    assert(occurs_at(c.message_lines[0], Seq::empty(), 0));
    assert(contains(c.message_lines[0], Seq::empty()));
}

/// The empty keyword finds every chat of a well-formed history once, in transcript order.
pub proof fn law_empty_keyword_finds_every_chat(days: Seq<DayModel>)
    requires
        days_wf(days),
    ensures
        history_hits(days, Seq::empty()) == all_chats(days),
    decreases days.len(),
{
    if days.len() > 0 {
        let d = days.last();
        assert(days_wf(days.drop_last())) by {
            assert forall|i: int, j: int| 0 <= i < j < days.drop_last().len() implies
                #[trigger] days.drop_last()[i].date != #[trigger] days.drop_last()[j].date by {
                assert(days[i].date != days[j].date);
            }
            assert forall|i: int| 0 <= i < days.drop_last().len() implies
                day_wf(#[trigger] days.drop_last()[i]) by {
                assert(day_wf(days[i]));
            }
        }
        law_empty_keyword_finds_every_chat(days.drop_last());
        assert(day_wf(days[days.len() - 1]));
        assert forall|i: int| 0 <= i < d.chats.len() implies mentions(
            #[trigger] d.chats[i],
            Seq::empty(),
        ) by {
            lemma_mentions_empty(d.chats[i]);
        }
        lemma_filter_keeps_all(d.chats, |c: ChatModel| mentions(c, Seq::empty()));
        assert(day_hits(d, Seq::empty()) == d.chats.map_values(|c: ChatModel| (d.date, c)));
    }
}

} // verus!
