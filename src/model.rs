use vstd::prelude::*;
use crate::datetime::{Date, Time};
use crate::text::{chars_of, contains, contains_exec};

verus! {

/// What a chat is: its time, its speaker if any, and its message, one entry per line.
pub ghost struct ChatModel {
    pub time: Time,
    pub speaker: Option<Seq<char>>,
    pub message_lines: Seq<Seq<char>>,
}

/// What a day is: its date and its chats in transcript order.
pub ghost struct DayModel {
    pub date: Date,
    pub chats: Seq<ChatModel>,
}

/// A chat always holds the line that introduced it.
pub open spec fn chat_wf(c: ChatModel) -> bool {
    c.message_lines.len() > 0
}

/// A day holds well-formed chats.
pub open spec fn day_wf(d: DayModel) -> bool {
    forall|i: int| 0 <= i < d.chats.len() ==> chat_wf(#[trigger] d.chats[i])
}

pub open spec fn string_opt_view(o: Option<String>) -> Option<Seq<char>> {
    match o {
        Some(s) => Some(s@),
        None => None,
    }
}

pub open spec fn strings_view(v: Seq<String>) -> Seq<Seq<char>> {
    v.map_values(|s: String| s@)
}

pub open spec fn chats_view(v: Seq<Chat>) -> Seq<ChatModel> {
    v.map_values(|c: Chat| c@)
}

pub open spec fn days_view(v: Seq<Day>) -> Seq<DayModel> {
    v.map_values(|d: Day| d@)
}

/// The view of a list of (date, chat) results.
pub open spec fn hits_view(v: Seq<(Date, Chat)>) -> Seq<(Date, ChatModel)> {
    v.map_values(|p: (Date, Chat)| (p.0, p.1@))
}

/// One logical message of the transcript.
pub struct Chat {
    time: Time,
    speaker: Option<String>,
    message_lines: Vec<String>,
}

impl View for Chat {
    type V = ChatModel;

    closed spec fn view(&self) -> ChatModel {
        ChatModel {
            time: self.time,
            speaker: string_opt_view(self.speaker),
            message_lines: strings_view(self.message_lines@),
        }
    }
}

/// All chats of one calendar date.
pub struct Day {
    date: Date,
    chats: Vec<Chat>,
}

impl View for Day {
    type V = DayModel;

    closed spec fn view(&self) -> DayModel {
        DayModel { date: self.date, chats: chats_view(self.chats@) }
    }
}

/// Some line of the chat's message holds `k` as a substring.
pub open spec fn mentions(c: ChatModel, k: Seq<char>) -> bool {
    exists|j: int| 0 <= j < c.message_lines.len() && contains(#[trigger] c.message_lines[j], k)
}

/// The chats of `d` that mention `k`, in order, each paired with the day's date.
pub open spec fn day_hits(d: DayModel, k: Seq<char>) -> Seq<(Date, ChatModel)> {
    d.chats.filter(|c: ChatModel| mentions(c, k)).map_values(|c: ChatModel| (d.date, c))
}

/// Keeping the first `i + 1` items under a filter: the first `i`, then item `i` if it passes.
pub proof fn lemma_filter_take_step<A>(s: Seq<A>, p: spec_fn(A) -> bool, i: int)
    requires
        0 <= i < s.len(),
    ensures
        s.take(i + 1).filter(p) == (if p(s[i]) {
            s.take(i).filter(p).push(s[i])
        } else {
            s.take(i).filter(p)
        }),
{
    reveal(Seq::filter);
    assert(s.take(i + 1).drop_last() =~= s.take(i));
}

fn copy_string_opt(o: &Option<String>) -> (r: Option<String>)
    ensures
        string_opt_view(r) == string_opt_view(*o),
{
    match o {
        Some(s) => Some(s.clone()),
        None => None,
    }
}

fn copy_strings(v: &Vec<String>) -> (r: Vec<String>)
    ensures
        strings_view(r@) == strings_view(v@),
{
    let mut out: Vec<String> = Vec::new();
    let mut i: usize = 0;
    while i < v.len()
        invariant
            i <= v@.len(),
            strings_view(out@) == strings_view(v@.take(i as int)),
        decreases v@.len() - i,
    {
        let ghost prev = out@;
        out.push(v[i].clone());
        proof {
            assert(v@.take(i + 1) =~= v@.take(i as int).push(v@[i as int]));
            assert(strings_view(out@) =~= strings_view(prev).push(v@[i as int]@));
            assert(strings_view(v@.take(i + 1)) =~= strings_view(v@.take(i as int)).push(
                v@[i as int]@,
            ));
        }
        i = i + 1;
    }
    proof {
        assert(v@.take(v@.len() as int) =~= v@);
    }
    out
}

impl Chat {
    /// A chat at `time` said by `speaker`, whose message has these lines.
    pub fn new(time: Time, speaker: Option<String>, message_lines: Vec<String>) -> (r: Chat)
        requires
            message_lines@.len() > 0,
        ensures
            r@ == (ChatModel {
                time,
                speaker: string_opt_view(speaker),
                message_lines: strings_view(message_lines@),
            }),
            chat_wf(r@),
    {
        Chat { time, speaker, message_lines }
    }

    pub fn time(&self) -> (r: Time)
        ensures
            r == self@.time,
    {
        self.time
    }

    pub fn speaker(&self) -> (r: &Option<String>)
        ensures
            string_opt_view(*r) == self@.speaker,
    {
        &self.speaker
    }

    pub fn message_lines(&self) -> (r: &Vec<String>)
        ensures
            strings_view(r@) == self@.message_lines,
    {
        &self.message_lines
    }

    /// An independent chat with the same contents.
    pub fn copy(&self) -> (r: Chat)
        ensures
            r@ == self@,
    {
        Chat {
            time: self.time,
            speaker: copy_string_opt(&self.speaker),
            message_lines: copy_strings(&self.message_lines),
        }
    }

    /// Appends one more line to the message.
    pub fn push_line(&mut self, line: String)
        ensures
            final(self)@ == (ChatModel {
                message_lines: old(self)@.message_lines.push(line@),
                ..old(self)@
            }),
    {
        self.message_lines.push(line);
        proof {
            assert(strings_view(self.message_lines@) =~= strings_view(old(self).message_lines@).push(line@));
        }
    }
}

impl Chat {
    /// Whether some line of the message holds `k` as a substring.
    pub fn mentions(&self, k: &Vec<char>) -> (r: bool)
        ensures
            r == mentions(self@, k@),
    {
        let mut j: usize = 0;
        while j < self.message_lines.len()
            invariant
                j <= self.message_lines@.len(),
                forall|t: int| 0 <= t < j ==> !contains(#[trigger] self@.message_lines[t], k@),
            decreases self.message_lines@.len() - j,
        {
            let line = chars_of(self.message_lines[j].as_str());
            assert(self@.message_lines[j as int] == line@);
            if contains_exec(&line, k) {
                return true;
            }
            j = j + 1;
        }
        false
    }
}

impl Day {
    /// A day of this date with these chats.
    pub fn new(date: Date, chats: Vec<Chat>) -> (r: Day)
        ensures
            r@ == (DayModel { date, chats: chats_view(chats@) }),
    {
        Day { date, chats }
    }

    pub fn date(&self) -> (r: Date)
        ensures
            r == self@.date,
    {
        self.date
    }

    /// Copies of the day's chats, in order.
    pub fn chats(&self) -> (r: Vec<Chat>)
        ensures
            chats_view(r@) == self@.chats,
    {
        let mut out: Vec<Chat> = Vec::new();
        let mut i: usize = 0;
        while i < self.chats.len()
            invariant
                i <= self.chats@.len(),
                chats_view(out@) == chats_view(self.chats@.take(i as int)),
            decreases self.chats@.len() - i,
        {
            let ghost prev = out@;
            out.push(self.chats[i].copy());
            proof {
                assert(self.chats@.take(i + 1) =~= self.chats@.take(i as int).push(self.chats@[i as int]));
                assert(chats_view(out@) =~= chats_view(prev).push(self.chats@[i as int]@));
                assert(chats_view(self.chats@.take(i + 1)) =~= chats_view(self.chats@.take(i as int)).push(
                    self.chats@[i as int]@,
                ));
            }
            i = i + 1;
        }
        proof {
            assert(self.chats@.take(self.chats@.len() as int) =~= self.chats@);
        }
        out
    }

    /// Appends copies of the chats that mention `k`, each with this day's date.
    pub fn push_hits(&self, k: &Vec<char>, out: &mut Vec<(Date, Chat)>)
        ensures
            hits_view(final(out)@) == hits_view(old(out)@) + day_hits(self@, k@),
    {
        let ghost p = |c: ChatModel| mentions(c, k@);
        let ghost f = |c: ChatModel| (self.date, c);
        let ghost cs = chats_view(self.chats@);
        let mut i: usize = 0;
        proof {
            reveal(Seq::filter);
            assert(cs.take(0).filter(p) =~= Seq::<ChatModel>::empty());
            assert(hits_view(out@) =~= hits_view(old(out)@) + cs.take(0).filter(p).map_values(f));
        }
        while i < self.chats.len()
            invariant
                i <= self.chats@.len(),
                cs == chats_view(self.chats@),
                p == (|c: ChatModel| mentions(c, k@)),
                f == (|c: ChatModel| (self.date, c)),
                hits_view(out@) == hits_view(old(out)@) + cs.take(i as int).filter(p).map_values(f),
            decreases self.chats@.len() - i,
        {
            proof {
                lemma_filter_take_step(cs, p, i as int);
            }
            if self.chats[i].mentions(k) {
                let ghost prev = out@;
                out.push((self.date, self.chats[i].copy()));
                proof {
                    assert(hits_view(out@) =~= hits_view(prev).push((self.date, cs[i as int])));
                }
            }
            proof {
                assert(hits_view(out@) =~= hits_view(old(out)@) + cs.take(i + 1).filter(p).map_values(f));
            }
            i = i + 1;
        }
        proof {
            assert(cs.take(cs.len() as int) =~= cs);
            assert(hits_view(final(out)@) =~= hits_view(old(out)@) + day_hits(self@, k@));
        }
    }

    /// The chats of this day that mention `keyword`, in order, each with the day's date.
    pub fn search_by_keyword(&self, keyword: &str) -> (r: Vec<(Date, Chat)>)
        ensures
            hits_view(r@) == day_hits(self@, keyword@),
    {
        let k = chars_of(keyword);
        let mut out: Vec<(Date, Chat)> = Vec::new();
        self.push_hits(&k, &mut out);
        proof {
            assert(hits_view(out@) =~= day_hits(self@, keyword@));
        }
        out
    }
}

impl Day {
    /// An independent day with the same contents.
    pub fn copy(&self) -> (r: Day)
        ensures
            r@ == self@,
    {
        Day::new(self.date, self.chats())
    }

    /// Appends a chat at the end of the day.
    pub fn push_chat(&mut self, c: Chat)
        ensures
            final(self)@ == (DayModel { date: old(self)@.date, chats: old(self)@.chats.push(c@) }),
    {
        self.chats.push(c);
        proof {
            assert(chats_view(self.chats@) =~= chats_view(old(self).chats@).push(c@));
        }
    }

    /// Appends the chats of `other` at the end of the day, keeping this day's date.
    pub fn append_chats(&mut self, other: Day)
        ensures
            final(self)@ == (DayModel { date: old(self)@.date, chats: old(self)@.chats + other@.chats }),
    {
        let mut o = other.chats;
        self.chats.append(&mut o);
        proof {
            assert(chats_view(self.chats@) =~= chats_view(old(self).chats@) + chats_view(other.chats@));
        }
    }

    /// Appends one line to the message of the day's last chat.
    pub fn push_line_to_last(&mut self, line: String)
        requires
            old(self)@.chats.len() > 0,
        ensures
            final(self)@ == push_line_to_last(old(self)@, line@),
    {
        let mut c = self.chats.pop().unwrap();
        c.push_line(line);
        self.chats.push(c);
        proof {
            assert(chats_view(self.chats@) =~= push_line_to_last(old(self)@, line@).chats);
        }
    }
}

/// `d` with `line` added to the message of its last chat.
pub open spec fn push_line_to_last(d: DayModel, line: Seq<char>) -> DayModel {
    let last = d.chats.last();
    DayModel {
        date: d.date,
        chats: d.chats.update(
            d.chats.len() - 1,
            ChatModel { message_lines: last.message_lines.push(line), ..last },
        ),
    }
}

/// One physical line of a day, in the flat form: its date, its position among the day's
/// lines (counting from 1) and its text.
pub struct LineContent {
    pub date: Date,
    pub line_count: usize,
    pub line: String,
}

pub open spec fn lines_view(v: Seq<LineContent>) -> Seq<(Date, int, Seq<char>)> {
    v.map_values(|l: LineContent| (l.date, l.line_count as int, l.line@))
}

/// The message lines of the chats, one chat after another.
pub open spec fn chat_lines(chats: Seq<ChatModel>) -> Seq<Seq<char>>
    decreases chats.len(),
{
    if chats.len() == 0 {
        Seq::empty()
    } else {
        chat_lines(chats.drop_last()) + chats.last().message_lines
    }
}

/// The lines with this date, each with its position counting from 1.
pub open spec fn numbered(date: Date, ls: Seq<Seq<char>>) -> Seq<(Date, int, Seq<char>)> {
    Seq::new(ls.len(), |x: int| (date, x + 1, ls[x]))
}

/// The lines of a day in the flat form.
pub open spec fn day_lines(d: DayModel) -> Seq<(Date, int, Seq<char>)> {
    numbered(d.date, chat_lines(d.chats))
}

proof fn lemma_chat_lines_grow(cs: Seq<ChatModel>, i: int, j: int)
    requires
        0 <= i <= j <= cs.len(),
    ensures
        chat_lines(cs.take(i)).len() <= chat_lines(cs.take(j)).len(),
    decreases j - i,
{
    if i < j {
        assert(cs.take(j).drop_last() =~= cs.take(j - 1));
        lemma_chat_lines_grow(cs, i, j - 1);
    }
}

impl Day {
    /// Appends the day's lines in the flat form.
    pub fn push_lines(&self, out: &mut Vec<LineContent>)
        requires
            chat_lines(self@.chats).len() < usize::MAX,
        ensures
            lines_view(final(out)@) == lines_view(old(out)@) + day_lines(self@),
    {
        let ghost cs = self@.chats;
        let mut count: usize = 0;
        let mut i: usize = 0;
        proof {
            assert(numbered(self.date, chat_lines(cs.take(0))) =~= Seq::empty());
            assert(lines_view(out@) =~= lines_view(old(out)@) + numbered(self.date, chat_lines(cs.take(0))));
        }
        while i < self.chats.len()
            invariant
                i <= cs.len(),
                cs == self@.chats,
                chat_lines(cs).len() < usize::MAX,
                count == chat_lines(cs.take(i as int)).len(),
                lines_view(out@) == lines_view(old(out)@) + numbered(self.date, chat_lines(cs.take(i as int))),
            decreases cs.len() - i,
        {
            let chat = &self.chats[i];
            let ghost ml = cs[i as int].message_lines;
            let ghost before = chat_lines(cs.take(i as int));
            proof {
                assert(cs.take(i + 1).drop_last() =~= cs.take(i as int));
                lemma_chat_lines_grow(cs, i + 1, cs.len() as int);
                assert(cs.take(cs.len() as int) =~= cs);
                assert(before + ml.take(0) =~= before);
            }
            let mut t: usize = 0;
            while t < chat.message_lines.len()
                invariant
                    t <= ml.len(),
                    ml == strings_view(chat.message_lines@),
                    before.len() + ml.len() < usize::MAX,
                    count == before.len() + t,
                    lines_view(out@) == lines_view(old(out)@) + numbered(self.date, before + ml.take(t as int)),
                decreases ml.len() - t,
            {
                let ghost prev = out@;
                count = count + 1;
                out.push(LineContent { date: self.date, line_count: count, line: chat.message_lines[t].clone() });
                proof {
                    assert(before + ml.take(t + 1) =~= (before + ml.take(t as int)).push(ml[t as int]));
                    assert(lines_view(out@) =~= lines_view(prev).push((self.date, count as int, ml[t as int])));
                    assert(numbered(self.date, before + ml.take(t + 1)) =~= numbered(self.date, before + ml.take(t as int)).push((self.date, count as int, ml[t as int])));
                }
                t = t + 1;
            }
            proof {
                assert(ml.take(ml.len() as int) =~= ml);
            }
            i = i + 1;
        }
        proof {
            assert(cs.take(cs.len() as int) =~= cs);
        }
    }
}

} // verus!
