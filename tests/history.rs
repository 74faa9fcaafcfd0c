use line_history::{Chat, Date, Day, History, HistoryError, Time};

fn date(year: u32, month: u32, day: u32) -> Date {
    Date { year, month, day }
}

fn time(hour: u32, minute: u32) -> Time {
    Time { hour, minute, second: 0 }
}

fn lines(v: &[&str]) -> Vec<String> {
    v.iter().map(|s| s.to_string()).collect()
}

#[test]
fn two_chats_with_a_continuation_line() {
    let h = History::from_text(
        "2021-01-01 10:00 Alice: hello\nworld\n2021-01-01 10:05 Bob: hi".to_string(),
    );
    assert_eq!(h.len(), 1);
    let day = h.search_by_date(date(2021, 1, 1)).unwrap();
    assert_eq!(day.date(), date(2021, 1, 1));
    let chats = day.chats();
    assert_eq!(chats.len(), 2);
    assert_eq!(chats[0].time(), time(10, 0));
    assert_eq!(chats[0].speaker(), &Some("Alice".to_string()));
    assert_eq!(chats[0].message_lines(), &lines(&["hello", "world"]));
    assert_eq!(chats[1].time(), time(10, 5));
    assert_eq!(chats[1].speaker(), &Some("Bob".to_string()));
    assert_eq!(chats[1].message_lines(), &lines(&["hi"]));
}

#[test]
fn leading_continuation_line_is_one_error() {
    let input = lines(&["world", "2021-01-01 10:00 Alice: hi"]);
    let (h, errors) = History::from_lines_with_errors(&input);
    assert_eq!(errors.len(), 1);
    assert_eq!(errors[0].line_number, 1);
    assert_eq!(errors[0].content, "world");
    let chats = h.search_by_date(date(2021, 1, 1)).unwrap().chats();
    assert_eq!(chats.len(), 1);
    assert_eq!(chats[0].message_lines(), &lines(&["hi"]));
}

#[test]
fn strict_parse_reports_errors() {
    match History::from_text_strict("world\n2021-01-01 10:00 Alice: hi") {
        Err(HistoryError::Parse(errors)) => {
            assert_eq!(errors.len(), 1);
            assert_eq!(errors[0].line_number, 1);
        }
        _ => panic!("expected a parse error"),
    }
    match History::from_text_strict("2021-01-01 10:00 Alice: hi\nmore") {
        Ok(h) => assert_eq!(h.len(), 1),
        Err(_) => panic!("expected a history"),
    }
}

#[test]
fn failed_read_is_an_io_error() {
    assert!(matches!(History::from_read_result(None), Err(HistoryError::Io)));
    match History::from_read_result(Some("2021-01-01 10:00 A: x".to_string())) {
        Ok(h) => assert_eq!(h.len(), 1),
        Err(_) => panic!("expected a history"),
    }
}

#[test]
fn repeated_date_counts_once() {
    let h = History::from_text(
        "2021-01-01 10:00 A: one\n2021-01-02 11:00 B: two\n2021-01-01 12:00 C: three\n".to_string(),
    );
    assert_eq!(h.len(), 2);
    let days = h.days();
    assert_eq!(days[0].date(), date(2021, 1, 1));
    assert_eq!(days[1].date(), date(2021, 1, 2));
    let first = days[0].chats();
    assert_eq!(first.len(), 2);
    assert_eq!(first[0].message_lines(), &lines(&["one"]));
    assert_eq!(first[1].message_lines(), &lines(&["three"]));
}

#[test]
fn search_by_date_present_and_absent() {
    let h = History::from_text("2021-01-01 10:00 A: one\n2021-03-04 11:00 B: two".to_string());
    assert_eq!(h.search_by_date(date(2021, 3, 4)).unwrap().date(), date(2021, 3, 4));
    assert!(h.search_by_date(date(2021, 3, 5)).is_none());
}

#[test]
fn keyword_search_in_transcript_order() {
    let h = History::from_text(
        "2021-01-01 10:00 A: apple pie\n2021-01-01 10:01 B: banana\nmore apples\n2021-01-02 09:00 C: Apple\n2021-01-02 09:30 D: pineapple"
            .to_string(),
    );
    let hits = h.search_by_keyword("apple");
    assert_eq!(hits.len(), 3);
    assert_eq!(hits[0].0, date(2021, 1, 1));
    assert_eq!(hits[0].1.speaker(), &Some("A".to_string()));
    assert_eq!(hits[1].1.speaker(), &Some("B".to_string()));
    assert_eq!(hits[2].0, date(2021, 1, 2));
    assert_eq!(hits[2].1.speaker(), &Some("D".to_string()));
    assert!(h.search_by_keyword("cherry").is_empty());
}

#[test]
fn empty_keyword_finds_every_chat() {
    let h = History::from_text(
        "2021-01-01 10:00 A: one\n2021-01-02 11:00 B: two\n2021-01-02 12:00 C: three".to_string(),
    );
    let hits = h.search_by_keyword("");
    assert_eq!(hits.len(), 3);
    assert_eq!(hits[0].1.message_lines(), &lines(&["one"]));
    assert_eq!(hits[1].1.message_lines(), &lines(&["two"]));
    assert_eq!(hits[2].1.message_lines(), &lines(&["three"]));
}

#[test]
fn random_day_is_one_of_the_days() {
    let h = History::from_text("2021-01-01 10:00 A: one\n2021-01-02 11:00 B: two".to_string());
    let dates: Vec<Date> = h.days().iter().map(|d| d.date()).collect();
    for _ in 0..20 {
        let d = h.search_by_random().unwrap();
        assert!(dates.contains(&d.date()));
    }
    let empty = History::from_text(String::new());
    assert!(empty.search_by_random().is_none());
}

#[test]
fn split_message_reads_back_in_order() {
    let message = ["first", "second", "", "fourth"];
    let mut input = vec![format!("2022-05-06 07:08 Eve: {}", message[0])];
    for line in &message[1..] {
        input.push(line.to_string());
    }
    let h = History::from_lines(&input);
    let chats = h.search_by_date(date(2022, 5, 6)).unwrap().chats();
    assert_eq!(chats.len(), 1);
    assert_eq!(chats[0].message_lines(), &lines(&message));
}

#[test]
fn empty_input_is_an_empty_history() {
    let h = History::from_text(String::new());
    assert_eq!(h.len(), 0);
    assert!(h.is_empty());
    assert!(h.days().is_empty());
}

#[test]
fn date_that_does_not_exist_is_an_error() {
    let input = lines(&[
        "2021-02-29 10:00 A: not a leap year",
        "2020-02-29 10:00 A: leap day",
        "2021-01-01 24:00 A: no such hour",
    ]);
    let (h, errors) = History::from_lines_with_errors(&input);
    assert_eq!(errors.len(), 2);
    assert_eq!(errors[0].line_number, 1);
    assert_eq!(errors[1].line_number, 3);
    assert_eq!(h.len(), 1);
    assert!(h.search_by_date(date(2020, 2, 29)).is_some());
}

#[test]
fn seconds_and_missing_speaker() {
    let h = History::from_text("2021-01-01 10:00:30 system notice\n2021-01-01 10:01 : odd".to_string());
    let chats = h.search_by_date(date(2021, 1, 1)).unwrap().chats();
    assert_eq!(chats[0].time(), Time { hour: 10, minute: 0, second: 30 });
    assert_eq!(chats[0].speaker(), &None);
    assert_eq!(chats[0].message_lines(), &lines(&["system notice"]));
    assert_eq!(chats[1].speaker(), &None);
    assert_eq!(chats[1].message_lines(), &lines(&[": odd"]));
}

#[test]
fn new_merges_days_of_one_date() {
    let c1 = Chat::new(time(1, 0), None, lines(&["a"]));
    let c2 = Chat::new(time(2, 0), Some("X".to_string()), lines(&["b"]));
    let c3 = Chat::new(time(3, 0), None, lines(&["c"]));
    let h = History::new(vec![
        Day::new(date(2020, 1, 1), vec![c1]),
        Day::new(date(2020, 1, 2), vec![c2]),
        Day::new(date(2020, 1, 1), vec![c3]),
    ]);
    assert_eq!(h.len(), 2);
    let chats = h.search_by_date(date(2020, 1, 1)).unwrap().chats();
    assert_eq!(chats.len(), 2);
    assert_eq!(chats[1].message_lines(), &lines(&["c"]));
}

#[test]
fn day_keyword_search() {
    let h = History::from_text("2021-01-01 10:00 A: hello\n2021-01-01 10:01 B: bye".to_string());
    let day = h.search_by_date(date(2021, 1, 1)).unwrap();
    let hits = day.search_by_keyword("bye");
    assert_eq!(hits.len(), 1);
    assert_eq!(hits[0].0, date(2021, 1, 1));
    assert_eq!(hits[0].1.speaker(), &Some("B".to_string()));
}

#[test]
fn date_and_time_constructors() {
    assert_eq!(Date::from_ymd(2024, 2, 29), Some(date(2024, 2, 29)));
    assert_eq!(Date::from_ymd(1900, 2, 29), None);
    assert_eq!(Date::from_ymd(2000, 2, 29), Some(date(2000, 2, 29)));
    assert_eq!(Date::from_ymd(2021, 4, 31), None);
    assert_eq!(Date::from_ymd(2021, 13, 1), None);
    assert_eq!(Time::from_hms(23, 59, 59), Some(Time { hour: 23, minute: 59, second: 59 }));
    assert_eq!(Time::from_hms(23, 60, 0), None);
}
