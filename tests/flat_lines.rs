use line_history::{Date, History};

fn sample() -> History {
    History::from_text(
        "2021-01-01 10:00 A: hello\nworld\n2021-01-01 10:05 B: hi\n2021-01-02 08:00 C: morning world"
            .to_string(),
    )
}

#[test]
fn lines_are_numbered_within_each_day() {
    let lines = sample().lines();
    let got: Vec<(Date, usize, String)> =
        lines.iter().map(|l| (l.date, l.line_count, l.line.clone())).collect();
    let d1 = Date { year: 2021, month: 1, day: 1 };
    let d2 = Date { year: 2021, month: 1, day: 2 };
    assert_eq!(
        got,
        vec![
            (d1, 1, "hello".to_string()),
            (d1, 2, "world".to_string()),
            (d1, 3, "hi".to_string()),
            (d2, 1, "morning world".to_string()),
        ]
    );
}

#[test]
fn flat_keyword_search() {
    let hits = sample().search_lines_by_keyword("world");
    assert_eq!(hits.len(), 2);
    assert_eq!(hits[0].line_count, 2);
    assert_eq!(hits[0].date, Date { year: 2021, month: 1, day: 1 });
    assert_eq!(hits[1].line, "morning world");
    assert_eq!(hits[1].line_count, 1);
}

#[test]
fn random_line_is_one_of_the_lines() {
    let h = sample();
    let all: Vec<String> = h.lines().iter().map(|l| l.line.clone()).collect();
    for _ in 0..20 {
        let l = h.random_line().unwrap();
        assert!(all.contains(&l.line));
    }
    assert!(History::from_text(String::new()).random_line().is_none());
}

#[test]
fn flat_lines_of_one_date() {
    let lines = sample().search_lines_by_date(Date { year: 2021, month: 1, day: 1 });
    let got: Vec<String> = lines.iter().map(|l| l.line.clone()).collect();
    assert_eq!(got, vec!["hello".to_string(), "world".to_string(), "hi".to_string()]);
    assert!(sample().search_lines_by_date(Date { year: 2020, month: 1, day: 1 }).is_empty());
}
