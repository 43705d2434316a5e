use hockeyscraper::calendar_date::CalendarDate;
use hockeyscraper::html::{ElementRows, ElementText};
use hockeyscraper::report::{
    empty_net_of_tables, event_totals_of_rows, goal_rows_of_tables, power_plays_of_texts, shots_of_tables,
    GoalTime, PowerPlay,
};

fn element(text: &str, parts: &[&str]) -> ElementText {
    ElementText { text: text.to_string(), parts: parts.iter().map(|p| p.to_string()).collect() }
}

fn totals(give: &str, take: &str, face: &str) -> ElementText {
    let mut cells = vec!["TEAM TOTALS"; 23];
    cells[17] = give;
    cells[18] = take;
    cells[22] = face;
    element("TEAM TOTALS", &cells)
}

#[test]
fn event_totals_of_given_rows() {
    let rows = vec![totals("3", "4", "51.0"), element("player", &["1"]), totals("5", "6", "49.0")];
    let t = event_totals_of_rows(&rows).unwrap();
    assert_eq!((t.give_aways.away, t.give_aways.home), (Some(3), Some(5)));
    assert_eq!((t.take_aways.away, t.take_aways.home), (Some(4), Some(6)));
    assert_eq!(t.face_offs.home.as_deref(), Some("49.0"));
    assert!(event_totals_of_rows(&vec![totals("three", "4", "51.0")]).is_none());
    let t = event_totals_of_rows(&vec![element("TEAM TOTALS", &["a", "b"])]).unwrap();
    assert_eq!((t.give_aways.away, t.give_aways.home), (None, None));
}

fn table(text: &str, rows: Vec<ElementText>) -> ElementRows {
    ElementRows { text: text.to_string(), rows }
}

#[test]
fn empty_net_and_goals_of_given_tables() {
    let mut ts: Vec<ElementRows> = (0..42).map(|_| table("x", vec![element("x", &["x"])])).collect();
    ts[9] = table(
        "goals",
        vec![element("head", &["G"]), element("1", &["2", "3", "10:04", "PP", "TOR", "A"])],
    );
    ts[41] = table("goalies", vec![element(" EMPTY NET ", &["a", "b", "02:00"])]);
    let e = empty_net_of_tables(&ts).unwrap();
    assert!(e.pulled);
    assert!(e.unread.is_empty());
    let goals = goal_rows_of_tables(&ts).unwrap();
    assert_eq!(goals.len(), 1);
    assert_eq!(goals[0].number, Some(2));
    assert_eq!(goals[0].time, Some(GoalTime::At { minutes: 10, seconds: 4 }));
    ts[41] = table("goalies", vec![element("EMPTY NET", &["a", "b", "0"])]);
    assert!(empty_net_of_tables(&ts).is_none());
    assert_eq!(goal_rows_of_tables(&vec![]).map(|g| g.len()), Some(0));
}

#[test]
fn power_plays_of_given_texts() {
    let text = String::from("TOT\nTOT\nPower Plays (Goals-Opp./PPTime)\n0-4/08:00\nPower Plays (Goals-Opp./PPTime)\n2-3/06:00\n");
    let (away, home) = power_plays_of_texts(&vec![text]).unwrap();
    assert_eq!(away, PowerPlay { goals: 0, total: 4 });
    assert_eq!(home, PowerPlay { goals: 2, total: 3 });
    assert!(power_plays_of_texts(&vec![String::from("TOT\nTOT\nPower Plays (Goals-Opp./PPTime)\n")]).is_none());
}

#[test]
fn shots_of_given_tables() {
    let team = |a: &str, b: &str| format!("a\nb\nc\nd\ne\n1\n2\n3\n4\n{}\n5\n6\n7\n8\n{}\nT\nT\nT\nT\n9-9\n", a, b);
    let mut tables: Vec<String> = (0..9).map(|_| String::from("x")).collect();
    tables[3] = team("0-7", "1-8");
    tables[8] = team("2-9", " ");
    assert_eq!(shots_of_tables(&tables), Some(vec![(7, 9), (8, 0)]));
    tables[8] = team("2-x", " ");
    assert_eq!(shots_of_tables(&tables), None);
    assert_eq!(shots_of_tables(&vec![]), Some(vec![]));
}

#[test]
fn display_without_dashes_reads_back() {
    for d in [CalendarDate::new(16, 1, 2020), CalendarDate::new(31, 12, 1999), CalendarDate::new(255, 99, 9999), CalendarDate::new(0, 0, 1000)] {
        let text = d.to_display_string().replace("-", "");
        assert_eq!(CalendarDate::try_from(text), Ok(d));
    }
}
