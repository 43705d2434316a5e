use hockeyscraper::report::{
    read_empty_net, read_event_totals, read_goal_row, read_goal_rows, read_power_plays, read_shots,
    try_read_game_reports, GoalTime, PowerPlay,
};

fn totals_row(label: &str, give_aways: &str, take_aways: &str, face_offs: &str) -> String {
    let mut row = String::from("<tr class=\"bold\">");
    for i in 0..23 {
        let cell = match i {
            0 => label,
            17 => give_aways,
            18 => take_aways,
            22 => face_offs,
            _ => "0",
        };
        row.push_str(&format!("<td>{}</td>", cell));
    }
    row.push_str("</tr>");
    row
}

fn event_page(away_give_aways: &str) -> String {
    format!(
        "<html><body><table>{}{}{}<tr><td>TEAM TOTALS</td></tr></table></body></html>",
        totals_row("TEAM TOTALS", away_give_aways, "7", "55.3"),
        totals_row("PLAYER", "1", "1", "1"),
        totals_row("TEAM TOTALS", "9", "4", "44.7"),
    )
}

fn goal_table(first_time: &str) -> String {
    format!(
        "<table><tr><td>G</td><td>Per</td><td>Time</td><td>Str</td><td>Team</td><td>Goal</td></tr>\
         <tr><td>1</td><td>1</td><td> {} </td><td>EV</td><td>TOR</td><td>SMITH</td></tr>\
         <tr><td>-</td><td>SO</td><td>-</td><td>-</td><td>TOR</td><td>JONES</td></tr></table>",
        first_time
    )
}

fn game_page_with_goals(empty_net_times: &[&str], first_time: &str) -> String {
    let mut page = String::from("<html><body>");
    for i in 0..32 {
        if i == 9 {
            page.push_str(&goal_table(first_time));
        } else {
            page.push_str("<table><tr><td>x</td><td>y</td><td>z</td></tr></table>");
        }
    }
    page.push_str("<table>");
    for t in empty_net_times {
        page.push_str(&format!("<tr><td>EMPTY NET</td><td>-</td><td>{}</td></tr>", t));
    }
    page.push_str("<tr><td>GOALIE</td><td>-</td><td>00:00</td></tr></table>");
    page.push_str(
        "<div id=\"PenaltySummary\">\nTOT\nx\nTOT 2\nPower Plays (Goals-Opp./PPTime)\n1-3/06:00\nPower Plays (Goals-Opp./PPTime)\n2-5/08:10\n</div>",
    );
    page.push_str("</body></html>");
    page
}

fn game_page(empty_net_times: &[&str]) -> String {
    game_page_with_goals(empty_net_times, "05:12")
}

fn shot_table(first: &str, second: &str) -> String {
    format!(
        "<table><tr><td>a\nb\nc\nd\ne\n1\n2\n3\n4\n{}\n5\n6\n7\n8\n{}\nT\nT\nT\nT\n9-99\n</td></tr></table>",
        first, second
    )
}

fn shots_page(away_second: &str) -> String {
    let mut page = String::from("<html><body><div id=\"ShotsSummary\">");
    for i in 0..9 {
        if i == 3 {
            page.push_str(&shot_table("1-10", away_second));
        } else if i == 8 {
            page.push_str(&shot_table("2-15", "1-9"));
        } else {
            page.push_str("<table><tr><td>x</td></tr></table>");
        }
    }
    page.push_str("</div></body></html>");
    page
}

#[test]
fn event_totals_of_both_teams() {
    let totals = read_event_totals(&event_page("12")).unwrap();
    assert_eq!((totals.give_aways.away, totals.give_aways.home), (Some(12), Some(9)));
    assert_eq!((totals.take_aways.away, totals.take_aways.home), (Some(7), Some(4)));
    assert_eq!(totals.face_offs.away.as_deref(), Some("55.3"));
    assert_eq!(totals.face_offs.home.as_deref(), Some("44.7"));
}

#[test]
fn event_totals_refuse_a_give_away_that_is_no_count() {
    assert!(read_event_totals(&event_page("x")).is_none());
}

#[test]
fn event_totals_missing_rows_give_nothing() {
    let totals = read_event_totals("<html><body><p>none</p></body></html>").unwrap();
    assert_eq!((totals.give_aways.away, totals.give_aways.home), (None, None));
    assert_eq!((totals.take_aways.away, totals.take_aways.home), (None, None));
    assert!(totals.face_offs.away.is_none() && totals.face_offs.home.is_none());
}

#[test]
fn empty_net_times_are_read() {
    let e = read_empty_net(&game_page(&["01:30", "0x:10"])).unwrap();
    assert!(e.pulled);
    assert_eq!(e.unread, vec![String::from("0x:10")]);
    let e = read_empty_net(&game_page(&["00:10"])).unwrap();
    assert!(!e.pulled);
    assert!(e.unread.is_empty());
    assert!(read_empty_net(&game_page(&["0"])).is_none());
}

#[test]
fn power_plays_of_a_game_page() {
    let (away, home) = read_power_plays(&game_page(&[])).unwrap();
    assert_eq!(away, PowerPlay { goals: 1, total: 3 });
    assert_eq!(home, PowerPlay { goals: 2, total: 5 });
    assert!(read_power_plays("<html><body></body></html>").is_none());
}

#[test]
fn shots_of_a_shot_summary_page() {
    assert_eq!(read_shots(&shots_page("0-12")), Some(vec![(10, 15), (12, 9)]));
    assert_eq!(read_shots(&shots_page("0-x")), None);
    assert_eq!(read_shots("<html><body><table></table></body></html>"), None);
}

#[test]
fn game_reports_read_together() {
    let stats = try_read_game_reports(&game_page(&["01:30"]), &event_page("12"), &shots_page("0-12")).unwrap();
    assert_eq!((stats.give_aways.away, stats.give_aways.home), (Some(12), Some(9)));
    assert_eq!((stats.take_aways.away, stats.take_aways.home), (Some(7), Some(4)));
    assert_eq!(stats.goals.len(), 2);
    assert_eq!(stats.goals[0].time, Some(GoalTime::At { minutes: 5, seconds: 12 }));
    assert!(stats.goalie_pulled);
    assert!(stats.unread_empty_net_times.is_empty());
    assert_eq!(stats.power_plays, (PowerPlay { goals: 1, total: 3 }, PowerPlay { goals: 2, total: 5 }));
    assert_eq!(stats.shots, vec![(10, 15), (12, 9)]);
    assert!(try_read_game_reports(&game_page(&[]), &event_page("x"), &shots_page("0-12")).is_none());
}

fn cells(texts: &[&str]) -> Vec<String> {
    texts.iter().map(|t| t.to_string()).collect()
}

#[test]
fn goal_rows_are_read_cell_by_cell() {
    let g = read_goal_row(&cells(&["1", "2", " 12:05 ", "PP", "MTL", "X"])).unwrap();
    assert_eq!(g.number, Some(1));
    assert_eq!(g.period.as_deref(), Some("2"));
    assert_eq!(g.time, Some(GoalTime::At { minutes: 12, seconds: 5 }));
    assert_eq!(g.strength.as_deref(), Some("PP"));
    assert_eq!(g.team.as_deref(), Some("MTL"));
    assert_eq!(g.player.as_deref(), Some("X"));
    let g = read_goal_row(&cells(&["-", "SO", "", "x"])).unwrap();
    assert_eq!(g.number, Some(0));
    assert_eq!(g.time, Some(GoalTime::Shootout));
    assert!(g.team.is_none() && g.player.is_none());
    let g = read_goal_row(&cells(&[" 4 ", " 3 "])).unwrap();
    assert_eq!((g.number, g.period.as_deref(), g.time), (Some(4), Some("3"), None));
    assert!(read_goal_row(&cells(&["x"])).is_none());
    assert!(read_goal_row(&cells(&["3", "1", "1205"])).is_none());
    assert!(read_goal_row(&cells(&["256"])).is_none());
    let g = read_goal_row(&cells(&[])).unwrap();
    assert!(g.number.is_none() && g.period.is_none() && g.time.is_none());
}

#[test]
fn goal_rows_of_a_game_page() {
    let rows = read_goal_rows(&game_page(&[])).unwrap();
    assert_eq!(rows.len(), 2);
    assert_eq!(rows[0].number, Some(1));
    assert_eq!(rows[0].player.as_deref(), Some("SMITH"));
    assert_eq!(rows[1].number, Some(0));
    assert_eq!(rows[1].time, Some(GoalTime::Shootout));
    assert!(read_goal_rows(&game_page_with_goals(&[], "5.12")).is_none());
    assert_eq!(read_goal_rows("<html><body></body></html>").map(|r| r.len()), Some(0));
}
