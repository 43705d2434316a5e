use hockeyscraper::calendar_date::CalendarDate;
use hockeyscraper::gameinfo::{InternalGameInfo, BASE_LEN};
use hockeyscraper::scrape::{BuilderError, _BASE};
use std::cmp::Ordering;

fn game(gid: usize, day: u8, month: u8, year: u16) -> InternalGameInfo {
    InternalGameInfo::new(String::from("VAN"), String::from("ARI"), gid, CalendarDate::new(day, month, year))
}

#[test]
fn base_len_is_the_length_of_the_base() {
    assert_eq!(_BASE.len(), BASE_LEN);
}

#[test]
fn new_and_getters() {
    let g = game(2019020739, 16, 1, 2020);
    assert_eq!(g.get_home_team(), "VAN");
    assert_eq!(g.get_away_team(), "ARI");
    assert_eq!(g.get_id(), 2019020739);
    assert_eq!(g.gid, 2019020739);
    assert_eq!(g.get_date(), CalendarDate::new(16, 1, 2020));
    assert_eq!(g.date, CalendarDate::new(16, 1, 2020));
}

#[test]
fn make_clone_copies_everything() {
    let g = game(2019020739, 16, 1, 2020);
    let c = g.make_clone();
    assert_eq!(c.get_home_team(), g.get_home_team());
    assert_eq!(c.get_away_team(), g.get_away_team());
    assert_eq!(c.get_id(), g.get_id());
    assert_eq!(c.get_date(), g.get_date());
}

#[test]
fn report_urls() {
    let g = game(2019020739, 16, 1, 2020);
    assert_eq!(
        g.get_event_summary_url(2019),
        "http://www.nhl.com/scores/htmlreports/20192020/ES020739.HTM"
    );
    assert_eq!(
        g.get_game_summary_url(2019),
        "http://www.nhl.com/scores/htmlreports/20192020/GS020739.HTM"
    );
    assert_eq!(
        g.get_shot_summary_url(2019),
        "http://www.nhl.com/scores/htmlreports/20192020/SS020739.HTM"
    );
}

#[test]
fn from_url_reads_teams_date_and_id() {
    let url = "https://www.nhl.com/gamecenter/ari-vs-van/2020/01/16/2019020739";
    assert!(InternalGameInfo::url_is_readable(url));
    let g = InternalGameInfo::from_url(url).unwrap();
    assert_eq!(g.get_away_team(), "ARI");
    assert_eq!(g.get_home_team(), "VAN");
    assert_eq!(g.get_id(), 2019020739);
    assert_eq!(g.get_date(), CalendarDate::new(16, 1, 2020));
}

#[test]
fn from_url_reads_dashed_dates_and_extra_fields() {
    let url = "https://www.nhl.com/gamecenter/tor-vs-mtl/9/2021-02-03/2020020100";
    let g = InternalGameInfo::from_url(url).unwrap();
    assert_eq!(g.get_away_team(), "TOR");
    assert_eq!(g.get_home_team(), "MTL");
    assert_eq!(g.get_date(), CalendarDate::new(3, 2, 2021));
    assert!(!InternalGameInfo::url_is_readable("https://www.nhl.com/gamecenter/tor-vs-mtl/2021/x/03/2020020100"));
}

#[test]
fn from_url_home_team_stops_at_next_separator() {
    let url = "https://www.nhl.com/gamecenter/a-vs-b-vs-c/2020/01/16/5";
    let g = InternalGameInfo::from_url(url).unwrap();
    assert_eq!(g.get_away_team(), "A");
    assert_eq!(g.get_home_team(), "B");
}

#[test]
fn from_url_without_slash_is_wrong_format() {
    let url = "https://www.nhl.com/gamecenter/nothing-here";
    match InternalGameInfo::from_url(url) {
        Err(BuilderError::WrongURLStringFormat(rest)) => assert_eq!(rest, "nothing-here"),
        other => panic!("unexpected {:?}", other.map(|g| g.get_id())),
    }
}

#[test]
fn unreadable_urls() {
    // an id that is not a number
    assert!(!InternalGameInfo::url_is_readable("https://www.nhl.com/gamecenter/ari-vs-van/2020/01/16/20x9"));
    // too short for the base
    assert!(!InternalGameInfo::url_is_readable("https://www.nhl.com/"));
    // no "-vs-"
    assert!(!InternalGameInfo::url_is_readable("https://www.nhl.com/gamecenter/ari/2020/01/16/1"));
    // only one slash after the teams
    assert!(!InternalGameInfo::url_is_readable("https://www.nhl.com/gamecenter/ari-vs-van/1"));
    // fewer than three date fields
    assert!(!InternalGameInfo::url_is_readable("https://www.nhl.com/gamecenter/ari-vs-van/01/16/1"));
    // the base cut falls inside a character
    assert!(!InternalGameInfo::url_is_readable("https://www.nhl.com/gamecente\u{e9}/a-vs-b/2020/01/16/1"));
    assert!(InternalGameInfo::url_is_readable("https://www.nhl.com/gamecenter/nothing-here"));
}

#[test]
fn compare_by_id_unless_dates_disagree() {
    let a = game(10, 1, 1, 2020);
    let b = game(11, 2, 1, 2020);
    let postponed = game(5, 3, 1, 2020);
    let same_day = game(12, 2, 1, 2020);
    assert_eq!(a.compare(&b), Ordering::Less);
    assert_eq!(b.compare(&a), Ordering::Greater);
    assert_eq!(postponed.compare(&b), Ordering::Greater);
    assert_eq!(b.compare(&postponed), Ordering::Less);
    assert_eq!(b.compare(&same_day), Ordering::Less);
    assert_eq!(a.compare(&game(10, 9, 9, 2099)), Ordering::Equal);
    assert_eq!(a.partial_cmp(&b), Some(Ordering::Less));
    assert!(postponed > b);
}

#[test]
fn equality_is_by_game_id() {
    let a = game(10, 1, 1, 2020);
    let other = InternalGameInfo::new(String::from("X"), String::from("Y"), 10, CalendarDate::new(2, 2, 2021));
    assert!(a == other);
    assert!(a != game(11, 1, 1, 2020));
}

#[test]
fn from_url_reads_the_id_up_to_a_fragment() {
    let url = "https://www.nhl.com/gamecenter/ari-vs-van/2020/01/16/2019020739#game=2019020739,game_state=final";
    assert!(InternalGameInfo::url_is_readable(url));
    let g = InternalGameInfo::from_url(url).unwrap();
    assert_eq!(g.get_home_team(), "VAN");
    assert_eq!(g.get_away_team(), "ARI");
    assert_eq!(g.gid, 2019020739);
    assert_eq!(g.date, CalendarDate::new(16, 1, 2020));
}

#[test]
fn report_urls_differ_only_in_the_code() {
    let g = InternalGameInfo::new(String::from("H"), String::from("A"), 2019020739, CalendarDate::new(16, 1, 2020));
    let gs = g.get_game_summary_url(2019);
    assert_eq!(g.get_shot_summary_url(2019), gs.replacen("/GS0", "/SS0", 1));
    assert_eq!(g.get_event_summary_url(2019), gs.replacen("/GS0", "/ES0", 1));
}
