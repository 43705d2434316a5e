use hockeyscraper::calendar_date::CalendarDate;
use hockeyscraper::gameinfo::InternalGameInfo;
use hockeyscraper::scrape::{
    convert_fwd_slashes, count_postponed, game_center_url, games_before, ids_in_range,
    latest_games_by_id, process_gr_results, process_results, sort_games, sorted_season,
    BuilderError, ScrapeResults,
};

fn game(gid: usize, day: u8, month: u8) -> InternalGameInfo {
    InternalGameInfo::new(format!("H{}", gid), format!("A{}", gid), gid, CalendarDate::new(day, month, 2020))
}

#[test]
fn convert_fwd_slashes_only_changes_slashes() {
    assert_eq!(convert_fwd_slashes('/'), '-');
    assert_eq!(convert_fwd_slashes('-'), '-');
    assert_eq!(convert_fwd_slashes('a'), 'a');
    let s: String = "2020/01/16".chars().map(convert_fwd_slashes).collect();
    assert_eq!(s, "2020-01-16");
}

#[test]
fn process_gr_results_splits_in_order() {
    let rs: Vec<ScrapeResults<u32>> = vec![
        Ok(3),
        Err((7, BuilderError::GamePostponed)),
        Ok(1),
        Err((9, BuilderError::ChannelError)),
        Ok(2),
    ];
    let (oks, errs) = process_gr_results(&rs);
    assert_eq!(oks, vec![&3, &1, &2]);
    assert_eq!(errs.len(), 2);
    assert_eq!(errs[0].0, 7);
    assert_eq!(errs[0].1, BuilderError::GamePostponed);
    assert_eq!(errs[1].0, 9);
    assert_eq!(oks.len() + errs.len(), rs.len());
}

#[test]
fn process_results_sorts_by_date_then_id() {
    let rs: Vec<ScrapeResults<InternalGameInfo>> = vec![
        Ok(game(12, 2, 1)),
        Ok(game(5, 3, 1)),
        Err((6, BuilderError::WrongURLStringFormat(String::from("x")))),
        Ok(game(11, 2, 1)),
        Ok(game(10, 1, 1)),
    ];
    let (games, errs) = process_results(&rs);
    let ids: Vec<usize> = games.iter().map(|g| g.get_id()).collect();
    assert_eq!(ids, vec![10, 11, 12, 5]);
    assert_eq!(errs.len(), 1);
    assert_eq!(errs[0].1, BuilderError::WrongURLStringFormat(String::from("x")));
    // agrees with sorting by the comparison itself when ids are unique
    let mut by_cmp: Vec<&InternalGameInfo> = rs.iter().filter_map(|r| r.as_ref().ok()).collect();
    by_cmp.sort_by(|a, b| a.compare(b));
    let cmp_ids: Vec<usize> = by_cmp.iter().map(|g| g.get_id()).collect();
    assert_eq!(cmp_ids, ids);
}

#[test]
fn sort_is_stable_for_equal_keys() {
    let a = InternalGameInfo::new(String::from("first"), String::from("a"), 4, CalendarDate::new(1, 1, 2020));
    let b = InternalGameInfo::new(String::from("second"), String::from("b"), 4, CalendarDate::new(1, 1, 2020));
    let c = game(3, 1, 1);
    let sorted = sort_games(&vec![&a, &c, &b]);
    let homes: Vec<&str> = sorted.iter().map(|g| g.get_home_team().as_str()).collect();
    assert_eq!(homes, vec!["H3", "first", "second"]);
}

#[test]
fn sorted_season_copies_in_order() {
    let season = vec![game(3, 5, 1), game(1, 4, 1), game(2, 4, 1)];
    let sorted = sorted_season(&season);
    let ids: Vec<usize> = sorted.iter().map(|g| g.get_id()).collect();
    assert_eq!(ids, vec![1, 2, 3]);
    assert_eq!(sorted[0].get_home_team(), "H1");
}

#[test]
fn games_before_keeps_earlier_games() {
    let season = vec![game(1, 1, 1), game(2, 2, 1), game(3, 3, 1), game(4, 1, 1)];
    let until = CalendarDate::new(3, 1, 2020);
    let before = games_before(&season, &until);
    let ids: Vec<usize> = before.iter().map(|g| g.get_id()).collect();
    assert_eq!(ids, vec![1, 2, 4]);
}

#[test]
fn count_postponed_counts_only_postponements() {
    let e1 = (1, BuilderError::GamePostponed);
    let e2 = (2, BuilderError::REQWEST(String::from("timeout")));
    let e3 = (3, BuilderError::GamePostponed);
    assert_eq!(count_postponed(&vec![&e1, &e2, &e3]), 2);
    assert_eq!(count_postponed(&vec![]), 0);
}

#[test]
fn latest_games_by_id_keeps_last_of_each_in_id_order() {
    let ids = vec![30, 10, 20, 10, 30, 5];
    assert_eq!(latest_games_by_id(&ids), vec![5, 3, 2, 4]);
    assert_eq!(latest_games_by_id(&vec![]), Vec::<usize>::new());
    assert_eq!(latest_games_by_id(&vec![7, 7, 7]), vec![2]);
}

#[test]
fn game_center_url_appends_the_id() {
    assert_eq!(game_center_url(2020020001), "https://www.nhl.com/gamecenter/2020020001");
}

#[test]
fn ids_in_range_lists_the_range() {
    assert_eq!(ids_in_range(5..9), vec![5, 6, 7, 8]);
    assert_eq!(ids_in_range(9..5), Vec::<usize>::new());
}

#[test]
fn only_postponements_leave_the_rest_scraped() {
    let rs: Vec<ScrapeResults<u32>> = vec![Ok(1), Err((2, BuilderError::GamePostponed)), Ok(3), Err((4, BuilderError::GamePostponed))];
    let (oks, errs) = process_gr_results(&rs);
    assert_eq!(oks.len(), rs.len() - count_postponed(&errs));
}
