use hockeyscraper::calendar_date::CalendarDate;
use hockeyscraper::scrape_config::{
    first_game_id_of_season, join_path, CommandLine, ConfigError, ScrapeConfig, GAMES_IN_SEASON,
};

fn cmd(dir: Option<&str>, year: Option<&str>, games: Option<&str>, end: Option<&str>) -> CommandLine {
    CommandLine {
        help: false,
        dir_count: if dir.is_some() { 1 } else { 0 },
        year_count: if year.is_some() { 1 } else { 0 },
        dir: dir.map(String::from),
        year: year.map(String::from),
        games: games.map(String::from),
        end: end.map(String::from),
    }
}

#[test]
fn first_game_id_of_2020() {
    assert_eq!(first_game_id_of_season(2020), 2020020001);
    assert_eq!(first_game_id_of_season(2019), 2019020001);
}

#[test]
fn join_path_puts_one_slash() {
    assert_eq!(join_path(".", "assets/db"), "./assets/db");
    assert_eq!(join_path("root/", "assets/db"), "root/assets/db");
    assert_eq!(join_path("", "assets/db"), "assets/db");
    for base in [".", "root/", "", "/abs/dir"] {
        let p = std::path::Path::new(base).join("assets/db");
        assert_eq!(join_path(base, "assets/db"), p.to_str().unwrap());
    }
}

#[test]
fn config_from_full_command_line() {
    let today = CalendarDate::new(1, 4, 2021);
    let c = cmd(Some("."), Some("2020"), Some("868"), Some("20210301"));
    let cfg = ScrapeConfig::new_with_date(&c, today).unwrap();
    assert_eq!(cfg.season_start(), 2020);
    assert_eq!(cfg.season_games_len(), 868);
    assert_eq!(*cfg.scrape_until_date(), CalendarDate::new(1, 3, 2021));
    assert_eq!(cfg.db_asset_dir(), "./assets/db");
    let r = cfg.season_ids_range();
    assert_eq!(r.start, 2020020001);
    assert_eq!(r.end, 2020020001 + 868);
}

#[test]
fn config_defaults() {
    let today = CalendarDate::new(1, 4, 2021);
    let c = cmd(Some("dir"), Some("2020"), Some("many"), None);
    let cfg = ScrapeConfig::new_with_date(&c, today).unwrap();
    assert_eq!(cfg.season_games_len(), GAMES_IN_SEASON);
    assert_eq!(*cfg.scrape_until_date(), today);
}

#[test]
fn config_usage_errors() {
    let today = CalendarDate::new(1, 4, 2021);
    let mut c = cmd(Some("."), Some("2020"), Some("868"), None);
    c.help = true;
    assert_eq!(ScrapeConfig::new_with_date(&c, today).err(), Some(ConfigError::HelpRequested));
    let c = cmd(None, None, None, None);
    assert_eq!(ScrapeConfig::new_with_date(&c, today).err(), Some(ConfigError::MissingDirectoryOrYear));
    let c = cmd(Some("."), Some("2020"), Some("868"), Some("2021x301"));
    match ScrapeConfig::new_with_date(&c, today) {
        Err(ConfigError::BadEndDate(m)) => assert!(m.ends_with("2021x301")),
        _ => panic!("expected a bad end date"),
    }
}

#[test]
fn display_user_config_shows_everything() {
    let today = CalendarDate::new(1, 4, 2021);
    let c = cmd(Some("."), Some("2020"), Some("868"), Some("20210301"));
    let cfg = ScrapeConfig::new_with_date(&c, today).unwrap();
    assert_eq!(
        cfg.display_user_config(),
        "Configuration set to: \nRoot directory .\nSeason: 2020\nGames in season: 868\nScrap until date 2021-03-01"
    );
}

fn argv(items: &[&str]) -> Vec<String> {
    let mut v = vec![String::from("hockeyscraper")];
    v.extend(items.iter().map(|s| s.to_string()));
    v
}

#[test]
fn from_args_reads_the_options() {
    let today = CalendarDate::new(1, 4, 2021);
    let args = argv(&["--dir", "./scraped", "-y", "2020", "--games", "868", "--jobs", "12", "-e", "20210301"]);
    let (cfg, run) = ScrapeConfig::from_args(&args, today).unwrap().unwrap();
    assert_eq!(cfg.season_start(), 2020);
    assert_eq!(cfg.season_games_len(), 868);
    assert_eq!(*cfg.scrape_until_date(), CalendarDate::new(1, 3, 2021));
    assert_eq!(cfg.db_asset_dir(), "./scraped/assets/db");
    assert_eq!(run.jobs, 12);
    assert_eq!((run.bench_results, run.bench_infos), (None, None));
}

#[test]
fn from_args_defaults_to_one_job_and_today() {
    let today = CalendarDate::new(1, 4, 2021);
    let (cfg, run) = ScrapeConfig::from_args(&argv(&["-y", "2020", "-d", ".", "-g", "868", "-r", "3"]), today).unwrap().unwrap();
    assert_eq!(run.jobs, 1);
    assert_eq!(run.bench_results, Some(3));
    assert_eq!(*cfg.scrape_until_date(), today);
    let (_, run) = ScrapeConfig::from_args(&argv(&["-y", "2020", "-d", ".", "-g", "868", "-j", "many"]), today).unwrap().unwrap();
    assert_eq!(run.jobs, 1);
    assert!(ScrapeConfig::new(&argv(&["-y", "2020", "-d", ".", "-g", "868"])).unwrap().is_ok());
}

#[test]
fn from_args_usage_errors() {
    let today = CalendarDate::new(1, 4, 2021);
    let err = |items: &[&str]| ScrapeConfig::from_args(&argv(items), today).unwrap().err();
    assert_eq!(err(&["-x"]), Some(ConfigError::UnreadableOptions));
    assert_eq!(err(&["-d", ".", "-d", "other", "-y", "2020", "-g", "1"]), Some(ConfigError::UnreadableOptions));
    assert_eq!(err(&["-h", "-d", "."]), Some(ConfigError::HelpRequested));
    assert_eq!(err(&["-g", "868"]), Some(ConfigError::MissingDirectoryOrYear));
    match err(&["-d", ".", "-y", "2020", "-g", "868", "-e", "2021"]) {
        Some(ConfigError::BadEndDate(m)) => assert!(m.ends_with("provided value was: 2021")),
        other => panic!("expected a bad end date, got {:?}", other),
    }
}

#[test]
fn from_args_gives_nothing_for_an_incomplete_command_line() {
    let today = CalendarDate::new(1, 4, 2021);
    assert!(ScrapeConfig::from_args(&argv(&["-d", ".", "-y", "2020"]), today).is_none());
    assert!(ScrapeConfig::from_args(&argv(&["-d", ".", "-g", "868", "-y", "season"]), today).is_none());
}

#[test]
fn new_answers_usage_and_end_dates_without_the_clock() {
    assert_eq!(ScrapeConfig::new(&argv(&["-h"])).unwrap().err(), Some(ConfigError::HelpRequested));
    assert_eq!(ScrapeConfig::new(&argv(&["-q"])).unwrap().err(), Some(ConfigError::UnreadableOptions));
    let (cfg, _) = ScrapeConfig::new(&argv(&["-d", ".", "-y", "2020", "-g", "868", "-e", "20210301"])).unwrap().unwrap();
    assert_eq!(*cfg.scrape_until_date(), CalendarDate::new(1, 3, 2021));
}
