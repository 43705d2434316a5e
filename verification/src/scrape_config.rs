//! What to scrape: the season, how many games it has, where to store the data,
//! and up to which date results are scraped.

use vstd::prelude::*;
use crate::calendar_date::{CalendarDate, date_display, parse_date, DATE_FORMAT_ERROR};
use crate::decimal::{parse_unsigned, parse_unsigned_range, push_decimal, decimal_chars};
use crate::text::chars_of;
use crate::command_line::{matches_view, command_line_from, command_line_of, getopts_matches, parse_command_line, program_options, run_options_from, run_options_of, setup_opts, RunOptions};
use crate::html::texts_view;

verus! {

/// Number of games in a regular season when no other number is given.
pub const GAMES_IN_SEASON: usize = 1271;

/// Where a game's page is asked for, by its id.
pub const BASE_URL: &'static str = "https://www.nhl.com/gamecenter";

/// Where, below the root directory, the data files are kept.
pub const DB_DIR: &'static str = "assets/db";

/// The id of the first regular season game of the season that begins in `year`;
/// for 2020 it is 2020020001.
pub open spec fn first_game_id(year: nat) -> nat {
    1000000 * year + 20001
}

/// The id of the first regular season game of the season that begins in `year_season_begins`.
pub fn first_game_id_of_season(year_season_begins: usize) -> (r: usize)
    requires
        first_game_id(year_season_begins as nat) <= usize::MAX,
    ensures
        r == first_game_id(year_season_begins as nat),
{
    1000000 * year_season_begins + 20001
}

/// `rel` put below the directory `base`, with one `/` between them.
pub open spec fn path_join(base: Seq<char>, rel: Seq<char>) -> Seq<char> {
    if base.len() == 0 {
        rel
    } else if base.last() == '/' {
        base + rel
    } else {
        base + seq!['/'] + rel
    }
}

/// The relative path `rel` below the directory `base`, as `Path::join` gives it for a relative path.
pub fn join_path(base: &str, rel: &str) -> (r: String)
    ensures
        r@ == path_join(base@, rel@),
{
    let mut r = String::from_str(base);
    let n = base.unicode_len();
    if n > 0 && base.get_char(n - 1) != '/' {
        crate::decimal::string_push(&mut r, '/');
    }
    r.append(rel);
    r
}

/// The options given on the command line, as read by the option parser.
pub struct CommandLine {
    /// `-h` or `--help` was given.
    pub help: bool,
    /// How many times `-d` was given.
    pub dir_count: usize,
    /// How many times `-y` was given.
    pub year_count: usize,
    /// The argument of the first `-d`: the root directory.
    pub dir: Option<String>,
    /// The argument of the first `-y`: the year the season begins.
    pub year: Option<String>,
    /// The argument of the first `-g`: the number of games in the season.
    pub games: Option<String>,
    /// The argument of the first `-e`: the date to scrape until, as `yyyymmdd`.
    pub end: Option<String>,
}

/// Why the command line does not make a configuration; each of these ends in the usage text.
#[derive(Debug, Clone, PartialEq, Eq)]
pub enum ConfigError {
    /// Help was asked for.
    HelpRequested,
    /// Neither the directory nor the year was given exactly once.
    MissingDirectoryOrYear,
    /// The date to scrape until could not be read; holds the message.
    BadEndDate(String),
    /// The arguments do not fit the program's options.
    UnreadableOptions,
    /// Today's date could not be read from the clock.
    ClockUnreadable,
}

/// The configuration of a scraping run.
#[derive(Clone)]
pub struct ScrapeConfig {
    root_directory: String,
    /// The year the season began (or was meant to begin).
    season: usize,
    season_length: usize,
    end_date: CalendarDate,
}

impl ScrapeConfig {
    /// The root directory.
    pub closed spec fn root(&self) -> Seq<char> {
        self.root_directory@
    }

    /// The year the season begins.
    pub closed spec fn season_year(&self) -> usize {
        self.season
    }

    /// The number of games in the season.
    pub closed spec fn length(&self) -> usize {
        self.season_length
    }

    /// The date up to which results are scraped.
    pub closed spec fn until(&self) -> CalendarDate {
        self.end_date
    }
}

/// How a configuration is shown: root directory, season, number of games, and end date.
pub open spec fn user_config_display(cfg: ScrapeConfig) -> Seq<char> {
    "Configuration set to: \nRoot directory "@ + cfg.root() + "\nSeason: "@ + decimal_chars(
        cfg.season_year() as nat,
    ) + "\nGames in season: "@ + decimal_chars(cfg.length() as nat) + "\nScrap until date "@
        + date_display(cfg.until())
}

/// The command line asks for the usage text: help was asked for, or neither the directory
/// nor the year was given exactly once.
pub open spec fn asks_for_usage(c: CommandLine) -> bool {
    c.help || (c.dir_count != 1 && c.year_count != 1)
}

/// The end date was given but cannot be read.
pub open spec fn end_date_rejected(c: CommandLine) -> bool {
    c.end matches Some(e) && parse_date(e@) is None
}

/// The command line can be turned into a configuration, or into its usage error, without
/// failing: unless the usage text is asked for, the directory and the number of games are
/// given, and, unless the end date is rejected, the year is given and reads as a number.
pub open spec fn command_line_complete(c: CommandLine) -> bool {
    asks_for_usage(c) || {
        &&& c.dir is Some
        &&& c.games is Some
        &&& (!end_date_rejected(c) ==> (c.year matches Some(y) && parse_unsigned(y@, usize::MAX as nat) is Some))
    }
}

/// `r` is what the command line `c` gives on the day `today`.
pub open spec fn configured_as(r: Result<ScrapeConfig, ConfigError>, c: CommandLine, today: CalendarDate) -> bool {
    if c.help {
        r matches Err(ConfigError::HelpRequested)
    } else if c.dir_count != 1 && c.year_count != 1 {
        r matches Err(ConfigError::MissingDirectoryOrYear)
    } else if end_date_rejected(c) {
        r matches Err(ConfigError::BadEndDate(m)) && m@ == DATE_FORMAT_ERROR@ + c.end.unwrap()@
    } else {
        r matches Ok(cfg) && {
            &&& cfg.root() == c.dir.unwrap()@
            &&& cfg.season_year() as nat == parse_unsigned(c.year.unwrap()@, usize::MAX as nat).unwrap()
            &&& cfg.length() as nat == match parse_unsigned(c.games.unwrap()@, usize::MAX as nat) {
                Some(g) => g,
                None => GAMES_IN_SEASON as nat,
            }
            &&& cfg.until() == match c.end {
                Some(e) => parse_date(e@).unwrap(),
                None => today,
            }
        }
    }
}

/// `r` is what the argument list `args` gives on the day `today`: the usage error when the
/// arguments do not fit the options; nothing when the command line they give is not
/// complete; otherwise what that command line gives, with the job count and benchmarks.
pub open spec fn read_as(r: Option<Result<(ScrapeConfig, RunOptions), ConfigError>>, args: Seq<String>, today: CalendarDate) -> bool {
    match getopts_matches(program_options(), texts_view(args.drop_first())) {
        None => r matches Some(Err(ConfigError::UnreadableOptions)),
        Some(m) => m.len() == program_options().len() && exists|c: CommandLine|
            #[trigger] command_line_from(c, m) && if command_line_complete(c) {
                configured_for(r, c, m, today)
            } else {
                r is None
            },
    }
}

/// `r` is what the complete command line `c`, with the matches `m`, gives on the day `today`.
pub open spec fn configured_for(
    r: Option<Result<(ScrapeConfig, RunOptions), ConfigError>>,
    c: CommandLine,
    m: Seq<(nat, Seq<Seq<char>>)>,
    today: CalendarDate,
) -> bool {
    r matches Some(res) && match res {
        Ok((cfg, run)) => configured_as(Ok(cfg), c, today) && run_options_from(run, m),
        Err(e) => configured_as(Err(e), c, today),
    }
}

/// The argument list `args` needs today's date: its options read, it gives a complete
/// command line that asks for no usage text, and it gives no end date.
pub open spec fn clock_needed(args: Seq<String>) -> bool {
    getopts_matches(program_options(), texts_view(args.drop_first())) matches Some(m) && exists|c: CommandLine|
        #[trigger] command_line_from(c, m) && command_line_complete(c) && !asks_for_usage(c) && c.end is None
}

/// Tells whether the command line is complete.
pub fn command_line_is_complete(c: &CommandLine) -> (b: bool)
    ensures
        b == command_line_complete(*c),
{
    if c.help || (c.dir_count != 1 && c.year_count != 1) {
        return true;
    }
    if c.dir.is_none() || c.games.is_none() {
        return false;
    }
    let rejected = match &c.end {
        Some(e) => CalendarDate::try_from(e.clone()).is_err(),
        None => false,
    };
    if rejected {
        return true;
    }
    match &c.year {
        Some(y) => parse_usize(y).is_some(),
        None => false,
    }
}

fn parse_usize(s: &String) -> (r: Option<usize>)
    ensures
        match parse_unsigned(s@, usize::MAX as nat) {
            Some(v) => r == Some(v as usize),
            None => r is None,
        },
{
    let v = chars_of(s.as_str());
    let r = parse_unsigned_range(&v, 0, v.len(), usize::MAX as u64);
    assert(v@.subrange(0, v@.len() as int) =~= s@);
    match r {
        Some(x) => Some(x as usize),
        None => None,
    }
}

fn parse_args(args: &Vec<String>) -> (r: Option<Vec<(usize, Vec<String>)>>)
    requires
        args@.len() >= 1,
    ensures
        match r {
            Some(m) => getopts_matches(program_options(), texts_view(args@.drop_first())) == Some(matches_view(m@))
                && m@.len() == program_options().len(),
            None => getopts_matches(program_options(), texts_view(args@.drop_first())) is None,
        },
{
    let mut tail: Vec<String> = Vec::new();
    let mut i: usize = 1;
    while i < args.len()
        invariant
            1 <= i <= args@.len(),
            tail@ == args@.subrange(1, i as int),
        decreases args@.len() - i,
    {
        tail.push(args[i].clone());
        i = i + 1;
        assert(tail@ =~= args@.subrange(1, i as int));
    }
    assert(tail@ =~= args@.drop_first());
    let options = setup_opts();
    parse_command_line(&options, &tail)
}

impl ScrapeConfig {
    /// The configuration that the argument list `args` (the program's name first) asks
    /// for, with today's date as the date to scrape until when none is given. The clock is
    /// read only when the date is needed; the `ClockUnreadable` error when it cannot be read
    /// as a date.
    pub fn new(args: &Vec<String>) -> (r: Option<Result<(ScrapeConfig, RunOptions), ConfigError>>)
        requires
            args@.len() >= 1,
        ensures
            r matches Some(Err(ConfigError::ClockUnreadable)) ==> clock_needed(args@),
            !clock_needed(args@) ==> forall|today: CalendarDate| read_as(r, args@, today),
            !(r matches Some(Err(ConfigError::ClockUnreadable))) ==> exists|today: CalendarDate|
                1 <= today.month <= 12 && 1 <= today.day <= 31 && read_as(r, args@, today),
    {
        let m = match parse_args(args) {
            Some(m) => m,
            None => {
                assert forall|t: CalendarDate| read_as(Some(Err(ConfigError::UnreadableOptions)), args@, t) by {}
                assert(read_as(Some(Err(ConfigError::UnreadableOptions)), args@, CalendarDate { year: 1970, month: 1, day: 1 }));
                return Some(Err(ConfigError::UnreadableOptions));
            },
        };
        let ghost mv = matches_view(m@);
        let c = command_line_of(&m);
        assert(command_line_from(c, mv));
        if !command_line_is_complete(&c) {
            assert forall|t: CalendarDate| read_as(None, args@, t) by {
                assert(command_line_from(c, mv));
            }
            assert(read_as(None, args@, CalendarDate { year: 1970, month: 1, day: 1 }));
            return None;
        }
        let needs_date = !(c.help || (c.dir_count != 1 && c.year_count != 1)) && c.end.is_none();
        let today = if needs_date {
            match CalendarDate::get_date_from_os() {
                Some(t) => Some(t),
                None => {
                    assert(clock_needed(args@));
                    return Some(Err(ConfigError::ClockUnreadable));
                },
            }
        } else {
            None
        };
        let r = Self::configure(&c, &m, today);
        proof {
            match today {
                Some(t) => {
                    assert(configured_for(r, c, mv, t));
                    assert(read_as(r, args@, t));
                },
                None => {
                    assert forall|t: CalendarDate| read_as(r, args@, t) by {
                        assert(configured_for(r, c, mv, t));
                    }
                    assert(read_as(r, args@, CalendarDate { year: 1970, month: 1, day: 1 }));
                },
            }
        }
        r
    }

    /// The configuration that the argument list `args` (the program's name first) asks
    /// for, with `today` as the date to scrape until when none is given, and the job count
    /// and benchmarks it asks for. `None` when the command line is not complete (a needed
    /// option is missing, or the season is not a number).
    pub fn from_args(args: &Vec<String>, today: CalendarDate) -> (r: Option<Result<(ScrapeConfig, RunOptions), ConfigError>>)
        requires
            args@.len() >= 1,
        ensures
            read_as(r, args@, today),
    {
        let m = match parse_args(args) {
            Some(m) => m,
            None => return Some(Err(ConfigError::UnreadableOptions)),
        };
        let ghost mv = matches_view(m@);
        let c = command_line_of(&m);
        assert(command_line_from(c, mv));
        if !command_line_is_complete(&c) {
            return None;
        }
        let r = Self::configure(&c, &m, Some(today));
        assert(configured_for(r, c, mv, today));
        r
    }

    fn configure(c: &CommandLine, m: &Vec<(usize, Vec<String>)>, today: Option<CalendarDate>) -> (r: Option<
        Result<(ScrapeConfig, RunOptions), ConfigError>,
    >)
        requires
            command_line_complete(*c),
            m@.len() == program_options().len(),
            today is None ==> asks_for_usage(*c) || c.end is Some,
        ensures
            forall|t: CalendarDate| (today matches Some(d) ==> t == d) ==> configured_for(r, *c, matches_view(m@), t),
    {
        match Self::build(c, today) {
            Ok(cfg) => {
                let run = run_options_of(m);
                Some(Ok((cfg, run)))
            },
            Err(e) => Some(Err(e)),
        }
    }

    /// The configuration that the command line `c` asks for, with `today` as the date to
    /// scrape until when none is given.
    pub fn new_with_date(c: &CommandLine, today: CalendarDate) -> (r: Result<ScrapeConfig, ConfigError>)
        requires
            command_line_complete(*c),
        ensures
            configured_as(r, *c, today),
    {
        Self::build(c, Some(today))
    }

    fn build(c: &CommandLine, today: Option<CalendarDate>) -> (r: Result<ScrapeConfig, ConfigError>)
        requires
            command_line_complete(*c),
            today is None ==> asks_for_usage(*c) || c.end is Some,
        ensures
            forall|t: CalendarDate| (today matches Some(d) ==> t == d) ==> configured_as(r, *c, t),
    {
        if c.help {
            return Err(ConfigError::HelpRequested);
        }
        if c.dir_count != 1 && c.year_count != 1 {
            return Err(ConfigError::MissingDirectoryOrYear);
        }
        let root_dir = match &c.dir {
            Some(d) => d.clone(),
            None => { return Err(ConfigError::HelpRequested); },
        };
        let games = match &c.games {
            Some(g) => parse_usize(g),
            None => { return Err(ConfigError::HelpRequested); },
        };
        let end_date = match &c.end {
            Some(e) => match CalendarDate::try_from(e.clone()) {
                Ok(d) => d,
                Err(m) => { return Err(ConfigError::BadEndDate(m)); },
            },
            None => match today {
                Some(d) => d,
                None => { return Err(ConfigError::HelpRequested); },
            },
        };
        let season = match &c.year {
            Some(y) => match parse_usize(y) {
                Some(s) => s,
                None => { return Err(ConfigError::HelpRequested); },
            },
            None => { return Err(ConfigError::HelpRequested); },
        };
        let season_length = match games {
            Some(g) => g,
            None => GAMES_IN_SEASON,
        };
        Ok(ScrapeConfig { root_directory: root_dir, season, season_length, end_date })
    }

    /// The directory that holds the data files.
    pub fn db_asset_dir(&self) -> (r: String)
        ensures
            r@ == path_join(self.root(), DB_DIR@),
    {
        join_path(self.root_directory.as_str(), DB_DIR)
    }

    /// The text that shows this configuration to the user.
    pub fn display_user_config(&self) -> (r: String)
        ensures
            r@ == user_config_display(*self),
    {
        let mut r = String::from_str("Configuration set to: \nRoot directory ");
        r.append(self.root_directory.as_str());
        r.append("\nSeason: ");
        push_decimal(&mut r, self.season as u64);
        r.append("\nGames in season: ");
        push_decimal(&mut r, self.season_length as u64);
        r.append("\nScrap until date ");
        let d = self.end_date.to_display_string();
        r.append(d.as_str());
        assert(r@ =~= user_config_display(*self));
        r
    }

    /// Tells whether the ids of the season's games fit in a `usize`.
    pub fn season_ids_fit(&self) -> (b: bool)
        ensures
            b == (first_game_id(self.season_year() as nat) + self.length() <= usize::MAX),
    {
        self.season <= (usize::MAX - 20001) / 1000000 && 1000000 * self.season + 20001 <= usize::MAX
            - self.season_length
    }

    /// The ids of the season's games, from the first one on.
    pub fn season_ids_range(&self) -> (r: core::ops::Range<usize>)
        requires
            first_game_id(self.season_year() as nat) + self.length() <= usize::MAX,
        ensures
            r.start == first_game_id(self.season_year() as nat),
            r.end == r.start + self.length(),
    {
        let begin = first_game_id_of_season(self.season_start());
        let end = first_game_id_of_season(self.season_start()) + self.season_games_len();
        begin..end
    }

    /// The year the season begins.
    pub fn season_start(&self) -> (r: usize)
        ensures
            r == self.season_year(),
    {
        self.season
    }

    /// The number of games in the season.
    pub fn season_games_len(&self) -> (r: usize)
        ensures
            r == self.length(),
    {
        self.season_length
    }

    /// The date up to which results are scraped.
    pub fn scrape_until_date(&self) -> (r: &CalendarDate)
        ensures
            *r == self.until(),
    {
        &self.end_date
    }
}

} // verus!
