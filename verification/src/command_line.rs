//! The options of the program and how the argument list is read into them with `getopts`.

use vstd::prelude::*;
use crate::decimal::{parse_unsigned, parse_unsigned_range};
use crate::html::texts_view;
use crate::scrape_config::CommandLine;
use crate::text::chars_of;

verus! {

/// Whether an option is a flag or takes a value.
#[derive(Debug, Clone, Copy, PartialEq, Eq, Structural)]
pub enum OptionKind {
    Flag,
    Value,
}

/// An option of the command line, as the usage text shows it.
pub struct OptionSpec {
    pub kind: OptionKind,
    /// The one-letter name, used as `-x`.
    pub short: String,
    /// The long name, used as `--name`.
    pub long: String,
    pub description: String,
    /// What stands for the value in the usage text; empty for a flag.
    pub hint: String,
}

/// An option as the parser sees it: whether it takes a value, its short and its long name.
pub open spec fn option_view(o: OptionSpec) -> (bool, Seq<char>, Seq<char>) {
    (o.kind == OptionKind::Value, o.short@, o.long@)
}

/// The options as the parser sees them.
pub open spec fn options_view(v: Seq<OptionSpec>) -> Seq<(bool, Seq<char>, Seq<char>)> {
    v.map_values(|o: OptionSpec| option_view(o))
}

/// Every option has a one-character ASCII short name and a long name that is empty or at
/// least two characters long, as `getopts` asks of the options it is given.
pub open spec fn options_well_named(v: Seq<(bool, Seq<char>, Seq<char>)>) -> bool {
    forall|k: int|
        0 <= k < v.len() ==> (#[trigger] v[k]).1.len() == 1 && (v[k].1[0] as u32) < 128 && v[k].2.len() != 1
}

/// What was found for each option: how many times it was given, and its values in order.
pub open spec fn matches_view(v: Seq<(usize, Vec<String>)>) -> Seq<(nat, Seq<Seq<char>>)> {
    v.map_values(|m: (usize, Vec<String>)| (m.0 as nat, texts_view(m.1@)))
}

/// Names what `getopts` makes of the arguments `args` with the options `options`: for each
/// option, in the order of `options`, how many times it was given and the values given with
/// it; `None` when the arguments do not fit the options.
pub uninterp spec fn getopts_matches(options: Seq<(bool, Seq<char>, Seq<char>)>, args: Seq<Seq<char>>) -> Option<Seq<(nat, Seq<Seq<char>>)>>;

/// `getopts`: builds `Options` with `optflag` and `optopt` from `options`, calls
/// `Options::parse` on `args`, and reads `Matches::opt_count` and `Matches::opt_strs` for the
/// short name of each option. The result is what `getopts_matches` names, one entry per option.
#[verifier::external_body]
pub(crate) fn parse_command_line(options: &Vec<OptionSpec>, args: &Vec<String>) -> (r: Option<Vec<(usize, Vec<String>)>>)
    requires
        options_well_named(options_view(options@)),
    ensures
        match r {
            Some(v) => getopts_matches(options_view(options@), texts_view(args@)) == Some(matches_view(v@))
                && v@.len() == options@.len(),
            None => getopts_matches(options_view(options@), texts_view(args@)) is None,
        },
{
    let mut opts = getopts::Options::new();
    for o in options.iter() {
        match o.kind {
            OptionKind::Flag => opts.optflag(&o.short, &o.long, &o.description),
            OptionKind::Value => opts.optopt(&o.short, &o.long, &o.description, &o.hint),
        };
    }
    let m = opts.parse(args).ok()?;
    Some(options.iter().map(|o| (m.opt_count(&o.short), m.opt_strs(&o.short))).collect())
}

/// Where the root directory option stands among the options.
pub const DIR_OPTION: usize = 0;
/// Where the season option stands among the options.
pub const SEASON_OPTION: usize = 1;
/// Where the number-of-games option stands among the options.
pub const GAMES_OPTION: usize = 2;
/// Where the jobs option stands among the options.
pub const JOBS_OPTION: usize = 3;
/// Where the end date option stands among the options.
pub const END_OPTION: usize = 4;
/// Where the game result benchmark option stands among the options.
pub const BENCH_RESULTS_OPTION: usize = 5;
/// Where the game information benchmark option stands among the options.
pub const BENCH_INFOS_OPTION: usize = 6;
/// Where the help option stands among the options.
pub const HELP_OPTION: usize = 7;

/// The options of the program, as the parser sees them.
pub open spec fn program_options() -> Seq<(bool, Seq<char>, Seq<char>)> {
    seq![
        (true, seq!['d'], "dir"@),
        (true, seq!['y'], "season"@),
        (true, seq!['g'], "games"@),
        (true, seq!['j'], "jobs"@),
        (true, seq!['e'], "end"@),
        (true, seq!['r'], "test_gr"@),
        (true, seq!['i'], "test_gi"@),
        (false, seq!['h'], "help"@),
    ]
}

/// The description and the value hint of each of the program's options, in order, as the
/// usage text shows them.
pub open spec fn program_option_texts() -> Seq<(Seq<char>, Seq<char>)> {
    seq![
        ("root directory of the data"@, "DIR"@),
        ("the year the season starts"@, "STARTYEAR"@),
        ("number of games in the season"@, "GAMES"@),
        ("number of threads to scrape with"@, "JOBS"@),
        ("scrape until this date (yyyymmdd)"@, "DATE"@),
        ("benchmark game result scraping"@, "ITERATIONS"@),
        ("benchmark game info scraping"@, "ITERATIONS"@),
        ("print this help"@, ""@),
    ]
}

fn spec_of(kind: OptionKind, short: char, long: &str, description: &str, hint: &str) -> (o: OptionSpec)
    ensures
        option_view(o) == ((kind == OptionKind::Value), seq![short], long@),
        o.description@ == description@,
        o.hint@ == hint@,
{
    let mut s = String::new();
    crate::decimal::string_push(&mut s, short);
    assert(s@ =~= seq![short]);
    OptionSpec {
        kind,
        short: s,
        long: String::from_str(long),
        description: String::from_str(description),
        hint: String::from_str(hint),
    }
}

/// The options the program understands, with their usage texts.
pub fn setup_opts() -> (r: Vec<OptionSpec>)
    ensures
        options_view(r@) == program_options(),
        options_well_named(options_view(r@)),
        r@.len() == program_option_texts().len(),
        forall|k: int|
            0 <= k < r@.len() ==> (#[trigger] r@[k]).description@ == program_option_texts()[k].0
                && r@[k].hint@ == program_option_texts()[k].1,
{
    let mut r: Vec<OptionSpec> = Vec::new();
    r.push(spec_of(OptionKind::Value, 'd', "dir", "root directory of the data", "DIR"));
    r.push(spec_of(OptionKind::Value, 'y', "season", "the year the season starts", "STARTYEAR"));
    r.push(spec_of(OptionKind::Value, 'g', "games", "number of games in the season", "GAMES"));
    r.push(spec_of(OptionKind::Value, 'j', "jobs", "number of threads to scrape with", "JOBS"));
    r.push(spec_of(OptionKind::Value, 'e', "end", "scrape until this date (yyyymmdd)", "DATE"));
    r.push(spec_of(OptionKind::Value, 'r', "test_gr", "benchmark game result scraping", "ITERATIONS"));
    r.push(spec_of(OptionKind::Value, 'i', "test_gi", "benchmark game info scraping", "ITERATIONS"));
    r.push(spec_of(OptionKind::Flag, 'h', "help", "print this help", ""));
    proof {
        reveal_strlit("dir");
        reveal_strlit("season");
        reveal_strlit("games");
        reveal_strlit("jobs");
        reveal_strlit("end");
        reveal_strlit("test_gr");
        reveal_strlit("test_gi");
        reveal_strlit("help");
    }
    assert(options_view(r@) =~= program_options());
    assert forall|k: int| 0 <= k < r@.len() implies (#[trigger] r@[k]).description@ == program_option_texts()[k].0
        && r@[k].hint@ == program_option_texts()[k].1 by {
        assert(0 <= k < 8);
    }
    r
}

/// The first value given with option `k`, when there is one.
pub open spec fn first_value(m: Seq<(nat, Seq<Seq<char>>)>, k: int) -> Option<Seq<char>> {
    if m[k].1.len() > 0 {
        Some(m[k].1[0])
    } else {
        None
    }
}

/// The view of an optional text.
pub open spec fn text_option(o: Option<String>) -> Option<Seq<char>> {
    match o {
        Some(s) => Some(s@),
        None => None,
    }
}

/// `c` is the command line that the matches `m` of the program's options give.
pub open spec fn command_line_from(c: CommandLine, m: Seq<(nat, Seq<Seq<char>>)>) -> bool {
    &&& c.help == (m[HELP_OPTION as int].0 > 0)
    &&& c.dir_count == m[DIR_OPTION as int].0
    &&& c.year_count == m[SEASON_OPTION as int].0
    &&& text_option(c.dir) == first_value(m, DIR_OPTION as int)
    &&& text_option(c.year) == first_value(m, SEASON_OPTION as int)
    &&& text_option(c.games) == first_value(m, GAMES_OPTION as int)
    &&& text_option(c.end) == first_value(m, END_OPTION as int)
}

/// A count that option `k` asks for: its first value read as a number, when it reads.
pub open spec fn count_option(m: Seq<(nat, Seq<Seq<char>>)>, k: int) -> Option<nat> {
    match first_value(m, k) {
        Some(v) => parse_unsigned(v, usize::MAX as nat),
        None => None,
    }
}

/// How many jobs the matches ask for: the value of `-j`, or one when none is given or it is
/// not a number.
pub open spec fn jobs_asked(m: Seq<(nat, Seq<Seq<char>>)>) -> nat {
    match count_option(m, JOBS_OPTION as int) {
        Some(n) => n,
        None => 1,
    }
}

/// What the command line asks for besides the configuration.
pub struct RunOptions {
    /// How many worker threads to scrape with.
    pub jobs: usize,
    /// How many times to time the game result scrape, when a benchmark is asked for.
    pub bench_results: Option<usize>,
    /// How many times to time the game information scrape, when a benchmark is asked for.
    pub bench_infos: Option<usize>,
}

/// The count as a machine integer.
pub open spec fn count_view(o: Option<usize>) -> Option<nat> {
    match o {
        Some(n) => Some(n as nat),
        None => None,
    }
}

/// `r` holds what the matches `m` ask for besides the configuration.
pub open spec fn run_options_from(r: RunOptions, m: Seq<(nat, Seq<Seq<char>>)>) -> bool {
    &&& r.jobs == jobs_asked(m)
    &&& count_view(r.bench_results) == count_option(m, BENCH_RESULTS_OPTION as int)
    &&& count_view(r.bench_infos) == count_option(m, BENCH_INFOS_OPTION as int)
}

fn first_of(m: &Vec<(usize, Vec<String>)>, k: usize) -> (r: Option<String>)
    requires
        k < m@.len(),
    ensures
        text_option(r) == first_value(matches_view(m@), k as int),
{
    let vals = &m[k].1;
    assert(matches_view(m@)[k as int].1 == texts_view(vals@));
    if vals.len() > 0 {
        assert(texts_view(vals@)[0] == vals@[0]@);
        Some(vals[0].clone())
    } else {
        None
    }
}

fn count_of(m: &Vec<(usize, Vec<String>)>, k: usize) -> (r: Option<usize>)
    requires
        k < m@.len(),
    ensures
        count_view(r) == count_option(matches_view(m@), k as int),
{
    match first_of(m, k) {
        Some(v) => {
            let c = chars_of(v.as_str());
            assert(c@.subrange(0, c@.len() as int) =~= c@);
            match parse_unsigned_range(&c, 0, c.len(), usize::MAX as u64) {
                Some(n) => Some(n as usize),
                None => None,
            }
        },
        None => None,
    }
}

/// The command line that the matches of the program's options give.
pub fn command_line_of(m: &Vec<(usize, Vec<String>)>) -> (c: CommandLine)
    requires
        m@.len() == program_options().len(),
    ensures
        command_line_from(c, matches_view(m@)),
{
    assert(matches_view(m@)[HELP_OPTION as int].0 == m@[HELP_OPTION as int].0);
    assert(matches_view(m@)[DIR_OPTION as int].0 == m@[DIR_OPTION as int].0);
    assert(matches_view(m@)[SEASON_OPTION as int].0 == m@[SEASON_OPTION as int].0);
    CommandLine {
        help: m[HELP_OPTION].0 > 0,
        dir_count: m[DIR_OPTION].0,
        year_count: m[SEASON_OPTION].0,
        dir: first_of(m, DIR_OPTION),
        year: first_of(m, SEASON_OPTION),
        games: first_of(m, GAMES_OPTION),
        end: first_of(m, END_OPTION),
    }
}

/// What the matches of the program's options ask for besides the configuration.
pub fn run_options_of(m: &Vec<(usize, Vec<String>)>) -> (r: RunOptions)
    requires
        m@.len() == program_options().len(),
    ensures
        run_options_from(r, matches_view(m@)),
{
    let jobs = match count_of(m, JOBS_OPTION) {
        Some(n) => n,
        None => 1,
    };
    RunOptions { jobs, bench_results: count_of(m, BENCH_RESULTS_OPTION), bench_infos: count_of(m, BENCH_INFOS_OPTION) }
}

} // verus!
