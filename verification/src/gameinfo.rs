//! Game information: which teams play, the game's id, and the day it is played.

use vstd::prelude::*;
use core::cmp::Ordering;
use crate::calendar_date::{CalendarDate, date_ordering};
use crate::decimal::{parse_unsigned, parse_unsigned_range, decimal_chars, push_decimal};
use crate::scrape::{BuilderError, convert_slash, convert_fwd_slashes, _BASE, _VS};
use crate::text::{chars_in_bytes, chars_for_bytes, chars_of, sub_vec, string_of, find_char, find_char_from, rfind_char, rfind_char_before, find_seq, find_seq_from, split_char, split_list, char_views, occurs_at, replace_first, lemma_find_seq_at};
use crate::decimal::{all_digits, is_digit, lemma_decimal_chars_value};

verus! {

/// The game information that is sent to the client.
#[derive(Eq, Hash, Clone, Debug)]
pub struct GameInfo {
    home_team: String,
    away_team: String,
    game_id: usize,
    date: CalendarDate,
}

impl GameInfo {
    /// The id of the game.
    pub closed spec fn id(&self) -> usize {
        self.game_id
    }
}

impl PartialEq for GameInfo {
    fn eq(&self, other: &Self) -> (r: bool) {
        self.game_id == other.game_id
    }
}

impl vstd::std_specs::cmp::PartialEqSpecImpl for GameInfo {
    open spec fn obeys_eq_spec() -> bool {
        true
    }

    open spec fn eq_spec(&self, other: &Self) -> bool {
        self.id() == other.id()
    }
}

/// The game information kept while scraping a season: team names, game id, and date.
#[derive(Debug, Clone, Eq)]
pub struct InternalGameInfo {
    pub home: String,
    pub away: String,
    pub gid: usize,
    pub date: CalendarDate,
}

impl InternalGameInfo {
    /// The name of the home team.
    pub open spec fn home_name(&self) -> Seq<char> {
        self.home@
    }

    /// The name of the away team.
    pub open spec fn away_name(&self) -> Seq<char> {
        self.away@
    }

    /// The id of the game.
    pub open spec fn id(&self) -> usize {
        self.gid
    }

    /// The day the game is played.
    pub open spec fn day(&self) -> CalendarDate {
        self.date
    }
}

/// How two games are ordered: games with the same id are equal; otherwise by date,
/// and by id between games on the same date.
pub open spec fn game_ordering(a: InternalGameInfo, b: InternalGameInfo) -> Ordering {
    if a.id() == b.id() {
        Ordering::Equal
    } else if a.day() == b.day() {
        if a.id() < b.id() {
            Ordering::Less
        } else {
            Ordering::Greater
        }
    } else {
        date_ordering(a.day(), b.day())
    }
}

impl InternalGameInfo {
    /// Compares by game id, except that a game on an earlier date comes first.
    pub fn compare(&self, other: &Self) -> (o: Ordering)
        ensures
            o == game_ordering(*self, *other),
    {
        let gid_order = if self.gid < other.gid {
            Ordering::Less
        } else if self.gid == other.gid {
            Ordering::Equal
        } else {
            Ordering::Greater
        };
        let date_order = self.date.compare(&other.date);
        match gid_order {
            Ordering::Less => match date_order {
                Ordering::Greater => Ordering::Greater,
                _ => gid_order,
            },
            Ordering::Greater => match date_order {
                Ordering::Less => Ordering::Less,
                _ => gid_order,
            },
            Ordering::Equal => gid_order,
        }
    }
}

impl PartialEq for InternalGameInfo {
    fn eq(&self, other: &Self) -> (r: bool) {
        self.gid == other.gid
    }
}

impl vstd::std_specs::cmp::PartialEqSpecImpl for InternalGameInfo {
    open spec fn obeys_eq_spec() -> bool {
        true
    }

    open spec fn eq_spec(&self, other: &Self) -> bool {
        self.id() == other.id()
    }
}

impl PartialOrd for InternalGameInfo {
    fn partial_cmp(&self, other: &Self) -> (r: Option<Ordering>) {
        Some(self.compare(other))
    }
}

impl vstd::std_specs::cmp::PartialOrdSpecImpl for InternalGameInfo {
    open spec fn obeys_partial_cmp_spec() -> bool {
        true
    }

    open spec fn partial_cmp_spec(&self, other: &Self) -> Option<Ordering> {
        Some(game_ordering(*self, *other))
    }
}

/// Where the game reports of a season live.
pub const REPORTS_BASE: &'static str = "http://www.nhl.com/scores/htmlreports/";

/// What comes between the season and the game number in an event summary address.
pub const EVENT_SUMMARY: &'static str = "/ES0";

/// What comes between the season and the game number in a game summary address.
pub const GAME_SUMMARY: &'static str = "/GS0";

/// What comes between the season and the game number in a shot summary address.
pub const SHOT_SUMMARY: &'static str = "/SS0";

/// What ends the address of a game report.
pub const REPORT_SUFFIX: &'static str = ".HTM";

/// Number of bytes of `_BASE`, where a game center address is cut.
pub const BASE_LEN: usize = 31;

/// The first game id of a season is this many times the year the season starts, plus a game number.
pub open spec fn season_summary_offset(season: nat) -> nat {
    season * 1000000
}

/// The address of one of a game's reports: the season as two years, then `kind`,
/// then the game's number within the season.
pub open spec fn report_url(kind: Seq<char>, season: nat, gid: nat) -> Seq<char> {
    REPORTS_BASE@ + decimal_chars(season) + decimal_chars(season + 1) + kind
        + decimal_chars((gid - season_summary_offset(season)) as nat) + REPORT_SUFFIX@
}

/// The game ids of `season` start at `season_summary_offset(season)` and the addresses can be written.
pub open spec fn report_url_defined(season: nat, gid: nat) -> bool {
    &&& season + 1 <= usize::MAX
    &&& season_summary_offset(season) <= gid
}

/// The addresses of a game's three reports are one text but for the report code: they share
/// everything before the code (the reports' base and the season) and everything after it
/// (the game's number and the suffix).
pub proof fn lemma_report_urls_differ_in_code(season: nat, gid: nat)
    ensures
        ({
            let head = REPORTS_BASE@ + decimal_chars(season) + decimal_chars(season + 1);
            let tail = decimal_chars((gid - season_summary_offset(season)) as nat) + REPORT_SUFFIX@;
            &&& report_url(GAME_SUMMARY@, season, gid) == head + GAME_SUMMARY@ + tail
            &&& report_url(EVENT_SUMMARY@, season, gid) == head + EVENT_SUMMARY@ + tail
            &&& report_url(SHOT_SUMMARY@, season, gid) == head + SHOT_SUMMARY@ + tail
        }),
{
    let head = REPORTS_BASE@ + decimal_chars(season) + decimal_chars(season + 1);
    let tail = decimal_chars((gid - season_summary_offset(season)) as nat) + REPORT_SUFFIX@;
    assert(report_url(GAME_SUMMARY@, season, gid) =~= head + GAME_SUMMARY@ + tail);
    assert(report_url(EVENT_SUMMARY@, season, gid) =~= head + EVENT_SUMMARY@ + tail);
    assert(report_url(SHOT_SUMMARY@, season, gid) =~= head + SHOT_SUMMARY@ + tail);
}

/// The shot summary and event summary addresses of a game are its game summary address with
/// the first `/GS0` replaced by `/SS0` and by `/ES0`.
pub proof fn lemma_report_urls_replace_code(season: nat, gid: nat)
    ensures
        report_url(SHOT_SUMMARY@, season, gid) == replace_first(report_url(GAME_SUMMARY@, season, gid), GAME_SUMMARY@, SHOT_SUMMARY@),
        report_url(EVENT_SUMMARY@, season, gid) == replace_first(report_url(GAME_SUMMARY@, season, gid), GAME_SUMMARY@, EVENT_SUMMARY@),
{
    lemma_report_urls_differ_in_code(season, gid);
    let a = decimal_chars(season);
    let b = decimal_chars(season + 1);
    let head = REPORTS_BASE@ + a + b;
    let tail = decimal_chars((gid - season_summary_offset(season)) as nat) + REPORT_SUFFIX@;
    let u = head + GAME_SUMMARY@ + tail;
    let h = head.len() as int;
    reveal_strlit("/GS0");
    reveal_strlit("http://www.nhl.com/scores/htmlreports/");
    lemma_decimal_chars_value(season);
    lemma_decimal_chars_value(season + 1);
    let base = REPORTS_BASE@;
    assert forall|j: int| 0 <= j < base.len() implies base[j] != 'G' by {
        assert(base =~= "http://www.nhl.com/scores/htmlreports/"@);
    }
    assert forall|j: int| 0 <= j < h implies head[j] != 'G' by {
        if j < base.len() {
            assert(head[j] == base[j]);
        } else if j < base.len() + a.len() {
            assert(head[j] == a[j - base.len()]);
            assert(is_digit(a[j - base.len()]));
        } else {
            assert(head[j] == b[j - base.len() - a.len()]);
            assert(is_digit(b[j - base.len() - a.len()]));
        }
    }
    assert(GAME_SUMMARY@ =~= seq!['/', 'G', 'S', '0']);
    assert(u.subrange(h, h + 4) =~= GAME_SUMMARY@);
    assert forall|i: int| 0 <= i < h implies !occurs_at(u, GAME_SUMMARY@, i) by {
        if occurs_at(u, GAME_SUMMARY@, i) {
            assert(u.subrange(i, i + 4)[1] == 'G');
            assert(u[i + 1] == 'G');
            if i + 1 < h {
                assert(u[i + 1] == head[i + 1]);
            } else {
                assert(u[i + 1] == GAME_SUMMARY@[0]);
            }
        }
    }
    lemma_find_seq_at(u, GAME_SUMMARY@, 0, h);
    assert(u.subrange(0, h) =~= head);
    assert(u.subrange(h + 4, u.len() as int) =~= tail);
}

fn format_season_summary(season: usize) -> (r: usize)
    requires
        season_summary_offset(season as nat) <= usize::MAX,
    ensures
        r == season_summary_offset(season as nat),
{
    season * 1000000
}

/// Names what `str::to_uppercase` returns for a text: its Unicode upper-case form.
pub uninterp spec fn str_uppercase(s: Seq<char>) -> Seq<char>;

/// `str::to_uppercase`: the upper-case form of `s`, which `str_uppercase` names.
#[verifier::external_body]
fn to_uppercase(s: &str) -> (r: String)
    ensures
        r@ == str_uppercase(s@),
{
    s.to_uppercase()
}

/// What a game center address says about a game.
pub enum GameUrl {
    /// The address names the teams, the date and the game id.
    Game { home: Seq<char>, away: Seq<char>, gid: nat, date: CalendarDate },
    /// The part after the base has no `/`; holds that part.
    WrongFormat { data: Seq<char> },
    /// The address cannot be taken apart: reading it would fail on a slice, an index or a number.
    Unreadable,
}

/// Every piece is an unsigned numeral that fits a `u32`.
pub open spec fn all_parse_u32(parts: Seq<Seq<char>>) -> bool {
    forall|k: int| 0 <= k < parts.len() ==> (#[trigger] parse_unsigned(parts[k], u32::MAX as nat)) is Some
}

/// The date whose year, month and day are the last three pieces, each cut to its field's width.
pub open spec fn date_from_parts(parts: Seq<Seq<char>>) -> CalendarDate {
    let n = parts.len() as int;
    CalendarDate {
        year: parse_unsigned(parts[n - 3], u32::MAX as nat).unwrap() as u16,
        month: parse_unsigned(parts[n - 2], u32::MAX as nat).unwrap() as u8,
        day: parse_unsigned(parts[n - 1], u32::MAX as nat).unwrap() as u8,
    }
}

/// The part of an address before its fragment: everything up to the first `#`.
pub open spec fn url_path(data: Seq<char>) -> Seq<char> {
    match find_char(data, '#', 0) {
        Some(h) => data.subrange(0, h),
        None => data,
    }
}

/// How a game center address `u` reads. After the first `BASE_LEN` bytes comes
/// `away-vs-home/…date…/gameid`, possibly followed by a `#` fragment, which is not read:
/// the teams run up to the first `/`, the game id follows the last `/`, and the date lies
/// between, its fields separated by `/` or `-`.
pub open spec fn game_url(u: Seq<char>) -> GameUrl {
    match chars_in_bytes(u, BASE_LEN as int) {
        None => GameUrl::Unreadable,
        Some(cut) => {
            let data = u.subrange(cut, u.len() as int);
            let path = url_path(data);
            match find_char(path, '/', 0) {
                None => GameUrl::WrongFormat { data },
                Some(pos) => {
                    let teams = path.subrange(0, pos);
                    let rest = path.subrange(pos, path.len() as int);
                    let r_pos = rfind_char(rest, '/', rest.len() as int).unwrap();
                    let date_text = rest.subrange(1, r_pos);
                    let id_text = rest.subrange(r_pos + 1, rest.len() as int);
                    let parts = split_char(date_text.map_values(|c: char| convert_slash(c)), '-');
                    let gid = parse_unsigned(id_text, usize::MAX as nat);
                    match find_seq(teams, _VS@, 0) {
                        None => GameUrl::Unreadable,
                        Some(vs1) => {
                            if r_pos >= 1 && parts.len() >= 3 && all_parse_u32(parts) && gid is Some {
                                let home_start = vs1 + _VS@.len();
                                let home_end = match find_seq(teams, _VS@, home_start) {
                                    Some(e) => e,
                                    None => teams.len() as int,
                                };
                                GameUrl::Game {
                                    home: str_uppercase(teams.subrange(home_start, home_end)),
                                    away: str_uppercase(teams.subrange(0, vs1)),
                                    gid: gid.unwrap(),
                                    date: date_from_parts(parts),
                                }
                            } else {
                                GameUrl::Unreadable
                            }
                        },
                    }
                },
            }
        },
    }
}

/// The outcome of reading a game center address.
pub enum GameUrlRead {
    Read(InternalGameInfo),
    WrongFormat(String),
    Unreadable,
}

/// The outcome `r` is what `g` describes.
pub open spec fn reads_as(r: GameUrlRead, g: GameUrl) -> bool {
    match g {
        GameUrl::Game { home, away, gid, date } => r matches GameUrlRead::Read(info) && info.home_name()
            == home && info.away_name() == away && info.id() == gid && info.day() == date,
        GameUrl::WrongFormat { data } => r matches GameUrlRead::WrongFormat(m) && m@ == data,
        GameUrl::Unreadable => r is Unreadable,
    }
}

/// Reads the teams, the date and the game id out of a game center address.
#[verifier::loop_isolation(false)]
pub fn read_game_url(url: &str) -> (r: GameUrlRead)
    ensures
        reads_as(r, game_url(url@)),
{
    let v = chars_of(url);
    let cut = match chars_for_bytes(&v, BASE_LEN) {
        Some(c) => c,
        None => return GameUrlRead::Unreadable,
    };
    proof {
        crate::text::lemma_chars_in_bytes_bound(v@, BASE_LEN as int);
    }
    let data = sub_vec(&v, cut, v.len());
    let path = match find_char_from(&data, '#', 0) {
        Some(h) => {
            proof {
                crate::text::lemma_find_char(data@, '#', 0);
            }
            sub_vec(&data, 0, h)
        },
        None => {
            assert(data@.subrange(0, data@.len() as int) =~= data@);
            sub_vec(&data, 0, data.len())
        },
    };
    assert(path@ == url_path(data@));
    let pos = match find_char_from(&path, '/', 0) {
        Some(p) => p,
        None => {
            let m = string_of(&data, 0, data.len());
            assert(data@.subrange(0, data@.len() as int) =~= data@);
            return GameUrlRead::WrongFormat(m);
        },
    };
    proof {
        crate::text::lemma_find_char(path@, '/', 0);
    }
    let teams = sub_vec(&path, 0, pos);
    let rest = sub_vec(&path, pos, path.len());
    proof {
        crate::text::lemma_rfind_char(rest@, '/', rest@.len() as int, 0);
    }
    let r_pos = rfind_char_before(&rest, '/', rest.len()).unwrap();
    if r_pos == 0 {
        return GameUrlRead::Unreadable;
    }
    let date_text = sub_vec(&rest, 1, r_pos);
    let id_text = sub_vec(&rest, r_pos + 1, rest.len());
    let vs = chars_of(_VS);
    proof {
        reveal_strlit("-vs-");
    }
    assert(vs@.len() == 4);
    let vs1 = match find_seq_from(&teams, &vs, 0) {
        Some(m) => m,
        None => return GameUrlRead::Unreadable,
    };
    proof {
        crate::text::lemma_find_seq(teams@, vs@, 0);
    }
    let home_start = vs1 + vs.len();
    let home_end = match find_seq_from(&teams, &vs, home_start) {
        Some(e) => e,
        None => teams.len(),
    };
    proof {
        crate::text::lemma_find_seq(teams@, vs@, home_start as int);
    }
    let mut mapped: Vec<char> = Vec::new();
    let mut i: usize = 0;
    while i < date_text.len()
        invariant
            i <= date_text@.len(),
            mapped@ == date_text@.subrange(0, i as int).map_values(|c: char| convert_slash(c)),
        decreases date_text@.len() - i,
    {
        let c = convert_fwd_slashes(date_text[i]);
        mapped.push(c);
        i = i + 1;
        assert(mapped@ =~= date_text@.subrange(0, i as int).map_values(|c: char| convert_slash(c)));
    }
    assert(date_text@.subrange(0, i as int) =~= date_text@);
    let parts = split_list(&mapped, '-');
    let mut values: Vec<u64> = Vec::new();
    let mut k: usize = 0;
    while k < parts.len()
        invariant
            k <= parts@.len(),
            values@.len() == k,
            forall|j: int| 0 <= j < k ==> parse_unsigned(char_views(parts@)[j], u32::MAX as nat) == Some(values@[j] as nat),
        decreases parts@.len() - k,
    {
        let piece = &parts[k];
        assert(char_views(parts@)[k as int] == piece@);
        match parse_unsigned_range(piece, 0, piece.len(), u32::MAX as u64) {
            Some(x) => {
                values.push(x);
            },
            None => {
                assert(piece@.subrange(0, piece@.len() as int) =~= piece@);
                assert(!all_parse_u32(char_views(parts@)));
                return GameUrlRead::Unreadable;
            },
        }
        assert(piece@.subrange(0, piece@.len() as int) =~= piece@);
        k = k + 1;
    }
    let n = values.len();
    if n < 3 {
        return GameUrlRead::Unreadable;
    }
    let gid = match parse_unsigned_range(&id_text, 0, id_text.len(), usize::MAX as u64) {
        Some(g) => g as usize,
        None => {
            assert(id_text@.subrange(0, id_text@.len() as int) =~= id_text@);
            return GameUrlRead::Unreadable;
        },
    };
    assert(id_text@.subrange(0, id_text@.len() as int) =~= id_text@);
    assert(all_parse_u32(char_views(parts@))) by {
        assert forall|j: int| 0 <= j < char_views(parts@).len() implies (#[trigger] parse_unsigned(char_views(parts@)[j], u32::MAX as nat)) is Some by {
            assert(parse_unsigned(char_views(parts@)[j], u32::MAX as nat) == Some(values@[j] as nat));
        }
    }
    let date = CalendarDate::new(values[n - 1] as u8, values[n - 2] as u8, values[n - 3] as u16);
    let away = to_uppercase(string_of(&teams, 0, vs1).as_str());
    let home = to_uppercase(string_of(&teams, home_start, home_end).as_str());
    GameUrlRead::Read(InternalGameInfo::new(home, away, gid, date))
}

impl InternalGameInfo {
    /// The game information for the given teams, id and date.
    pub fn new(home_team: String, away_team: String, game_id: usize, date: CalendarDate) -> (r: InternalGameInfo)
        ensures
            r.home_name() == home_team@,
            r.away_name() == away_team@,
            r.id() == game_id,
            r.day() == date,
            r.gid == game_id,
            r.day() == date,
    {
        InternalGameInfo { home: home_team, away: away_team, gid: game_id, date }
    }

    /// Tells whether `from_url` can read `url` without failing on a slice, an index or a number.
    pub fn url_is_readable(url: &str) -> (b: bool)
        ensures
            b == !(game_url(url@) is Unreadable),
    {
        match read_game_url(url) {
            GameUrlRead::Unreadable => false,
            _ => true,
        }
    }

    /// The game information that a game center address holds: the away team, the home team
    /// (both in upper case), the date and the game id; a `#` fragment after the id is not
    /// read. An address without a `/` after the base is a `WrongURLStringFormat` error that
    /// holds the part after the base.
    pub fn from_url(url: &str) -> (r: Result<InternalGameInfo, BuilderError>)
        requires
            !(game_url(url@) is Unreadable),
        ensures
            match game_url(url@) {
                GameUrl::Game { home, away, gid, date } => r matches Ok(info) && info.home_name()
                    == home && info.away_name() == away && info.id() == gid && info.day() == date,
                GameUrl::WrongFormat { data } => r matches Err(BuilderError::WrongURLStringFormat(
                    m,
                )) && m@ == data,
                GameUrl::Unreadable => false,
            },
    {
        match read_game_url(url) {
            GameUrlRead::Read(info) => Ok(info),
            GameUrlRead::WrongFormat(m) => Err(BuilderError::WrongURLStringFormat(m)),
            GameUrlRead::Unreadable => Err(BuilderError::ChannelError),
        }
    }

    /// A copy of this game information.
    pub fn make_clone(&self) -> (r: InternalGameInfo)
        ensures
            r == *self,
    {
        InternalGameInfo { home: self.home.clone(), away: self.away.clone(), gid: self.gid, date: self.date }
    }

    /// The id of the game.
    pub fn get_id(&self) -> (r: usize)
        ensures
            r == self.id(),
    {
        self.gid
    }

    /// Tells whether the report addresses of this game can be written for `season`.
    pub fn report_urls_defined(&self, season: usize) -> (b: bool)
        ensures
            b == report_url_defined(season as nat, self.id() as nat),
    {
        season < usize::MAX && season <= usize::MAX / 1000000 && season * 1000000 <= self.gid
    }

    /// The address of the game's event summary report.
    pub fn get_event_summary_url(&self, season: usize) -> (r: String)
        requires
            report_url_defined(season as nat, self.id() as nat),
        ensures
            r@ == report_url(EVENT_SUMMARY@, season as nat, self.id() as nat),
    {
        self.report_url(EVENT_SUMMARY, season)
    }

    /// The address of the game's game summary report.
    pub fn get_game_summary_url(&self, season: usize) -> (r: String)
        requires
            report_url_defined(season as nat, self.id() as nat),
        ensures
            r@ == report_url(GAME_SUMMARY@, season as nat, self.id() as nat),
    {
        self.report_url(GAME_SUMMARY, season)
    }

    /// The address of the game's shot summary report.
    pub fn get_shot_summary_url(&self, season: usize) -> (r: String)
        requires
            report_url_defined(season as nat, self.id() as nat),
        ensures
            r@ == report_url(SHOT_SUMMARY@, season as nat, self.id() as nat),
    {
        self.report_url(SHOT_SUMMARY, season)
    }

    fn report_url(&self, kind: &str, season: usize) -> (r: String)
        requires
            report_url_defined(season as nat, self.id() as nat),
        ensures
            r@ == report_url(kind@, season as nat, self.id() as nat),
    {
        let offset = format_season_summary(season);
        let mut r = String::from_str(REPORTS_BASE);
        push_decimal(&mut r, season as u64);
        push_decimal(&mut r, (season + 1) as u64);
        r.append(kind);
        push_decimal(&mut r, (self.gid - offset) as u64);
        r.append(REPORT_SUFFIX);
        assert(r@ =~= report_url(kind@, season as nat, self.id() as nat));
        r
    }

    /// The day the game is played.
    pub fn get_date(&self) -> (r: CalendarDate)
        ensures
            r == self.day(),
    {
        self.date
    }

    /// The name of the home team.
    pub fn get_home_team(&self) -> (r: &String)
        ensures
            r@ == self.home_name(),
    {
        &self.home
    }

    /// The name of the away team.
    pub fn get_away_team(&self) -> (r: &String)
        ensures
            r@ == self.away_name(),
    {
        &self.away
    }
}

} // verus!
