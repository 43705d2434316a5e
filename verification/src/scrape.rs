//! Shared pieces of the scraping logic: errors, addresses, and how results are sorted out.

use vstd::prelude::*;
use crate::calendar_date::{CalendarDate, date_before};
use crate::gameinfo::{InternalGameInfo, game_ordering};
use core::cmp::Ordering;
use crate::decimal::{decimal_chars, push_decimal};
use crate::scrape_config::BASE_URL;

verus! {

/// Where the game center pages of the league live; a game's page address starts with this.
pub const _BASE: &'static str = "https://www.nhl.com/gamecenter/";

/// What separates the two teams in a game center address.
pub const _VS: &'static str = "-vs-";

/// Why a game's information or result could not be built.
#[derive(Debug, Clone, PartialEq, Eq)]
pub enum BuilderError {
    /// The address a game id led to does not have the expected shape; holds its tail.
    WrongURLStringFormat(String),
    /// The game's reports are not there yet: it has not been played.
    GamePostponed,
    /// The request itself failed; holds the request error's message.
    REQWEST(String),
    /// A worker's result could not be received.
    ChannelError,
}

/// A scraped value, or the game id it was for and what went wrong.
pub type ScrapeResults<T> = Result<T, (usize, BuilderError)>;

/// A forward slash becomes a dash; every other character stays.
pub open spec fn convert_slash(ch: char) -> char {
    if ch == '/' {
        '-'
    } else {
        ch
    }
}

/// Turns `/` into `-`, so that a date written with slashes reads like one written with dashes.
pub fn convert_fwd_slashes(ch: char) -> (r: char)
    ensures
        r == convert_slash(ch),
{
    if ch == '/' {
        '-'
    } else {
        ch
    }
}

/// The values of the successful results, in order.
pub open spec fn ok_values<T>(rs: Seq<ScrapeResults<T>>) -> Seq<T>
    decreases rs.len(),
{
    if rs.len() == 0 {
        Seq::empty()
    } else {
        let rest = ok_values(rs.drop_last());
        match rs.last() {
            Ok(v) => rest.push(v),
            Err(_) => rest,
        }
    }
}

/// The errors of the failed results, in order.
pub open spec fn err_values<T>(rs: Seq<ScrapeResults<T>>) -> Seq<(usize, BuilderError)>
    decreases rs.len(),
{
    if rs.len() == 0 {
        Seq::empty()
    } else {
        let rest = err_values(rs.drop_last());
        match rs.last() {
            Ok(_) => rest,
            Err(e) => rest.push(e),
        }
    }
}

/// `r` holds, in order, the values that `s` holds.
pub open spec fn refs_match<T>(r: Seq<&T>, s: Seq<T>) -> bool {
    r.len() == s.len() && forall|k: int| 0 <= k < s.len() ==> *r[k] == s[k]
}

/// Splits results into the successful values and the errors, each in their order.
pub fn process_gr_results<T>(results: &Vec<ScrapeResults<T>>) -> (r: (Vec<&T>, Vec<&(usize, BuilderError)>))
    ensures
        refs_match(r.0@, ok_values(results@)),
        refs_match(r.1@, err_values(results@)),
{
    let mut oks: Vec<&T> = Vec::new();
    let mut errs: Vec<&(usize, BuilderError)> = Vec::new();
    let mut i: usize = 0;
    while i < results.len()
        invariant
            i <= results@.len(),
            refs_match(oks@, ok_values(results@.subrange(0, i as int))),
            refs_match(errs@, err_values(results@.subrange(0, i as int))),
        decreases results@.len() - i,
    {
        let ghost pre = results@.subrange(0, i as int);
        assert(results@.subrange(0, i + 1).drop_last() =~= pre);
        match &results[i] {
            Ok(v) => {
                oks.push(v);
            },
            Err(e) => {
                errs.push(e);
            },
        }
        i = i + 1;
    }
    assert(results@.subrange(0, i as int) =~= results@);
    (oks, errs)
}

/// `a` comes before `b` when sorting games: by date, then by game id.
pub open spec fn game_key_before(a: InternalGameInfo, b: InternalGameInfo) -> bool {
    date_before(a.day(), b.day()) || (a.day() == b.day() && a.id() < b.id())
}

/// `a` and `b` have the same date and the same game id.
pub open spec fn game_key_equal(a: InternalGameInfo, b: InternalGameInfo) -> bool {
    a.day() == b.day() && a.id() == b.id()
}

/// Tells whether `a` comes before `b` when sorting games.
pub fn game_key_less(a: &InternalGameInfo, b: &InternalGameInfo) -> (r: bool)
    ensures
        r == game_key_before(*a, *b),
{
    let da = a.get_date();
    let db = b.get_date();
    if da.is_before(&db) {
        true
    } else {
        da == db && a.get_id() < b.get_id()
    }
}

/// `p` is a permutation of the indices `0..n` (no index twice, each in range).
pub open spec fn is_index_permutation(p: Seq<int>, n: nat) -> bool {
    &&& p.len() == n
    &&& forall|k: int| 0 <= k < n ==> 0 <= #[trigger] p[k] < n
    &&& forall|k: int, l: int| 0 <= k < l < n ==> p[k] != p[l]
}

/// `r` is `s` sorted by date, then game id, with games that agree on both kept in the order
/// they had in `s`; `p` tells, for each place of `r`, the place in `s` its game came from.
pub open spec fn stably_sorted_by(s: Seq<InternalGameInfo>, r: Seq<InternalGameInfo>, p: Seq<int>) -> bool {
    &&& is_index_permutation(p, s.len())
    &&& r.len() == s.len()
    &&& forall|k: int| 0 <= k < r.len() ==> r[k] == s[#[trigger] p[k]]
    &&& forall|k: int, l: int| 0 <= k < l < r.len() ==> !game_key_before(#[trigger] r[l], #[trigger] r[k])
    &&& forall|k: int, l: int| 0 <= k < l < r.len() && game_key_equal(#[trigger] r[k], #[trigger] r[l]) ==> p[k] < p[l]
}

/// `r` is the stable sort of `s` by date, then game id.
pub open spec fn is_stable_sort(s: Seq<InternalGameInfo>, r: Seq<InternalGameInfo>) -> bool {
    exists|p: Seq<int>| stably_sorted_by(s, r, p)
}

/// The values behind a sequence of references.
pub open spec fn derefs(r: Seq<&InternalGameInfo>) -> Seq<InternalGameInfo> {
    r.map_values(|x: &InternalGameInfo| *x)
}

/// Sorts games by date, then game id, keeping the order of games that agree on both.
pub fn sort_games<'a>(games: &Vec<&'a InternalGameInfo>) -> (r: Vec<&'a InternalGameInfo>)
    ensures
        is_stable_sort(derefs(games@), derefs(r@)),
{
    let ghost s = derefs(games@);
    let mut out: Vec<&'a InternalGameInfo> = Vec::new();
    let ghost mut p: Seq<int> = Seq::empty();
    let mut i: usize = 0;
    while i < games.len()
        invariant
            i <= games@.len(),
            s == derefs(games@),
            stably_sorted_by(s.subrange(0, i as int), derefs(out@), p),
            forall|k: int| 0 <= k < p.len() ==> p[k] < i,
        decreases games@.len() - i,
    {
        let g = games[i];
        let mut pos: usize = 0;
        while pos < out.len() && !game_key_less(g, out[pos])
            invariant
                pos <= out@.len(),
                forall|k: int| 0 <= k < pos ==> !game_key_before(*g, #[trigger] derefs(out@)[k]),
            decreases out@.len() - pos,
        {
            pos = pos + 1;
        }
        let ghost old_out = derefs(out@);
        let ghost old_p = p;
        proof {
            lemma_sorted_after_insert(s.subrange(0, i as int), old_out, old_p, *g, pos as int);
        }
        out.insert(pos, g);
        proof {
            p = old_p.insert(pos as int, i as int);
            assert(derefs(out@) =~= old_out.insert(pos as int, *g));
            assert(s.subrange(0, i + 1) =~= s.subrange(0, i as int).push(*g));
        }
        i = i + 1;
    }
    assert(s.subrange(0, i as int) =~= s);
    out
}

/// The sort key order is a strict order, and games that neither precede nor follow each other
/// agree on date and game id.
pub proof fn lemma_game_key_order(a: InternalGameInfo, b: InternalGameInfo, c: InternalGameInfo)
    ensures
        !game_key_before(a, a),
        game_key_before(a, b) ==> !game_key_before(b, a),
        game_key_before(a, b) && game_key_before(b, c) ==> game_key_before(a, c),
        !game_key_before(a, b) && !game_key_before(b, a) <==> game_key_equal(a, b),
        game_key_equal(a, b) ==> !game_key_before(a, b),
{
}

proof fn lemma_sorted_after_insert(
    prev: Seq<InternalGameInfo>,
    old_out: Seq<InternalGameInfo>,
    old_p: Seq<int>,
    g: InternalGameInfo,
    pos: int,
)
    requires
        stably_sorted_by(prev, old_out, old_p),
        0 <= pos <= old_out.len(),
        forall|k: int| 0 <= k < pos ==> !game_key_before(g, #[trigger] old_out[k]),
        pos < old_out.len() ==> game_key_before(g, old_out[pos]),
    ensures
        stably_sorted_by(prev.push(g), old_out.insert(pos, g), old_p.insert(pos, prev.len() as int)),
{
    let n = prev.len() as int;
    let s2 = prev.push(g);
    let r = old_out.insert(pos, g);
    let p = old_p.insert(pos, n);
    assert forall|l: int| pos <= l < old_out.len() implies game_key_before(g, #[trigger] old_out[l]) by {
        if l > pos {
            lemma_game_key_order(g, old_out[pos], old_out[l]);
            lemma_game_key_order(old_out[pos], old_out[l], g);
            lemma_game_key_order(old_out[l], old_out[pos], g);
        }
    }
    assert(is_index_permutation(p, s2.len())) by {
        assert forall|k: int, l: int| 0 <= k < l < n + 1 implies p[k] != p[l] by {
            if k < pos && l < pos {
            } else if k < pos && l == pos {
            } else if k < pos {
                assert(p[l] == old_p[l - 1]);
            } else if k == pos {
                assert(p[l] == old_p[l - 1]);
            } else {
                assert(p[k] == old_p[k - 1]);
                assert(p[l] == old_p[l - 1]);
            }
        }
        assert forall|k: int| 0 <= k < n + 1 implies 0 <= #[trigger] p[k] < n + 1 by {
            if k < pos {
            } else if k > pos {
                assert(p[k] == old_p[k - 1]);
            }
        }
    }
    assert forall|k: int| 0 <= k < r.len() implies r[k] == s2[#[trigger] p[k]] by {
        if k < pos {
            assert(r[k] == old_out[k]);
        } else if k > pos {
            assert(r[k] == old_out[k - 1]);
            assert(p[k] == old_p[k - 1]);
        }
    }
    assert forall|k: int, l: int| 0 <= k < l < r.len() implies !game_key_before(#[trigger] r[l], #[trigger] r[k]) by {
        if l < pos {
        } else if l == pos {
            assert(r[k] == old_out[k]);
        } else if k < pos {
            assert(r[l] == old_out[l - 1]);
            assert(r[k] == old_out[k]);
        } else if k == pos {
            assert(r[l] == old_out[l - 1]);
            lemma_game_key_order(g, old_out[l - 1], g);
        } else {
            assert(r[l] == old_out[l - 1]);
            assert(r[k] == old_out[k - 1]);
        }
    }
    assert forall|k: int, l: int| 0 <= k < l < r.len() && game_key_equal(#[trigger] r[k], #[trigger] r[l]) implies p[k] < p[l] by {
        if l < pos {
        } else if l == pos {
        } else if k < pos {
            assert(r[l] == old_out[l - 1]);
            assert(r[k] == old_out[k]);
            assert(p[l] == old_p[l - 1]);
        } else if k == pos {
            assert(r[l] == old_out[l - 1]);
            lemma_game_key_order(g, old_out[l - 1], g);
        } else {
            assert(r[l] == old_out[l - 1]);
            assert(r[k] == old_out[k - 1]);
            assert(p[l] == old_p[l - 1]);
            assert(p[k] == old_p[k - 1]);
        }
    }
}

/// Splits the scraped game information into the games, sorted by date and then game id,
/// and the errors, in their order.
pub fn process_results(results: &Vec<ScrapeResults<InternalGameInfo>>) -> (r: (
    Vec<&InternalGameInfo>,
    Vec<&(usize, BuilderError)>,
))
    ensures
        is_stable_sort(ok_values(results@), derefs(r.0@)),
        refs_match(r.1@, err_values(results@)),
{
    let (games, errors) = process_gr_results(results);
    assert(derefs(games@) =~= ok_values(results@));
    let sorted = sort_games(&games);
    (sorted, errors)
}

/// When a game id always comes with the same date, comparing two games orders them by
/// date and then by game id, which is the order the games are sorted in.
pub proof fn lemma_game_ordering_is_date_then_id(a: InternalGameInfo, b: InternalGameInfo)
    requires
        a.id() == b.id() ==> a.day() == b.day(),
    ensures
        (game_ordering(a, b) == Ordering::Less) == game_key_before(a, b),
        (game_ordering(a, b) == Ordering::Equal) == game_key_equal(a, b),
        (game_ordering(a, b) == Ordering::Greater) == game_key_before(b, a),
{
}

/// Comparing two games and comparing them the other way round give opposite answers, and
/// two games compare equal exactly when they are equal as game information (same game id).
pub proof fn lemma_game_ordering_antisymmetric(a: InternalGameInfo, b: InternalGameInfo)
    ensures
        (game_ordering(a, b) == Ordering::Less) == (game_ordering(b, a) == Ordering::Greater),
        (game_ordering(a, b) == Ordering::Equal) == (game_ordering(b, a) == Ordering::Equal),
        (game_ordering(a, b) == Ordering::Equal) == (a.id() == b.id()),
{
}

/// The address at which the game with id `id` is asked for.
pub open spec fn game_center_address(id: nat) -> Seq<char> {
    BASE_URL@ + seq!['/'] + decimal_chars(id)
}

/// The address at which the game with id `id` is asked for.
pub fn game_center_url(id: usize) -> (r: String)
    ensures
        r@ == game_center_address(id as nat),
{
    let mut r = String::from_str(BASE_URL);
    crate::decimal::string_push(&mut r, '/');
    push_decimal(&mut r, id as u64);
    assert(r@ =~= game_center_address(id as nat));
    r
}

/// All ids of a range, in order.
pub fn ids_in_range(range: core::ops::Range<usize>) -> (r: Vec<usize>)
    ensures
        r@.len() == if range.start <= range.end { range.end - range.start } else { 0 },
        forall|k: int| 0 <= k < r@.len() ==> #[trigger] r@[k] == range.start + k,
{
    let mut r: Vec<usize> = Vec::new();
    let mut i = range.start;
    while i < range.end
        invariant
            range.start <= i || range.start > range.end,
            range.start <= range.end ==> i <= range.end,
            range.start <= range.end ==> r@.len() == i - range.start,
            range.start > range.end ==> r@.len() == 0 && i == range.start,
            forall|k: int| 0 <= k < r@.len() ==> #[trigger] r@[k] == range.start + k,
        decreases range.end - i,
    {
        r.push(i);
        i = i + 1;
    }
    r
}

/// How many of the errors say that the game was postponed.
pub open spec fn postponed_count(errs: Seq<&(usize, BuilderError)>) -> nat
    decreases errs.len(),
{
    if errs.len() == 0 {
        0
    } else {
        postponed_count(errs.drop_last()) + if errs.last().1 is GamePostponed {
            1nat
        } else {
            0nat
        }
    }
}

/// Counts the errors that say the game was postponed; those are expected, not failures.
pub fn count_postponed(errors: &Vec<&(usize, BuilderError)>) -> (r: usize)
    ensures
        r == postponed_count(errors@),
{
    let mut count: usize = 0;
    let mut i: usize = 0;
    while i < errors.len()
        invariant
            i <= errors@.len(),
            count == postponed_count(errors@.subrange(0, i as int)),
            count <= i,
        decreases errors@.len() - i,
    {
        assert(errors@.subrange(0, i + 1).drop_last() =~= errors@.subrange(0, i as int));
        let e: &(usize, BuilderError) = errors[i];
        match &e.1 {
            BuilderError::GamePostponed => {
                count = count + 1;
            },
            _ => {},
        }
        i = i + 1;
    }
    assert(errors@.subrange(0, i as int) =~= errors@);
    count
}

/// The games of `s` played before `until`, in their order.
pub open spec fn dated_before(s: Seq<InternalGameInfo>, until: CalendarDate) -> Seq<InternalGameInfo>
    decreases s.len(),
{
    if s.len() == 0 {
        Seq::empty()
    } else {
        let rest = dated_before(s.drop_last(), until);
        if date_before(s.last().day(), until) {
            rest.push(s.last())
        } else {
            rest
        }
    }
}

/// The games of the season whose results can be scraped: those played before `until`.
pub fn games_before<'a>(season: &'a Vec<InternalGameInfo>, until: &CalendarDate) -> (r: Vec<&'a InternalGameInfo>)
    ensures
        refs_match(r@, dated_before(season@, *until)),
{
    let mut r: Vec<&'a InternalGameInfo> = Vec::new();
    let mut i: usize = 0;
    while i < season.len()
        invariant
            i <= season@.len(),
            refs_match(r@, dated_before(season@.subrange(0, i as int), *until)),
        decreases season@.len() - i,
    {
        assert(season@.subrange(0, i + 1).drop_last() =~= season@.subrange(0, i as int));
        let g = &season[i];
        if g.get_date().is_before(until) {
            r.push(g);
        }
        i = i + 1;
    }
    assert(season@.subrange(0, i as int) =~= season@);
    r
}

/// Index `i` holds the last occurrence of its id in `ids`.
pub open spec fn is_last_occurrence(ids: Seq<usize>, i: int) -> bool {
    0 <= i < ids.len() && forall|j: int| i < j < ids.len() ==> ids[j] != ids[i]
}

/// `r` picks, for every id of `ids`, the place of its last occurrence, ordered by id.
pub open spec fn latest_by_id(ids: Seq<usize>, r: Seq<usize>) -> bool {
    &&& forall|k: int| 0 <= k < r.len() ==> is_last_occurrence(ids, #[trigger] r[k] as int)
    &&& forall|k: int, l: int| 0 <= k < l < r.len() ==> ids[#[trigger] r[k] as int] < ids[#[trigger] r[l] as int]
    &&& forall|i: int| #![trigger is_last_occurrence(ids, i)] is_last_occurrence(ids, i) ==> r.contains(i as usize)
}

fn is_last_at(ids: &Vec<usize>, i: usize) -> (b: bool)
    requires
        i < ids@.len(),
    ensures
        b == is_last_occurrence(ids@, i as int),
{
    let n = ids.len();
    let mut j = i + 1;
    while j < n
        invariant
            n == ids@.len(),
            i < j <= n,
            forall|j2: int| i < j2 < j ==> ids@[j2] != ids@[i as int],
        decreases n - j,
    {
        if ids[j] == ids[i] {
            return false;
        }
        j = j + 1;
    }
    true
}

/// The invariant of building the places of the last occurrences of the ids `ids[..i]`.
pub open spec fn latest_prefix(ids: Seq<usize>, r: Seq<usize>, i: int) -> bool {
    &&& forall|k: int| 0 <= k < r.len() ==> #[trigger] r[k] < i
    &&& forall|k: int| 0 <= k < r.len() ==> is_last_occurrence(ids, #[trigger] r[k] as int)
    &&& forall|k: int, l: int| 0 <= k < l < r.len() ==> ids[#[trigger] r[k] as int] < ids[#[trigger] r[l] as int]
    &&& forall|i2: int| #![trigger is_last_occurrence(ids, i2)] 0 <= i2 < i && is_last_occurrence(ids, i2) ==> r.contains(i2 as usize)
}

#[verifier::rlimit(40)]
proof fn lemma_latest_insert(ids: Seq<usize>, r: Seq<usize>, i: usize, pos: int)
    requires
        i < ids.len(),
        latest_prefix(ids, r, i as int),
        is_last_occurrence(ids, i as int),
        0 <= pos <= r.len(),
        forall|k: int| 0 <= k < pos ==> ids[#[trigger] r[k] as int] < ids[i as int],
        pos < r.len() ==> ids[i as int] <= ids[r[pos] as int],
    ensures
        latest_prefix(ids, r.insert(pos, i), i + 1),
{
    let id = ids[i as int];
    let r2 = r.insert(pos, i);
    assert forall|k: int| 0 <= k < r.len() implies ids[#[trigger] r[k] as int] != id by {
        assert(is_last_occurrence(ids, r[k] as int));
        assert(r[k] < i);
    }
    assert forall|k: int| pos <= k < r.len() implies id < ids[#[trigger] r[k] as int] by {
        if k > pos {
            assert(ids[r[pos] as int] < ids[r[k] as int]);
        }
        assert(ids[r[k] as int] != id);
    }
    assert forall|k: int| 0 <= k < r2.len() implies #[trigger] r2[k] < i + 1 && is_last_occurrence(ids, r2[k] as int) by {
        if k < pos {
            assert(r2[k] == r[k]);
        } else if k > pos {
            assert(r2[k] == r[k - 1]);
        }
    }
    assert forall|i2: int| #![trigger is_last_occurrence(ids, i2)] 0 <= i2 < i + 1 && is_last_occurrence(ids, i2) implies r2.contains(i2 as usize) by {
        if i2 == i {
            assert(r2[pos] == i);
        } else {
            assert(r.contains(i2 as usize));
            let k = choose|k: int| 0 <= k < r.len() && r[k] == i2 as usize;
            if k < pos {
                assert(r2[k] == i2 as usize);
            } else {
                assert(r2[k + 1] == i2 as usize);
            }
        }
    }
    assert forall|k: int, l: int| 0 <= k < l < r2.len() implies ids[#[trigger] r2[k] as int] < ids[#[trigger] r2[l] as int] by {
        if l < pos {
        } else if l == pos {
            assert(r2[k] == r[k]);
        } else if k < pos {
            assert(r2[l] == r[l - 1]);
            assert(r2[k] == r[k]);
        } else if k == pos {
            assert(r2[l] == r[l - 1]);
        } else {
            assert(r2[l] == r[l - 1]);
            assert(r2[k] == r[k - 1]);
        }
    }
}

/// For the games with ids `ids`, the places of the games to keep when duplicates are
/// dropped: the last game with each id, in the order of the ids.
pub fn latest_games_by_id(ids: &Vec<usize>) -> (r: Vec<usize>)
    ensures
        latest_by_id(ids@, r@),
{
    let n = ids.len();
    let mut r: Vec<usize> = Vec::new();
    let mut i: usize = 0;
    while i < n
        invariant
            n == ids@.len(),
            i <= n,
            latest_prefix(ids@, r@, i as int),
        decreases n - i,
    {
        if is_last_at(ids, i) {
            let id = ids[i];
            let mut pos: usize = 0;
            while pos < r.len() && ids[r[pos]] < id
                invariant
                    pos <= r@.len(),
                    n == ids@.len(),
                    i < n,
                    id == ids@[i as int],
                    forall|k: int| 0 <= k < r@.len() ==> #[trigger] r@[k] < i,
                    forall|k: int| 0 <= k < pos ==> ids@[#[trigger] r@[k] as int] < id,
                decreases r@.len() - pos,
            {
                pos = pos + 1;
            }
            proof {
                lemma_latest_insert(ids@, r@, i, pos as int);
            }
            r.insert(pos, i);
        }
        i = i + 1;
    }
    r
}

/// The season's games sorted by date and then game id, as copies.
pub fn sorted_season(season: &Vec<InternalGameInfo>) -> (r: Vec<InternalGameInfo>)
    ensures
        is_stable_sort(season@, r@),
{
    let mut refs: Vec<&InternalGameInfo> = Vec::new();
    let mut i: usize = 0;
    while i < season.len()
        invariant
            i <= season@.len(),
            derefs(refs@) == season@.subrange(0, i as int),
        decreases season@.len() - i,
    {
        let ghost before = refs@;
        refs.push(&season[i]);
        assert(derefs(refs@) =~= derefs(before).push(season@[i as int]));
        assert(season@.subrange(0, i + 1) =~= season@.subrange(0, i as int).push(season@[i as int]));
        i = i + 1;
    }
    assert(season@.subrange(0, i as int) =~= season@);
    let sorted = sort_games(&refs);
    let mut r: Vec<InternalGameInfo> = Vec::new();
    let mut k: usize = 0;
    while k < sorted.len()
        invariant
            k <= sorted@.len(),
            r@ == derefs(sorted@).subrange(0, k as int),
        decreases sorted@.len() - k,
    {
        let g = sorted[k].make_clone();
        let ghost before = r@;
        r.push(g);
        assert(r@ =~= derefs(sorted@).subrange(0, k + 1));
        k = k + 1;
    }
    assert(derefs(sorted@).subrange(0, k as int) =~= derefs(sorted@));
    r
}

/// Every result is either a value or an error: there are as many of both together as results.
pub proof fn lemma_results_partition<T>(rs: Seq<ScrapeResults<T>>)
    ensures
        ok_values(rs).len() + err_values(rs).len() == rs.len(),
    decreases rs.len(),
{
    if rs.len() > 0 {
        lemma_results_partition(rs.drop_last());
    }
}

proof fn lemma_all_postponed_count(errs: Seq<&(usize, BuilderError)>)
    requires
        forall|k: int| 0 <= k < errs.len() ==> (#[trigger] errs[k]).1 is GamePostponed,
    ensures
        postponed_count(errs) == errs.len(),
    decreases errs.len(),
{
    if errs.len() > 0 {
        let init = errs.drop_last();
        assert forall|k: int| 0 <= k < init.len() implies (#[trigger] init[k]).1 is GamePostponed by {
            assert(init[k] == errs[k]);
        }
        lemma_all_postponed_count(init);
        assert(errs.last() == errs[errs.len() - 1]);
    }
}

/// When every error says that the game was postponed, the games scraped are the results
/// less the postponed games.
pub proof fn lemma_scraped_all_but_postponed<T>(rs: Seq<ScrapeResults<T>>, errs: Seq<&(usize, BuilderError)>)
    requires
        refs_match(errs, err_values(rs)),
        forall|k: int| 0 <= k < errs.len() ==> (#[trigger] errs[k]).1 is GamePostponed,
    ensures
        ok_values(rs).len() == rs.len() - postponed_count(errs),
{
    lemma_results_partition(rs);
    lemma_all_postponed_count(errs);
}

/// The last place before `end` that holds the id `v`.
pub open spec fn last_place_of(ids: Seq<usize>, v: usize, end: int) -> Option<int>
    decreases end,
{
    if end <= 0 || end > ids.len() {
        None
    } else if ids[end - 1] == v {
        Some(end - 1)
    } else {
        last_place_of(ids, v, end - 1)
    }
}

proof fn lemma_last_place_of(ids: Seq<usize>, i: int, end: int)
    requires
        0 <= i < end <= ids.len(),
    ensures
        last_place_of(ids, ids[i], end) matches Some(j) && i <= j < end && ids[j] == ids[i]
            && forall|j2: int| j < j2 < end ==> ids[j2] != ids[i],
    decreases end,
{
    if ids[end - 1] != ids[i] {
        lemma_last_place_of(ids, i, end - 1);
    }
}

/// Dropping duplicates loses no game: every id of `ids` is the id of some kept place, and
/// no id is kept twice.
pub proof fn lemma_latest_keeps_every_id(ids: Seq<usize>, r: Seq<usize>)
    requires
        latest_by_id(ids, r),
        ids.len() <= usize::MAX,
    ensures
        forall|i: int| #![trigger ids[i]] 0 <= i < ids.len() ==> exists|k: int| 0 <= k < r.len() && ids[#[trigger] r[k] as int] == ids[i],
        forall|k: int, l: int| 0 <= k < l < r.len() ==> ids[#[trigger] r[k] as int] != ids[#[trigger] r[l] as int],
{
    assert forall|i: int| #![trigger ids[i]] 0 <= i < ids.len() implies exists|k: int| 0 <= k < r.len() && ids[#[trigger] r[k] as int] == ids[i] by {
        lemma_last_place_of(ids, i, ids.len() as int);
        let j = last_place_of(ids, ids[i], ids.len() as int).unwrap();
        assert(is_last_occurrence(ids, j));
        assert(r.contains(j as usize));
        let k = choose|k: int| 0 <= k < r.len() && r[k] == j as usize;
        assert(ids[r[k] as int] == ids[i]);
    }
}

/// Games on different dates are ordered by the calendar, year first, then month, then day,
/// both when sorting and when comparing two games with different ids; games on the same date
/// are ordered by id.
pub proof fn lemma_games_in_calendar_order(a: InternalGameInfo, b: InternalGameInfo)
    ensures
        ({
            let (x, y) = (a.day(), b.day());
            let earlier = x.year < y.year || (x.year == y.year && x.month < y.month) || (x.year == y.year
                && x.month == y.month && x.day < y.day);
            &&& earlier ==> game_key_before(a, b) && !game_key_before(b, a)
            &&& earlier && a.id() != b.id() ==> game_ordering(a, b) == Ordering::Less && game_ordering(b, a)
                == Ordering::Greater
            &&& x == y && a.id() < b.id() ==> game_key_before(a, b) && game_ordering(a, b) == Ordering::Less
        }),
{
}

/// The games played before `until` are exactly the season's games whose date comes before
/// `until` in the calendar (an earlier year, or an earlier month of the same year, or an
/// earlier day of the same month), in the season's order.
pub proof fn lemma_dated_before_by_calendar(s: Seq<InternalGameInfo>, until: CalendarDate)
    ensures
        dated_before(s, until) == s.filter(
            |g: InternalGameInfo|
                g.day().year < until.year || (g.day().year == until.year && g.day().month < until.month) || (
                g.day().year == until.year && g.day().month == until.month && g.day().day < until.day),
        ),
    decreases s.len(),
{
    reveal(Seq::filter);
    if s.len() > 0 {
        lemma_dated_before_by_calendar(s.drop_last(), until);
    }
}

/// The postponed count is the number of errors that say the game was postponed; an error of
/// any other kind counts for nothing.
pub proof fn lemma_postponed_count_counts_postponements(errs: Seq<&(usize, BuilderError)>)
    ensures
        postponed_count(errs) == errs.filter(|e: &(usize, BuilderError)| e.1 is GamePostponed).len(),
        forall|e: &(usize, BuilderError)| !(e.1 is GamePostponed) ==> #[trigger] postponed_count(errs.push(e)) == postponed_count(errs),
        forall|e: &(usize, BuilderError)| e.1 is GamePostponed ==> #[trigger] postponed_count(errs.push(e)) == postponed_count(errs) + 1,
    decreases errs.len(),
{
    reveal(Seq::filter);
    if errs.len() > 0 {
        lemma_postponed_count_counts_postponements(errs.drop_last());
    }
    assert forall|e: &(usize, BuilderError)| #[trigger] postponed_count(errs.push(e)) == postponed_count(errs) + if e.1 is GamePostponed { 1nat } else { 0nat } by {
        assert(errs.push(e).drop_last() =~= errs);
    }
}

} // verus!
