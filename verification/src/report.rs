//! Reading the statistics of a game out of the text of its reports.

use vstd::prelude::*;
use crate::decimal::{parse_unsigned, parse_unsigned_range, two_digit_chars, is_digit};
use crate::calendar_date::{lemma_two_digits_read, lemma_decimal_len};
use crate::html::{texts_view, element_view, elements_view, nested_view, html_class_elements, html_nested_elements, html_attr_texts, html_attr_descendant_texts, class_elements, nested_elements, attr_texts, attr_descendant_texts, ElementText, ElementRows};
use crate::text::{chars_of, find_char, find_char_from, split_char, split_list, char_views, lemma_find_char, lines, line_list, find_seq, find_seq_from, utf8_len, at_least_two_bytes, string_of, same_chars, trimmed, trim_bounds, sub_vec, chars_in_bytes, chars_for_bytes, lemma_chars_in_bytes_bound, lemma_ascii_prefix_bytes, trim_start, trim_end};

verus! {

/// The power plays of one team: the goals scored on them and how many there were.
#[derive(Debug, Clone, Copy, PartialEq, Eq, Structural)]
pub struct PowerPlay {
    pub goals: u32,
    pub total: u32,
}

/// A value that belongs to the away team or to the home team.
#[derive(Debug, Clone, Copy, PartialEq, Eq)]
pub enum TeamValue<T> {
    Away(T),
    Home(T),
}

/// The power plays that a summary line `goals-total/time` gives: the part before the first
/// `/` split at `-`, its first two pieces read as numbers. `None` where the line has no `/`,
/// fewer than two pieces, or a piece that is not a `u32`.
pub open spec fn power_play_line(s: Seq<char>) -> Option<PowerPlay> {
    match find_char(s, '/', 0) {
        None => None,
        Some(pos) => {
            let parts = split_char(s.subrange(0, pos), '-');
            if parts.len() >= 2 {
                match (parse_unsigned(parts[0], u32::MAX as nat), parse_unsigned(parts[1], u32::MAX as nat)) {
                    (Some(g), Some(t)) => Some(PowerPlay { goals: g as u32, total: t as u32 }),
                    _ => None,
                }
            } else {
                None
            }
        },
    }
}

/// Reads the power plays of a summary line `goals-total/time`.
pub fn read_power_play(s: &str) -> (r: Option<PowerPlay>)
    ensures
        r == power_play_line(s@),
{
    let v = chars_of(s);
    let pos = match find_char_from(&v, '/', 0) {
        Some(p) => p,
        None => return None,
    };
    proof {
        lemma_find_char(v@, '/', 0);
    }
    let head = crate::text::sub_vec(&v, 0, pos);
    let parts = split_list(&head, '-');
    if parts.len() < 2 {
        return None;
    }
    let p0 = &parts[0];
    let p1 = &parts[1];
    assert(char_views(parts@)[0] == p0@ && char_views(parts@)[1] == p1@);
    let g = parse_unsigned_range(p0, 0, p0.len(), u32::MAX as u64);
    let t = parse_unsigned_range(p1, 0, p1.len(), u32::MAX as u64);
    assert(p0@.subrange(0, p0@.len() as int) =~= p0@);
    assert(p1@.subrange(0, p1@.len() as int) =~= p1@);
    match (g, t) {
        (Some(g), Some(t)) => Some(PowerPlay { goals: g as u32, total: t as u32 }),
        _ => None,
    }
}

/// The power play lines can be read: there are two, and each reads.
pub open spec fn power_play_summary_readable(lines: Seq<String>) -> bool {
    lines.len() >= 2 && power_play_line(lines[0]@) is Some && power_play_line(lines[1]@) is Some
}

/// The power plays of the away team (first line) and of the home team (second line).
pub fn process_pp_summary(penalty_summary: &Vec<String>) -> (r: (TeamValue<PowerPlay>, TeamValue<PowerPlay>))
    requires
        power_play_summary_readable(penalty_summary@),
    ensures
        r.0 == TeamValue::Away(power_play_line(penalty_summary@[0]@).unwrap()),
        r.1 == TeamValue::Home(power_play_line(penalty_summary@[1]@).unwrap()),
{
    let away = read_power_play(penalty_summary[0].as_str()).unwrap();
    let home = read_power_play(penalty_summary[1].as_str()).unwrap();
    (TeamValue::Away(away), TeamValue::Home(home))
}

/// The first item of a penalty summary.
pub const PENALTY_SUMMARY_HEAD: &'static str = "TOT (PN-PIM)";

/// What marks a line of totals in a penalty summary.
pub const TOTALS_MARK: &'static str = "TOT";

/// The item after which a team's power play line follows.
pub const POWER_PLAY_INDICATOR: &'static str = "Power Plays (Goals-Opp./PPTime)";


/// Scanning the lines `ls[..end]` from the end, having seen `seen` lines of totals: where
/// the lines after the second line of totals from the end begin (0 when there is no second one).
pub open spec fn totals_tail_start(ls: Seq<Seq<char>>, end: int, seen: bool) -> int
    decreases end,
{
    if end <= 0 || end > ls.len() {
        0
    } else if find_seq(ls[end - 1], TOTALS_MARK@, 0) is Some {
        if seen {
            end
        } else {
            totals_tail_start(ls, end - 1, true)
        }
    } else {
        totals_tail_start(ls, end - 1, seen)
    }
}

/// A line that is kept as an item: at least two bytes long, and not a lone no-break space.
pub open spec fn is_kept_item(x: Seq<char>) -> bool {
    utf8_len(x) >= 2 && x != seq!['\u{a0}']
}

/// The kept lines, in order.
pub open spec fn kept_items(ls: Seq<Seq<char>>) -> Seq<Seq<char>>
    decreases ls.len(),
{
    if ls.len() == 0 {
        Seq::empty()
    } else {
        let rest = kept_items(ls.drop_last());
        if is_kept_item(ls.last()) {
            rest.push(ls.last())
        } else {
            rest
        }
    }
}

/// The items of one penalty summary text: its lines after the second line of totals from
/// the end, keeping those at least two bytes long that are not a lone no-break space.
pub open spec fn penalty_items(text: Seq<char>) -> Seq<Seq<char>> {
    let ls = lines(text);
    kept_items(ls.subrange(totals_tail_start(ls, ls.len() as int, false), ls.len() as int))
}

/// The penalty summary of a game: its head item, then the items of each summary text.
pub open spec fn penalty_summary_items(texts: Seq<Seq<char>>) -> Seq<Seq<char>>
    decreases texts.len(),
{
    if texts.len() == 0 {
        seq![PENALTY_SUMMARY_HEAD@]
    } else {
        penalty_summary_items(texts.drop_last()) + penalty_items(texts.last())
    }
}

fn append_penalty_items(out: &mut Vec<String>, text: &str)
    ensures
        texts_view(final(out)@) == texts_view(old(out)@) + penalty_items(text@),
{
    let v = chars_of(text);
    let ls = line_list(&v);
    let ghost l = char_views(ls@);
    let tot = chars_of(TOTALS_MARK);
    proof {
        reveal_strlit("TOT");
    }
    assert(tot@.len() == 3);
    let n = ls.len();
    let mut end = n;
    let mut seen = false;
    while end > 0
        invariant
            end <= n == l.len(),
            l == char_views(ls@),
            tot@ == TOTALS_MARK@,
            tot@.len() > 0,
            totals_tail_start(l, n as int, false) == totals_tail_start(l, end as int, seen),
        ensures
            end <= n,
            totals_tail_start(l, n as int, false) == end,
        decreases end,
    {
        let line = &ls[end - 1];
        assert(l[end - 1] == line@);
        if find_seq_from(line, &tot, 0).is_some() {
            if seen {
                break;
            }
            seen = true;
        }
        end = end - 1;
    }
    let start = end;
    let ghost base = out@;
    let mut k = start;
    while k < n
        invariant
            start <= k <= n == l.len(),
            l == char_views(ls@),
            texts_view(out@) == texts_view(base) + kept_items(l.subrange(start as int, k as int)),
        decreases n - k,
    {
        let line = &ls[k];
        assert(l[k as int] == line@);
        assert(l.subrange(start as int, k + 1).drop_last() =~= l.subrange(start as int, k as int));
        let lone_nbsp = line.len() == 1 && line[0] == '\u{a0}';
        assert(lone_nbsp == (line@ == seq!['\u{a0}'])) by {
            if line@.len() == 1 && line@[0] == '\u{a0}' {
                assert(line@ =~= seq!['\u{a0}']);
            }
        }
        if at_least_two_bytes(line) && !lone_nbsp {
            let item = string_of(line, 0, line.len());
            assert(item@ =~= line@);
            let ghost before = out@;
            out.push(item);
            assert(texts_view(out@) =~= texts_view(before).push(item@));
        }
        k = k + 1;
    }
    assert(l.subrange(start as int, n as int) == l.subrange(start as int, l.len() as int));
}

/// The penalty summary of a game from the texts of its penalty summary elements.
pub fn penalty_summary(texts: &Vec<String>) -> (r: Vec<String>)
    ensures
        texts_view(r@) == penalty_summary_items(texts_view(texts@)),
{
    let mut r: Vec<String> = Vec::new();
    r.push(String::from_str(PENALTY_SUMMARY_HEAD));
    assert(texts_view(r@) =~= seq![PENALTY_SUMMARY_HEAD@]);
    let mut i: usize = 0;
    while i < texts.len()
        invariant
            i <= texts@.len(),
            texts_view(r@) == penalty_summary_items(texts_view(texts@.subrange(0, i as int))),
        decreases texts@.len() - i,
    {
        assert(texts_view(texts@.subrange(0, i + 1)).drop_last() =~= texts_view(texts@.subrange(0, i as int)));
        append_penalty_items(&mut r, texts[i].as_str());
        i = i + 1;
    }
    assert(texts@.subrange(0, i as int) =~= texts@);
    r
}

/// The items that follow a power play indicator among `items[..upto]`, in order.
pub open spec fn after_indicators(items: Seq<Seq<char>>, upto: int) -> Seq<Seq<char>>
    decreases upto,
{
    if upto <= 0 || upto > items.len() {
        Seq::empty()
    } else {
        let rest = after_indicators(items, upto - 1);
        if items[upto - 1] == POWER_PLAY_INDICATOR@ {
            rest.push(items[upto])
        } else {
            rest
        }
    }
}

/// Every power play indicator has an item after it.
pub open spec fn indicators_followed(items: Seq<Seq<char>>) -> bool {
    forall|i: int| 0 <= i < items.len() && #[trigger] items[i] == POWER_PLAY_INDICATOR@ ==> i + 1 < items.len()
}

/// Tells whether every power play indicator of the summary has an item after it.
pub fn indicators_are_followed(summary: &Vec<String>) -> (b: bool)
    ensures
        b == indicators_followed(texts_view(summary@)),
{
    let ghost items = texts_view(summary@);
    let indicator = chars_of(POWER_PLAY_INDICATOR);
    let n = summary.len();
    if n == 0 {
        return true;
    }
    let last = chars_of(summary[n - 1].as_str());
    assert(items[n - 1] == last@);
    let r = !same_chars(&last, &indicator);
    proof {
        if r {
            assert forall|i: int| 0 <= i < items.len() && #[trigger] items[i] == POWER_PLAY_INDICATOR@ implies i + 1 < items.len() by {
                if i == n - 1 {
                    assert(items[i] == last@);
                }
            }
        }
    }
    r
}

/// The power play lines of a penalty summary: the items that follow its power play indicators.
pub fn power_play_lines(summary: &Vec<String>) -> (r: Vec<String>)
    requires
        indicators_followed(texts_view(summary@)),
    ensures
        texts_view(r@) == after_indicators(texts_view(summary@), summary@.len() as int),
{
    let ghost items = texts_view(summary@);
    let n = summary.len();
    let mut r: Vec<String> = Vec::new();
    let indicator = chars_of(POWER_PLAY_INDICATOR);
    let mut i: usize = 0;
    while i < n
        invariant
            indicator@ == POWER_PLAY_INDICATOR@,
            i <= n == items.len(),
            items == texts_view(summary@),
            indicators_followed(items),
            texts_view(r@) == after_indicators(items, i as int),
        decreases n - i,
    {
        assert(items[i as int] == summary@[i as int]@);
        let item = chars_of(summary[i].as_str());
        if same_chars(&item, &indicator) {
            assert(items[i as int] == POWER_PLAY_INDICATOR@);
            let next = summary[i + 1].clone();
            let ghost before = r@;
            r.push(next);
            assert(texts_view(r@) =~= texts_view(before).push(items[i + 1]));
        }
        i = i + 1;
    }
    r
}

/// The lines that are not empty, in order.
pub open spec fn nonempty_lines(ls: Seq<Seq<char>>) -> Seq<Seq<char>>
    decreases ls.len(),
{
    if ls.len() == 0 {
        Seq::empty()
    } else {
        let rest = nonempty_lines(ls.drop_last());
        if ls.last().len() != 0 {
            rest.push(ls.last())
        } else {
            rest
        }
    }
}

/// The cells of a shot summary table that hold each period's shots: the table's non-empty
/// lines make rows of five; after the header row, the fifth line of each row, trimmed,
/// leaving out the last row (the totals).
pub open spec fn period_cells(text: Seq<char>) -> Seq<Seq<char>> {
    let nl = nonempty_lines(lines(text));
    let rows = nl.len() / 5;
    if rows >= 2 {
        Seq::new((rows - 2) as nat, |c: int| trimmed(nl[5 * (c + 1) + 4]))
    } else {
        Seq::empty()
    }
}

/// The shots a cell `goals-shots` gives: the number after the first `-`; an empty cell
/// gives no shots. `None` where there is no `-` or no number after it.
pub open spec fn shots_in_cell(cell: Seq<char>) -> Option<nat> {
    if cell.len() == 0 {
        Some(0)
    } else {
        match find_char(cell, '-', 0) {
            None => None,
            Some(p) => parse_unsigned(cell.subrange(p + 1, cell.len() as int), usize::MAX as nat),
        }
    }
}

/// The shot summary table can be read: its non-empty lines make whole rows of five (or a
/// single row at most), and every period cell gives its shots.
pub open spec fn shot_table_readable(text: Seq<char>) -> bool {
    let n = nonempty_lines(lines(text)).len();
    &&& (n <= 5 || n % 5 == 0)
    &&& forall|c: int| 0 <= c < period_cells(text).len() ==> (#[trigger] shots_in_cell(period_cells(text)[c])) is Some
}

fn read_cell_shots(cell: &Vec<char>) -> (r: Option<usize>)
    ensures
        match shots_in_cell(cell@) {
            Some(v) => r == Some(v as usize),
            None => r is None,
        },
{
    if cell.len() == 0 {
        return Some(0);
    }
    let p = match find_char_from(cell, '-', 0) {
        Some(p) => p,
        None => return None,
    };
    proof {
        lemma_find_char(cell@, '-', 0);
    }
    match parse_unsigned_range(cell, p + 1, cell.len(), usize::MAX as u64) {
        Some(x) => Some(x as usize),
        None => None,
    }
}

/// The shots of each period that a shot summary table gives, when it can be read.
pub fn read_period_shots(text: &str) -> (r: Option<Vec<usize>>)
    ensures
        r is Some == shot_table_readable(text@),
        r matches Some(v) ==> v@.len() == period_cells(text@).len() && forall|c: int|
            0 <= c < v@.len() ==> #[trigger] v@[c] == shots_in_cell(period_cells(text@)[c]).unwrap(),
{
    let v = chars_of(text);
    let ls = line_list(&v);
    let ghost l = char_views(ls@);
    let mut nl: Vec<Vec<char>> = Vec::new();
    let mut i: usize = 0;
    while i < ls.len()
        invariant
            i <= ls@.len(),
            l == char_views(ls@),
            char_views(nl@) == nonempty_lines(l.subrange(0, i as int)),
        decreases ls@.len() - i,
    {
        assert(l.subrange(0, i + 1).drop_last() =~= l.subrange(0, i as int));
        let line = &ls[i];
        assert(l[i as int] == line@);
        if line.len() != 0 {
            let copy = sub_vec(line, 0, line.len());
            assert(copy@ =~= line@);
            let ghost before = nl@;
            nl.push(copy);
            assert(char_views(nl@) =~= char_views(before).push(copy@));
        }
        i = i + 1;
    }
    assert(l.subrange(0, i as int) =~= l);
    let ghost nls = char_views(nl@);
    let n = nl.len();
    if n > 5 && n % 5 != 0 {
        return None;
    }
    let rows = n / 5;
    let ghost cells = period_cells(text@);
    let mut out: Vec<usize> = Vec::new();
    if rows >= 2 {
        let mut c: usize = 0;
        while c < rows - 2
            invariant
                rows >= 2,
                rows == n / 5,
                n == nl@.len(),
                nls == char_views(nl@),
                nls == nonempty_lines(lines(text@)),
                cells == period_cells(text@),
                cells.len() == rows - 2,
                c <= rows - 2,
                out@.len() == c,
                forall|c2: int| 0 <= c2 < c ==> (#[trigger] shots_in_cell(cells[c2])) is Some && out@[c2] == shots_in_cell(cells[c2]).unwrap(),
            decreases rows - 2 - c,
        {
            let idx = 5 * (c + 1) + 4;
            let line = &nl[idx];
            assert(nls[idx as int] == line@);
            let (a, b) = trim_bounds(line);
            let cell = sub_vec(line, a, b);
            assert(cell@ == cells[c as int]);
            match read_cell_shots(&cell) {
                Some(x) => {
                    out.push(x);
                },
                None => {
                    assert(!shot_table_readable(text@));
                    return None;
                },
            }
            c = c + 1;
        }
    }
    Some(out)
}

/// An empty net cell can be cut where reading it needs: its trimmed text after two bytes,
/// and what follows after one more byte.
pub open spec fn empty_net_cell_cuttable(cell: Seq<char>) -> bool {
    let t = trimmed(cell);
    chars_in_bytes(t, 2) matches Some(j) && chars_in_bytes(t.subrange(j, t.len() as int), 1) is Some
}

/// What an empty net cell `mm:ss` says: whether the goalie was pulled with more than a
/// minute, or more than fifteen seconds, left; `None` when the minutes (the first two
/// bytes) or the seconds (after one more byte) are not numbers.
pub open spec fn goalie_pulled_reading(cell: Seq<char>) -> Option<bool> {
    let t = trimmed(cell);
    let j = chars_in_bytes(t, 2).unwrap();
    let secs = t.subrange(j, t.len() as int);
    let j1 = chars_in_bytes(secs, 1).unwrap();
    match (parse_unsigned(t.subrange(0, j), u32::MAX as nat), parse_unsigned(secs.subrange(j1, secs.len() as int), u32::MAX as nat)) {
        (Some(m), Some(s)) => Some(m > 0 || s > 15),
        _ => None,
    }
}

/// Tells whether an empty net cell can be cut where reading it needs.
pub fn empty_net_cell_is_cuttable(cell: &str) -> (b: bool)
    ensures
        b == empty_net_cell_cuttable(cell@),
{
    let v = chars_of(cell);
    let (a, bnd) = trim_bounds(&v);
    let t = sub_vec(&v, a, bnd);
    match chars_for_bytes(&t, 2) {
        Some(j) => {
            proof {
                lemma_chars_in_bytes_bound(t@, 2);
            }
            let secs = sub_vec(&t, j, t.len());
            chars_for_bytes(&secs, 1).is_some()
        },
        None => false,
    }
}

/// Reads the time left when the goalie was pulled; `Some(true)` when it was more than a
/// minute or more than fifteen seconds.
pub fn goalie_pulled(cell: &str) -> (r: Option<bool>)
    requires
        empty_net_cell_cuttable(cell@),
    ensures
        r == goalie_pulled_reading(cell@),
{
    let v = chars_of(cell);
    let (a, bnd) = trim_bounds(&v);
    let t = sub_vec(&v, a, bnd);
    let j = chars_for_bytes(&t, 2).unwrap();
    proof {
        lemma_chars_in_bytes_bound(t@, 2);
    }
    let secs = sub_vec(&t, j, t.len());
    let j1 = chars_for_bytes(&secs, 1).unwrap();
    proof {
        lemma_chars_in_bytes_bound(secs@, 1);
    }
    let m = parse_unsigned_range(&t, 0, j, u32::MAX as u64);
    let s = parse_unsigned_range(&secs, j1, secs.len(), u32::MAX as u64);
    match (m, s) {
        (Some(m), Some(s)) => Some(m > 0 || s > 15),
        _ => None,
    }
}

/// An empty net cell `mm:ss` that gives the minutes `m` and the seconds `s` of the time
/// left tells that the goalie was pulled exactly when more than a minute (`m > 0`) or more
/// than fifteen seconds (`s > 15`) were left; any such cell can be cut and read.
pub proof fn lemma_goalie_pulled_by_time(m: nat, s: nat)
    requires
        m <= 99,
        s <= 99,
    ensures
        empty_net_cell_cuttable(two_digit_chars(m) + seq![':'] + two_digit_chars(s)),
        goalie_pulled_reading(two_digit_chars(m) + seq![':'] + two_digit_chars(s)) == Some(m > 0 || s > 15),
{
    let a = two_digit_chars(m);
    let b = two_digit_chars(s);
    let cell = a + seq![':'] + b;
    lemma_two_digits_read(m, u32::MAX as nat);
    lemma_two_digits_read(s, u32::MAX as nat);
    lemma_decimal_len(m);
    lemma_decimal_len(s);
    assert(a.len() == 2 && b.len() == 2);
    assert(is_digit(a[0]) && is_digit(b[1]));
    assert(cell[0] == a[0]);
    assert(cell[cell.len() - 1] == b[1]);
    assert(trim_start(cell, 0) == 0);
    assert(trim_end(cell, 0, cell.len() as int) == cell.len());
    assert(trimmed(cell) =~= cell);
    assert forall|i: int| 0 <= i < 2 implies (cell[i] as u32) < 128 by {
        assert(cell[i] == a[i]);
        assert(is_digit(a[i]));
    }
    lemma_ascii_prefix_bytes(cell, 2);
    let secs = cell.subrange(2, cell.len() as int);
    assert(secs[0] == ':');
    lemma_ascii_prefix_bytes(secs, 1);
    assert(cell.subrange(0, 2) =~= a);
    assert(secs.subrange(1, secs.len() as int) =~= b);
}

/// A shot summary table whose non-empty lines make `r >= 2` whole rows of five has `r - 2`
/// periods, one for every row between the header row and the totals row (overtime periods
/// included), each the fifth line of its row, trimmed.
pub proof fn lemma_period_cells_of_rows(text: Seq<char>)
    requires
        nonempty_lines(lines(text)).len() % 5 == 0,
        nonempty_lines(lines(text)).len() >= 10,
    ensures
        period_cells(text).len() == nonempty_lines(lines(text)).len() / 5 - 2,
        forall|c: int|
            0 <= c < period_cells(text).len() ==> #[trigger] period_cells(text)[c] == trimmed(
                nonempty_lines(lines(text))[5 * (c + 1) + 4],
            ),
{
}

/// Reads a count, such as give-aways, written as an unsigned number.
pub fn parse_count(s: &str) -> (r: Option<usize>)
    ensures
        match parse_unsigned(s@, usize::MAX as nat) {
            Some(v) => r == Some(v as usize),
            None => r is None,
        },
{
    let v = chars_of(s);
    assert(v@.subrange(0, v@.len() as int) =~= v@);
    match parse_unsigned_range(&v, 0, v.len(), usize::MAX as u64) {
        Some(x) => Some(x as usize),
        None => None,
    }
}

/// The class of the rows of the event summary that hold totals.
pub const BOLD: &'static str = "bold";
/// A table row.
pub const ROW: &'static str = "tr";
/// A table cell.
pub const CELL: &'static str = "td";
/// A table.
pub const TABLE: &'static str = "table";
/// The attribute that names an element.
pub const ID: &'static str = "id";
/// What marks a team's totals row in the event summary.
pub const TEAM_TOTALS: &'static str = "TEAM TOTALS";
/// What marks an empty net in the game summary.
pub const EMPTY_NET: &'static str = "EMPTY NET";
/// The element of the game summary that holds the penalty summary.
pub const PENALTY_SUMMARY: &'static str = "PenaltySummary";
/// The element of the shot summary that holds the shots.
pub const SHOTS_SUMMARY: &'static str = "ShotsSummary";
/// Where the give-aways stand in a team totals row.
pub const GIVE_AWAY_CELL: usize = 17;
/// Where the take-aways stand in a team totals row.
pub const TAKE_AWAY_CELL: usize = 18;
/// Where the face-off percentage stands in a team totals row.
pub const FACE_OFF_CELL: usize = 22;
/// Which table of the game summary holds the goaltender summary.
pub const GOALTENDER_TABLE: usize = 41;
/// Tables after this one of the game summary may tell of an empty net.
pub const LAST_TABLE_BEFORE_GOALIES: usize = 31;
/// Which table of the shot summary holds the away team's shots.
pub const AWAY_SHOTS_TABLE: usize = 3;
/// Which table of the shot summary holds the home team's shots.
pub const HOME_SHOTS_TABLE: usize = 8;

/// The places of the elements whose text marks a team's totals, in order.
pub open spec fn team_total_places(es: Seq<(Seq<char>, Seq<Seq<char>>)>) -> Seq<int>
    decreases es.len(),
{
    if es.len() == 0 {
        Seq::empty()
    } else {
        let rest = team_total_places(es.drop_last());
        if find_seq(es.last().0, TEAM_TOTALS@, 0) is Some {
            rest.push(es.len() - 1)
        } else {
            rest
        }
    }
}

/// Cell `i` of the totals row of team `team` (0 away, 1 home), when there is one.
pub open spec fn total_cell(es: Seq<(Seq<char>, Seq<Seq<char>>)>, team: int, i: int) -> Option<Seq<char>> {
    let places = team_total_places(es);
    if team < places.len() && i < es[places[team]].1.len() {
        Some(es[places[team]].1[i])
    } else {
        None
    }
}

/// The count in cell `i` of the totals row of team `team`, when there is such a cell.
pub open spec fn total_count(es: Seq<(Seq<char>, Seq<Seq<char>>)>, team: int, i: int) -> Option<nat> {
    match total_cell(es, team, i) {
        Some(c) => parse_unsigned(c, usize::MAX as nat),
        None => None,
    }
}

/// The count cells that are there hold counts.
pub open spec fn totals_readable(es: Seq<(Seq<char>, Seq<Seq<char>>)>) -> bool {
    forall|team: int, i: int|
        0 <= team < 2 && (i == GIVE_AWAY_CELL || i == TAKE_AWAY_CELL) && #[trigger] total_cell(es, team, i) is Some
            ==> total_count(es, team, i) is Some
}

/// The rows of the event summary that `select` finds.
pub open spec fn event_rows(event_html: Seq<char>) -> Seq<(Seq<char>, Seq<Seq<char>>)> {
    html_class_elements(event_html, BOLD@, ROW@, CELL@)
}

/// A count of each team, as far as the report gives it.
pub struct TeamCounts {
    pub away: Option<usize>,
    pub home: Option<usize>,
}

/// Texts of each team, as far as the report gives them.
pub struct TeamTexts {
    pub away: Option<String>,
    pub home: Option<String>,
}

/// The counts stand for the numbers of cell `i` of both teams' totals rows.
pub open spec fn counts_match(c: TeamCounts, es: Seq<(Seq<char>, Seq<Seq<char>>)>, i: int) -> bool {
    &&& (match c.away { Some(v) => total_count(es, 0, i) == Some(v as nat), None => total_cell(es, 0, i) is None })
    &&& (match c.home { Some(v) => total_count(es, 1, i) == Some(v as nat), None => total_cell(es, 1, i) is None })
}

/// The texts are cell `i` of both teams' totals rows.
pub open spec fn texts_match(c: TeamTexts, es: Seq<(Seq<char>, Seq<Seq<char>>)>, i: int) -> bool {
    &&& (match c.away { Some(v) => total_cell(es, 0, i) == Some(v@), None => total_cell(es, 0, i) is None })
    &&& (match c.home { Some(v) => total_cell(es, 1, i) == Some(v@), None => total_cell(es, 1, i) is None })
}

fn find_team_totals(es: &Vec<ElementText>) -> (r: Vec<usize>)
    ensures
        r@.len() == team_total_places(elements_view(es@)).len(),
        forall|k: int| 0 <= k < r@.len() ==> #[trigger] r@[k] as int == team_total_places(elements_view(es@))[k],
        forall|k: int| 0 <= k < r@.len() ==> #[trigger] r@[k] < es@.len(),
{
    let ghost v = elements_view(es@);
    let marker = chars_of(TEAM_TOTALS);
    proof {
        reveal_strlit("TEAM TOTALS");
    }
    assert(marker@.len() > 0);
    let mut r: Vec<usize> = Vec::new();
    let mut i: usize = 0;
    while i < es.len()
        invariant
            i <= es@.len(),
            v == elements_view(es@),
            marker@ == TEAM_TOTALS@,
            marker@.len() > 0,
            r@.len() == team_total_places(v.subrange(0, i as int)).len(),
            forall|k: int| 0 <= k < r@.len() ==> #[trigger] r@[k] as int == team_total_places(v.subrange(0, i as int))[k],
            forall|k: int| 0 <= k < r@.len() ==> #[trigger] r@[k] < i,
        decreases es@.len() - i,
    {
        assert(v.subrange(0, i + 1).drop_last() =~= v.subrange(0, i as int));
        let text = chars_of(es[i].text.as_str());
        assert(v[i as int].0 == text@);
        if find_seq_from(&text, &marker, 0).is_some() {
            r.push(i);
        }
        i = i + 1;
    }
    assert(v.subrange(0, i as int) =~= v);
    r
}

fn count_in_cell(es: &Vec<ElementText>, places: &Vec<usize>, team: usize, i: usize) -> (r: Option<Option<usize>>)
    requires
        places@.len() == team_total_places(elements_view(es@)).len(),
        forall|k: int| 0 <= k < places@.len() ==> #[trigger] places@[k] as int == team_total_places(elements_view(es@))[k],
        forall|k: int| 0 <= k < places@.len() ==> #[trigger] places@[k] < es@.len(),
    ensures
        match r {
            Some(Some(v)) => total_count(elements_view(es@), team as int, i as int) == Some(v as nat),
            Some(None) => total_cell(elements_view(es@), team as int, i as int) is None,
            None => total_cell(elements_view(es@), team as int, i as int) is Some && total_count(elements_view(es@), team as int, i as int) is None,
        },
{
    let ghost v = elements_view(es@);
    if team >= places.len() {
        return Some(None);
    }
    let row = &es[places[team]].parts;
    assert(v[places@[team as int] as int].1 == texts_view(row@));
    if i >= row.len() {
        return Some(None);
    }
    assert(texts_view(row@)[i as int] == row@[i as int]@);
    match parse_count(row[i].as_str()) {
        Some(x) => Some(Some(x)),
        None => None,
    }
}

fn text_in_cell(es: &Vec<ElementText>, places: &Vec<usize>, team: usize, i: usize) -> (r: Option<String>)
    requires
        places@.len() == team_total_places(elements_view(es@)).len(),
        forall|k: int| 0 <= k < places@.len() ==> #[trigger] places@[k] as int == team_total_places(elements_view(es@))[k],
        forall|k: int| 0 <= k < places@.len() ==> #[trigger] places@[k] < es@.len(),
    ensures
        match r {
            Some(t) => total_cell(elements_view(es@), team as int, i as int) == Some(t@),
            None => total_cell(elements_view(es@), team as int, i as int) is None,
        },
{
    let ghost v = elements_view(es@);
    if team >= places.len() {
        return None;
    }
    let row = &es[places[team]].parts;
    assert(v[places@[team as int] as int].1 == texts_view(row@));
    if i >= row.len() {
        return None;
    }
    assert(texts_view(row@)[i as int] == row@[i as int]@);
    Some(row[i].clone())
}

/// What the event summary gives of both teams: give-aways, take-aways, and the text of the
/// face-off percentage.
pub struct EventTotals {
    pub give_aways: TeamCounts,
    pub take_aways: TeamCounts,
    pub face_offs: TeamTexts,
}

/// Reads the team totals of an event summary page; `None` when a give-away or take-away
/// cell that is there does not hold a count.
pub fn read_event_totals(event_html: &str) -> (r: Option<EventTotals>)
    ensures
        r is Some == totals_readable(event_rows(event_html@)),
        r matches Some(t) ==> {
            &&& counts_match(t.give_aways, event_rows(event_html@), GIVE_AWAY_CELL as int)
            &&& counts_match(t.take_aways, event_rows(event_html@), TAKE_AWAY_CELL as int)
            &&& texts_match(t.face_offs, event_rows(event_html@), FACE_OFF_CELL as int)
        },
{
    let es = class_elements(event_html, BOLD, ROW, CELL);
    event_totals_of_rows(&es)
}

/// Reads the team totals out of the bold rows of an event summary page, each with the texts
/// of its cells; `None` when a give-away or take-away cell that is there does not hold a count.
pub fn event_totals_of_rows(es: &Vec<ElementText>) -> (r: Option<EventTotals>)
    ensures
        r is Some == totals_readable(elements_view(es@)),
        r matches Some(t) ==> {
            &&& counts_match(t.give_aways, elements_view(es@), GIVE_AWAY_CELL as int)
            &&& counts_match(t.take_aways, elements_view(es@), TAKE_AWAY_CELL as int)
            &&& texts_match(t.face_offs, elements_view(es@), FACE_OFF_CELL as int)
        },
{
    let ghost v = elements_view(es@);
    let places = find_team_totals(&es);
    let g0 = count_in_cell(&es, &places, 0, GIVE_AWAY_CELL);
    let g1 = count_in_cell(&es, &places, 1, GIVE_AWAY_CELL);
    let t0 = count_in_cell(&es, &places, 0, TAKE_AWAY_CELL);
    let t1 = count_in_cell(&es, &places, 1, TAKE_AWAY_CELL);
    match (g0, g1, t0, t1) {
        (Some(g0), Some(g1), Some(t0), Some(t1)) => {
            let f0 = text_in_cell(&es, &places, 0, FACE_OFF_CELL);
            let f1 = text_in_cell(&es, &places, 1, FACE_OFF_CELL);
            assert forall|team: int, i: int|
                0 <= team < 2 && (i == GIVE_AWAY_CELL || i == TAKE_AWAY_CELL) && #[trigger] total_cell(v, team, i) is Some
                    implies total_count(v, team, i) is Some by {
            }
            Some(EventTotals {
                give_aways: TeamCounts { away: g0, home: g1 },
                take_aways: TeamCounts { away: t0, home: t1 },
                face_offs: TeamTexts { away: f0, home: f1 },
            })
        },
        _ => {
            proof {
                if g0 is None {
                    assert(total_cell(v, 0, GIVE_AWAY_CELL as int) is Some);
                } else if g1 is None {
                    assert(total_cell(v, 1, GIVE_AWAY_CELL as int) is Some);
                } else if t0 is None {
                    assert(total_cell(v, 0, TAKE_AWAY_CELL as int) is Some);
                } else {
                    assert(total_cell(v, 1, TAKE_AWAY_CELL as int) is Some);
                }
            }
            None
        },
    }
}

/// The tables of the game summary that `select` finds, with their rows and cells.
pub open spec fn game_tables(game_html: Seq<char>) -> Seq<(Seq<char>, Seq<(Seq<char>, Seq<Seq<char>>)>)> {
    html_nested_elements(game_html, TABLE@, ROW@, CELL@)
}

/// Table `i` of the game summary tells of empty nets: it is the goaltender table, or a later
/// table whose text mentions an empty net.
pub open spec fn tells_empty_net(text: Seq<char>, i: int) -> bool {
    i == GOALTENDER_TABLE || (i > LAST_TABLE_BEFORE_GOALIES && find_seq(text, EMPTY_NET@, 0) is Some)
}

/// The time cells of the rows that mention an empty net: the third cell of each such row
/// that has one.
pub open spec fn empty_net_row_cells(rows: Seq<(Seq<char>, Seq<Seq<char>>)>) -> Seq<Seq<char>>
    decreases rows.len(),
{
    if rows.len() == 0 {
        Seq::empty()
    } else {
        let rest = empty_net_row_cells(rows.drop_last());
        let r = rows.last();
        if find_seq(trimmed(r.0), EMPTY_NET@, 0) is Some && r.1.len() > 2 {
            rest.push(r.1[2])
        } else {
            rest
        }
    }
}

/// The empty net time cells of the first `n` tables, table by table.
pub open spec fn empty_net_cells(ts: Seq<(Seq<char>, Seq<(Seq<char>, Seq<Seq<char>>)>)>, n: int) -> Seq<Seq<char>>
    decreases n,
{
    if n <= 0 || n > ts.len() {
        Seq::empty()
    } else {
        let rest = empty_net_cells(ts, n - 1);
        if tells_empty_net(ts[n - 1].0, n - 1) {
            rest + empty_net_row_cells(ts[n - 1].1)
        } else {
            rest
        }
    }
}

/// The empty net time cells of a game summary page.
pub open spec fn game_empty_net_cells(game_html: Seq<char>) -> Seq<Seq<char>> {
    empty_net_cells(game_tables(game_html), game_tables(game_html).len() as int)
}

/// Some cell tells that the goalie was pulled early.
pub open spec fn any_pulled(cells: Seq<Seq<char>>) -> bool {
    exists|k: int| 0 <= k < cells.len() && #[trigger] goalie_pulled_reading(cells[k]) == Some(true)
}

/// The cells whose time could not be read, in order.
pub open spec fn unread_cells(cells: Seq<Seq<char>>) -> Seq<Seq<char>>
    decreases cells.len(),
{
    if cells.len() == 0 {
        Seq::empty()
    } else {
        let rest = unread_cells(cells.drop_last());
        if goalie_pulled_reading(cells.last()) is None {
            rest.push(cells.last())
        } else {
            rest
        }
    }
}

fn push_empty_net_row_cells(rows: &Vec<ElementText>, out: &mut Vec<String>)
    ensures
        texts_view(final(out)@) == texts_view(old(out)@) + empty_net_row_cells(elements_view(rows@)),
{
    let ghost v = elements_view(rows@);
    let ghost base = texts_view(out@);
    let marker = chars_of(EMPTY_NET);
    proof {
        reveal_strlit("EMPTY NET");
    }
    assert(marker@.len() > 0);
    let mut i: usize = 0;
    while i < rows.len()
        invariant
            i <= rows@.len(),
            v == elements_view(rows@),
            marker@ == EMPTY_NET@,
            marker@.len() > 0,
            texts_view(out@) == base + empty_net_row_cells(v.subrange(0, i as int)),
        decreases rows@.len() - i,
    {
        assert(v.subrange(0, i + 1).drop_last() =~= v.subrange(0, i as int));
        let row = &rows[i];
        assert(v[i as int] == element_view(*row));
        let text = chars_of(row.text.as_str());
        let (a, b) = trim_bounds(&text);
        let t = sub_vec(&text, a, b);
        if find_seq_from(&t, &marker, 0).is_some() && row.parts.len() > 2 {
            assert(texts_view(row.parts@)[2] == row.parts@[2]@);
            let ghost before = texts_view(out@);
            out.push(row.parts[2].clone());
            assert(texts_view(out@) =~= before.push(row.parts@[2]@));
        }
        i = i + 1;
    }
    assert(v.subrange(0, i as int) =~= v);
}

/// What the game summary tells of empty nets.
pub struct EmptyNet {
    /// Some goalie was pulled with more than a minute or fifteen seconds left.
    pub pulled: bool,
    /// The time cells that could not be read.
    pub unread: Vec<String>,
}

/// Reads the empty net times of a game summary page; `None` when a time cell cannot be cut
/// where reading it needs.
pub fn read_empty_net(game_html: &str) -> (r: Option<EmptyNet>)
    ensures
        r is Some == (forall|k: int| 0 <= k < game_empty_net_cells(game_html@).len() ==> empty_net_cell_cuttable(#[trigger] game_empty_net_cells(game_html@)[k])),
        r matches Some(e) ==> e.pulled == any_pulled(game_empty_net_cells(game_html@)) && texts_view(e.unread@) == unread_cells(game_empty_net_cells(game_html@)),
{
    let ts = nested_elements(game_html, TABLE, ROW, CELL);
    empty_net_of_tables(&ts)
}

/// Reads the empty net times out of the tables of a game summary page, each with its rows
/// and their cells; `None` when a time cell cannot be cut where reading it needs.
pub fn empty_net_of_tables(ts: &Vec<ElementRows>) -> (r: Option<EmptyNet>)
    ensures
        ({
            let cells = empty_net_cells(nested_view(ts@), ts@.len() as int);
            &&& r is Some == (forall|k: int| 0 <= k < cells.len() ==> empty_net_cell_cuttable(#[trigger] cells[k]))
            &&& r matches Some(e) ==> e.pulled == any_pulled(cells) && texts_view(e.unread@) == unread_cells(cells)
        }),
{
    let ghost v = nested_view(ts@);
    let marker = chars_of(EMPTY_NET);
    proof {
        reveal_strlit("EMPTY NET");
    }
    assert(marker@.len() > 0);
    let mut cells: Vec<String> = Vec::new();
    let mut i: usize = 0;
    while i < ts.len()
        invariant
            i <= ts@.len(),
            v == nested_view(ts@),
            marker@ == EMPTY_NET@,
            marker@.len() > 0,
            texts_view(cells@) == empty_net_cells(v, i as int),
        decreases ts@.len() - i,
    {
        let table = &ts[i];
        assert(v[i as int] == (table.text@, elements_view(table.rows@)));
        let tells = if i == GOALTENDER_TABLE {
            true
        } else if i > LAST_TABLE_BEFORE_GOALIES {
            let text = chars_of(table.text.as_str());
            find_seq_from(&text, &marker, 0).is_some()
        } else {
            false
        };
        if tells {
            push_empty_net_row_cells(&table.rows, &mut cells);
        }
        i = i + 1;
    }
    let ghost all = texts_view(cells@);
    assert(all == empty_net_cells(v, ts@.len() as int));
    let mut pulled = false;
    let mut unread: Vec<String> = Vec::new();
    let mut k: usize = 0;
    while k < cells.len()
        invariant
            k <= cells@.len(),
            all == texts_view(cells@),
            all == empty_net_cells(nested_view(ts@), ts@.len() as int),
            forall|j: int| 0 <= j < k ==> empty_net_cell_cuttable(#[trigger] all[j]),
            pulled == exists|j: int| 0 <= j < k && #[trigger] goalie_pulled_reading(all[j]) == Some(true),
            texts_view(unread@) == unread_cells(all.subrange(0, k as int)),
        decreases cells@.len() - k,
    {
        assert(all[k as int] == cells@[k as int]@);
        assert(all.subrange(0, k + 1).drop_last() =~= all.subrange(0, k as int));
        if !empty_net_cell_is_cuttable(cells[k].as_str()) {
            assert(!empty_net_cell_cuttable(all[k as int]));
            return None;
        }
        match goalie_pulled(cells[k].as_str()) {
            Some(true) => {
                pulled = true;
            },
            Some(false) => {},
            None => {
                let ghost before = texts_view(unread@);
                unread.push(cells[k].clone());
                assert(texts_view(unread@) =~= before.push(all[k as int]));
            },
        }
        k = k + 1;
    }
    assert(all.subrange(0, k as int) =~= all);
    Some(EmptyNet { pulled, unread })
}

/// The power play lines that the penalty summary texts `texts` give.
pub open spec fn texts_power_play_lines(texts: Seq<Seq<char>>) -> Seq<Seq<char>> {
    let items = penalty_summary_items(texts);
    after_indicators(items, items.len() as int)
}

/// The power plays of the penalty summary texts `texts` can be read: every indicator has a
/// line after it, and the first two lines read.
pub open spec fn texts_power_plays_readable(texts: Seq<Seq<char>>) -> bool {
    let lines = texts_power_play_lines(texts);
    &&& indicators_followed(penalty_summary_items(texts))
    &&& lines.len() >= 2
    &&& power_play_line(lines[0]) is Some
    &&& power_play_line(lines[1]) is Some
}

/// The power play lines of a game summary page.
pub open spec fn game_power_play_lines(game_html: Seq<char>) -> Seq<Seq<char>> {
    texts_power_play_lines(html_attr_texts(game_html, ID@, PENALTY_SUMMARY@))
}

/// The power plays of a game summary page can be read.
pub open spec fn power_plays_readable(game_html: Seq<char>) -> bool {
    texts_power_plays_readable(html_attr_texts(game_html, ID@, PENALTY_SUMMARY@))
}

/// Reads the power plays of both teams from a game summary page.
pub fn read_power_plays(game_html: &str) -> (r: Option<(PowerPlay, PowerPlay)>)
    ensures
        r is Some == power_plays_readable(game_html@),
        r matches Some(p) ==> p.0 == power_play_line(game_power_play_lines(game_html@)[0]).unwrap()
            && p.1 == power_play_line(game_power_play_lines(game_html@)[1]).unwrap(),
{
    let texts = attr_texts(game_html, ID, PENALTY_SUMMARY);
    power_plays_of_texts(&texts)
}

/// Reads the power plays of both teams from the texts of the penalty summary elements of a
/// game summary page.
pub fn power_plays_of_texts(texts: &Vec<String>) -> (r: Option<(PowerPlay, PowerPlay)>)
    ensures
        r is Some == texts_power_plays_readable(texts_view(texts@)),
        r matches Some(p) ==> p.0 == power_play_line(texts_power_play_lines(texts_view(texts@))[0]).unwrap()
            && p.1 == power_play_line(texts_power_play_lines(texts_view(texts@))[1]).unwrap(),
{
    let summary = penalty_summary(texts);
    if !indicators_are_followed(&summary) {
        return None;
    }
    let lines = power_play_lines(&summary);
    if lines.len() < 2 {
        return None;
    }
    assert(texts_view(lines@)[0] == lines@[0]@ && texts_view(lines@)[1] == lines@[1]@);
    if read_power_play(lines[0].as_str()).is_none() || read_power_play(lines[1].as_str()).is_none() {
        return None;
    }
    let (away, home) = process_pp_summary(&lines);
    match (away, home) {
        (TeamValue::Away(a), TeamValue::Home(h)) => Some((a, h)),
        _ => None,
    }
}

/// The tables of the shot summary of a shot summary page, as texts.
pub open spec fn shot_tables(shots_html: Seq<char>) -> Option<Seq<Seq<char>>> {
    html_attr_descendant_texts(shots_html, ID@, SHOTS_SUMMARY@, TABLE@)
}

/// The shots of each period that table `t` gives; none when there is no such table.
pub open spec fn table_period_shots(tables: Seq<Seq<char>>, t: int) -> Seq<nat> {
    if 0 <= t < tables.len() {
        Seq::new(period_cells(tables[t]).len(), |c: int| shots_in_cell(period_cells(tables[t])[c]).unwrap())
    } else {
        Seq::empty()
    }
}

/// The team tables of a shot summary can be read.
pub open spec fn tables_shots_readable(tables: Seq<Seq<char>>) -> bool {
    &&& (AWAY_SHOTS_TABLE < tables.len() ==> shot_table_readable(tables[AWAY_SHOTS_TABLE as int]))
    &&& (HOME_SHOTS_TABLE < tables.len() ==> shot_table_readable(tables[HOME_SHOTS_TABLE as int]))
}

/// The shots of each period that the tables of a shot summary give, away and home, as far
/// as both teams have them.
pub open spec fn tables_shots_per_period(tables: Seq<Seq<char>>) -> Seq<(nat, nat)> {
    let away = table_period_shots(tables, AWAY_SHOTS_TABLE as int);
    let home = table_period_shots(tables, HOME_SHOTS_TABLE as int);
    let n = if away.len() < home.len() { away.len() } else { home.len() };
    Seq::new(n, |c: int| (away[c], home[c]))
}

/// The shot summary page has a shot summary, and its team tables can be read.
pub open spec fn shots_readable(shots_html: Seq<char>) -> bool {
    match shot_tables(shots_html) {
        None => false,
        Some(tables) => tables_shots_readable(tables),
    }
}

/// The shots of each period of a shot summary page, away and home.
pub open spec fn shots_per_period(shots_html: Seq<char>) -> Seq<(nat, nat)> {
    tables_shots_per_period(shot_tables(shots_html).unwrap())
}

fn table_shots(tables: &Vec<String>, t: usize) -> (r: Option<Vec<usize>>)
    ensures
        r is Some == (t < tables@.len() ==> shot_table_readable(tables@[t as int]@)),
        r matches Some(v) ==> v@.len() == table_period_shots(texts_view(tables@), t as int).len() && forall|c: int|
            0 <= c < v@.len() ==> #[trigger] v@[c] == table_period_shots(texts_view(tables@), t as int)[c],
{
    if t >= tables.len() {
        return Some(Vec::new());
    }
    assert(texts_view(tables@)[t as int] == tables@[t as int]@);
    read_period_shots(tables[t].as_str())
}

/// Reads the shots of each period from a shot summary page.
pub fn read_shots(shots_html: &str) -> (r: Option<Vec<(usize, usize)>>)
    ensures
        r is Some == shots_readable(shots_html@),
        r matches Some(v) ==> v@.len() == shots_per_period(shots_html@).len() && forall|c: int|
            0 <= c < v@.len() ==> (#[trigger] v@[c]).0 == shots_per_period(shots_html@)[c].0 && v@[c].1
                == shots_per_period(shots_html@)[c].1,
{
    match attr_descendant_texts(shots_html, ID, SHOTS_SUMMARY, TABLE) {
        Some(tables) => shots_of_tables(&tables),
        None => None,
    }
}

/// Reads the shots of each period from the texts of the tables of a shot summary.
pub fn shots_of_tables(tables: &Vec<String>) -> (r: Option<Vec<(usize, usize)>>)
    ensures
        r is Some == tables_shots_readable(texts_view(tables@)),
        r matches Some(v) ==> v@.len() == tables_shots_per_period(texts_view(tables@)).len() && forall|c: int|
            0 <= c < v@.len() ==> (#[trigger] v@[c]).0 == tables_shots_per_period(texts_view(tables@))[c].0
                && v@[c].1 == tables_shots_per_period(texts_view(tables@))[c].1,
{
    assert(AWAY_SHOTS_TABLE < tables@.len() ==> texts_view(tables@)[AWAY_SHOTS_TABLE as int] == tables@[AWAY_SHOTS_TABLE as int]@);
    assert(HOME_SHOTS_TABLE < tables@.len() ==> texts_view(tables@)[HOME_SHOTS_TABLE as int] == tables@[HOME_SHOTS_TABLE as int]@);
    let away = match table_shots(tables, AWAY_SHOTS_TABLE) {
        Some(a) => a,
        None => return None,
    };
    let home = match table_shots(tables, HOME_SHOTS_TABLE) {
        Some(h) => h,
        None => return None,
    };
    let n = if away.len() < home.len() {
        away.len()
    } else {
        home.len()
    };
    let ghost spec_shots = tables_shots_per_period(texts_view(tables@));
    let mut r: Vec<(usize, usize)> = Vec::new();
    let mut c: usize = 0;
    while c < n
        invariant
            c <= n,
            n <= away@.len(),
            n <= home@.len(),
            n == spec_shots.len(),
            spec_shots == tables_shots_per_period(texts_view(tables@)),
            away@.len() == table_period_shots(texts_view(tables@), AWAY_SHOTS_TABLE as int).len(),
            home@.len() == table_period_shots(texts_view(tables@), HOME_SHOTS_TABLE as int).len(),
            forall|j: int| 0 <= j < away@.len() ==> #[trigger] away@[j] == table_period_shots(texts_view(tables@), AWAY_SHOTS_TABLE as int)[j],
            forall|j: int| 0 <= j < home@.len() ==> #[trigger] home@[j] == table_period_shots(texts_view(tables@), HOME_SHOTS_TABLE as int)[j],
            r@.len() == c,
            forall|j: int| 0 <= j < c ==> (#[trigger] r@[j]).0 == spec_shots[j].0 && r@[j].1 == spec_shots[j].1,
        decreases n - c,
    {
        r.push((away[c], home[c]));
        c = c + 1;
    }
    Some(r)
}

/// Which table of the game summary holds the goal summary.
pub const GOAL_TABLE: usize = 9;
/// The period name of a shootout.
pub const SHOOTOUT: &'static str = "SO";
/// What the goal number cell holds for an unsuccessful penalty shot.
pub const NO_GOAL_NUMBER: &'static str = "-";

/// When a goal was scored: in a shootout, or at a time of its period.
#[derive(Debug, Clone, Copy, PartialEq, Eq, Structural)]
pub enum GoalTime {
    Shootout,
    At { minutes: u16, seconds: u16 },
}

/// A row of the goal summary, read cell by cell; a cell the row lacks gives `None`.
pub struct GoalRow {
    /// The goal's number; 0 for an unsuccessful penalty shot.
    pub number: Option<u8>,
    pub period: Option<String>,
    pub time: Option<GoalTime>,
    pub strength: Option<String>,
    pub team: Option<String>,
    pub player: Option<String>,
}

/// Cell `k` of a row, trimmed, when the row has it.
pub open spec fn row_cell(cells: Seq<Seq<char>>, k: int) -> Option<Seq<char>> {
    if 0 <= k < cells.len() {
        Some(trimmed(cells[k]))
    } else {
        None
    }
}

/// The period of a row: its second cell, trimmed, or nothing when it has none.
pub open spec fn row_period(cells: Seq<Seq<char>>) -> Seq<char> {
    match row_cell(cells, 1) {
        Some(p) => p,
        None => Seq::empty(),
    }
}

/// The goal number a cell gives: 0 for `-`, otherwise the cell read as a `u8`.
pub open spec fn goal_number_reading(t: Seq<char>) -> Option<u8> {
    if t == NO_GOAL_NUMBER@ {
        Some(0)
    } else {
        match parse_unsigned(t, u8::MAX as nat) {
            Some(n) => Some(n as u8),
            None => None,
        }
    }
}

/// The minutes and seconds a time cell `mm:ss` gives: its first two pieces split at `:`,
/// each read as a `u16`.
pub open spec fn goal_time_reading(t: Seq<char>) -> Option<(u16, u16)> {
    let parts = split_char(t, ':');
    if parts.len() >= 2 {
        match (parse_unsigned(parts[0], u16::MAX as nat), parse_unsigned(parts[1], u16::MAX as nat)) {
            (Some(m), Some(sec)) => Some((m as u16, sec as u16)),
            _ => None,
        }
    } else {
        None
    }
}

/// A goal row can be read: its number cell is `-` or a number, and its time cell, outside a
/// shootout, is a time.
pub open spec fn goal_row_readable(cells: Seq<Seq<char>>) -> bool {
    &&& (row_cell(cells, 0) matches Some(t) ==> goal_number_reading(t) is Some)
    &&& (row_cell(cells, 2) matches Some(t) ==> row_period(cells) == SHOOTOUT@ || goal_time_reading(t) is Some)
}

/// The view of an optional text.
pub open spec fn opt_text(o: Option<String>) -> Option<Seq<char>> {
    match o {
        Some(s) => Some(s@),
        None => None,
    }
}

/// `g` holds what the goal row `cells` gives.
pub open spec fn goal_row_of(g: GoalRow, cells: Seq<Seq<char>>) -> bool {
    &&& g.number == match row_cell(cells, 0) {
        Some(t) => goal_number_reading(t),
        None => None,
    }
    &&& opt_text(g.period) == row_cell(cells, 1)
    &&& g.time == match row_cell(cells, 2) {
        None => None,
        Some(t) => if row_period(cells) == SHOOTOUT@ {
            Some(GoalTime::Shootout)
        } else {
            Some(GoalTime::At { minutes: goal_time_reading(t).unwrap().0, seconds: goal_time_reading(t).unwrap().1 })
        },
    }
    &&& opt_text(g.strength) == row_cell(cells, 3)
    &&& opt_text(g.team) == row_cell(cells, 4)
    &&& opt_text(g.player) == row_cell(cells, 5)
}

/// The goal rows of the game summary tables: the cells of each row of the goal table after
/// its header row; none when there is no goal table.
pub open spec fn goal_rows(ts: Seq<(Seq<char>, Seq<(Seq<char>, Seq<Seq<char>>)>)>) -> Seq<Seq<Seq<char>>> {
    if GOAL_TABLE < ts.len() && ts[GOAL_TABLE as int].1.len() > 0 {
        ts[GOAL_TABLE as int].1.drop_first().map_values(|r: (Seq<char>, Seq<Seq<char>>)| r.1)
    } else {
        Seq::empty()
    }
}

/// The goal rows of a game summary page.
pub open spec fn game_goal_rows(game_html: Seq<char>) -> Seq<Seq<Seq<char>>> {
    goal_rows(game_tables(game_html))
}

fn trimmed_cell(cells: &Vec<String>, k: usize) -> (r: Option<Vec<char>>)
    ensures
        match r {
            Some(v) => row_cell(texts_view(cells@), k as int) == Some(v@),
            None => row_cell(texts_view(cells@), k as int) is None,
        },
{
    if k >= cells.len() {
        return None;
    }
    assert(texts_view(cells@)[k as int] == cells@[k as int]@);
    let v = chars_of(cells[k].as_str());
    let (a, b) = trim_bounds(&v);
    Some(sub_vec(&v, a, b))
}

fn cell_string(c: &Option<Vec<char>>) -> (r: Option<String>)
    ensures
        opt_text(r) == match c {
            Some(v) => Some(v@),
            None => None::<Seq<char>>,
        },
{
    match c {
        Some(v) => {
            let s = string_of(v, 0, v.len());
            assert(s@ =~= v@);
            Some(s)
        },
        None => None,
    }
}

fn read_goal_number(t: &Vec<char>) -> (r: Option<u8>)
    ensures
        r == goal_number_reading(t@),
{
    let dash = chars_of(NO_GOAL_NUMBER);
    if same_chars(t, &dash) {
        return Some(0);
    }
    assert(t@.subrange(0, t@.len() as int) =~= t@);
    match parse_unsigned_range(t, 0, t.len(), u8::MAX as u64) {
        Some(n) => Some(n as u8),
        None => None,
    }
}

fn read_goal_time(t: &Vec<char>) -> (r: Option<(u16, u16)>)
    ensures
        r == goal_time_reading(t@),
{
    let parts = split_list(t, ':');
    if parts.len() < 2 {
        return None;
    }
    let p0 = &parts[0];
    let p1 = &parts[1];
    assert(char_views(parts@)[0] == p0@ && char_views(parts@)[1] == p1@);
    assert(p0@.subrange(0, p0@.len() as int) =~= p0@);
    assert(p1@.subrange(0, p1@.len() as int) =~= p1@);
    match (parse_unsigned_range(p0, 0, p0.len(), u16::MAX as u64), parse_unsigned_range(p1, 0, p1.len(), u16::MAX as u64)) {
        (Some(m), Some(sec)) => Some((m as u16, sec as u16)),
        _ => None,
    }
}

/// Reads a row of the goal summary from the texts of its cells.
pub fn read_goal_row(cells: &Vec<String>) -> (r: Option<GoalRow>)
    ensures
        r is Some == goal_row_readable(texts_view(cells@)),
        r matches Some(g) ==> goal_row_of(g, texts_view(cells@)),
{
    let ghost cv = texts_view(cells@);
    let c0 = trimmed_cell(cells, 0);
    let c1 = trimmed_cell(cells, 1);
    let c2 = trimmed_cell(cells, 2);
    let number = match &c0 {
        Some(t) => match read_goal_number(t) {
            Some(n) => Some(n),
            None => return None,
        },
        None => None,
    };
    let so = chars_of(SHOOTOUT);
    proof {
        reveal_strlit("SO");
    }
    let shootout = match &c1 {
        Some(p) => same_chars(p, &so),
        None => so.len() == 0,
    };
    assert(shootout == (row_period(cv) == SHOOTOUT@)) by {
        if c1 is None {
            assert(row_period(cv) =~= Seq::<char>::empty());
        }
    }
    let time = match &c2 {
        Some(t) => if shootout {
            Some(GoalTime::Shootout)
        } else {
            match read_goal_time(t) {
                Some((m, sec)) => Some(GoalTime::At { minutes: m, seconds: sec }),
                None => return None,
            }
        },
        None => None,
    };
    let c3 = trimmed_cell(cells, 3);
    let c4 = trimmed_cell(cells, 4);
    let c5 = trimmed_cell(cells, 5);
    Some(GoalRow {
        number,
        period: cell_string(&c1),
        time,
        strength: cell_string(&c3),
        team: cell_string(&c4),
        player: cell_string(&c5),
    })
}

/// Reads the goal summary rows out of the tables of a game summary page, each with its rows
/// and their cells; `None` when a row cannot be read.
pub fn goal_rows_of_tables(ts: &Vec<ElementRows>) -> (r: Option<Vec<GoalRow>>)
    ensures
        ({
            let rows = goal_rows(nested_view(ts@));
            &&& r is Some == (forall|k: int| 0 <= k < rows.len() ==> goal_row_readable(#[trigger] rows[k]))
            &&& r matches Some(v) ==> v@.len() == rows.len() && forall|k: int| 0 <= k < rows.len() ==> goal_row_of(#[trigger] v@[k], rows[k])
        }),
{
    let ghost rows = goal_rows(nested_view(ts@));
    let mut out: Vec<GoalRow> = Vec::new();
    if ts.len() <= GOAL_TABLE {
        return Some(out);
    }
    let table = &ts[GOAL_TABLE];
    let ghost tv = nested_view(ts@)[GOAL_TABLE as int].1;
    assert(tv == elements_view(table.rows@));
    if table.rows.len() == 0 {
        return Some(out);
    }
    let mut i: usize = 1;
    while i < table.rows.len()
        invariant
            1 <= i <= table.rows@.len(),
            tv == elements_view(table.rows@),
            tv.len() > 0,
            rows == tv.drop_first().map_values(|r: (Seq<char>, Seq<Seq<char>>)| r.1),
            rows == goal_rows(nested_view(ts@)),
            out@.len() == i - 1,
            forall|k: int| 0 <= k < i - 1 ==> goal_row_readable(#[trigger] rows[k]) && goal_row_of(out@[k], rows[k]),
        decreases table.rows@.len() - i,
    {
        let cells = &table.rows[i].parts;
        assert(rows[i - 1] == texts_view(cells@));
        match read_goal_row(cells) {
            Some(g) => {
                out.push(g);
            },
            None => {
                assert(!goal_row_readable(rows[i - 1]));
                return None;
            },
        }
        i = i + 1;
    }
    Some(out)
}

/// Reads the goal summary rows of a game summary page; `None` when a row cannot be read.
pub fn read_goal_rows(game_html: &str) -> (r: Option<Vec<GoalRow>>)
    ensures
        r is Some == (forall|k: int| 0 <= k < game_goal_rows(game_html@).len() ==> goal_row_readable(#[trigger] game_goal_rows(game_html@)[k])),
        r matches Some(v) ==> v@.len() == game_goal_rows(game_html@).len() && forall|k: int|
            0 <= k < v@.len() ==> goal_row_of(#[trigger] v@[k], game_goal_rows(game_html@)[k]),
{
    let ts = nested_elements(game_html, TABLE, ROW, CELL);
    assert(nested_view(ts@) == game_tables(game_html@));
    let r = goal_rows_of_tables(&ts);
    assert(game_goal_rows(game_html@) == goal_rows(nested_view(ts@)));
    r
}

/// The statistics of a game that its reports give.
pub struct GameStats {
    pub give_aways: TeamCounts,
    pub take_aways: TeamCounts,
    /// The face-off percentage cells of both teams, as text.
    pub face_offs: TeamTexts,
    /// The rows of the goal summary.
    pub goals: Vec<GoalRow>,
    pub goalie_pulled: bool,
    /// The empty net time cells that could not be read.
    pub unread_empty_net_times: Vec<String>,
    pub power_plays: (PowerPlay, PowerPlay),
    /// The shots of each period, away then home.
    pub shots: Vec<(usize, usize)>,
}

/// The reports of a game can be read: the give-aways and take-aways are counts, the goal
/// rows read, the empty net times can be cut, the power plays read, and the shot summary is
/// there and reads.
pub open spec fn game_reports_readable(game_html: Seq<char>, event_html: Seq<char>, shots_html: Seq<char>) -> bool {
    &&& totals_readable(event_rows(event_html))
    &&& forall|k: int| 0 <= k < game_goal_rows(game_html).len() ==> goal_row_readable(#[trigger] game_goal_rows(game_html)[k])
    &&& forall|k: int| 0 <= k < game_empty_net_cells(game_html).len() ==> empty_net_cell_cuttable(#[trigger] game_empty_net_cells(game_html)[k])
    &&& power_plays_readable(game_html)
    &&& shots_readable(shots_html)
}

/// `st` holds what the reports of a game give.
pub open spec fn stats_of(st: GameStats, game_html: Seq<char>, event_html: Seq<char>, shots_html: Seq<char>) -> bool {
    let lines = game_power_play_lines(game_html);
    let cells = game_empty_net_cells(game_html);
    let shots = shots_per_period(shots_html);
    &&& counts_match(st.give_aways, event_rows(event_html), GIVE_AWAY_CELL as int)
    &&& counts_match(st.take_aways, event_rows(event_html), TAKE_AWAY_CELL as int)
    &&& texts_match(st.face_offs, event_rows(event_html), FACE_OFF_CELL as int)
    &&& st.goals@.len() == game_goal_rows(game_html).len()
    &&& forall|k: int| 0 <= k < st.goals@.len() ==> goal_row_of(#[trigger] st.goals@[k], game_goal_rows(game_html)[k])
    &&& st.goalie_pulled == any_pulled(cells)
    &&& texts_view(st.unread_empty_net_times@) == unread_cells(cells)
    &&& st.power_plays.0 == power_play_line(lines[0]).unwrap()
    &&& st.power_plays.1 == power_play_line(lines[1]).unwrap()
    &&& st.shots@.len() == shots.len()
    &&& forall|c: int| 0 <= c < shots.len() ==> (#[trigger] st.shots@[c]).0 == shots[c].0 && st.shots@[c].1 == shots[c].1
}

/// Reads the statistics of a game from its game summary, event summary and shot summary
/// pages; `None` when they cannot be read.
pub fn try_read_game_reports(game_html: &str, event_html: &str, shots_html: &str) -> (r: Option<GameStats>)
    ensures
        r is Some == game_reports_readable(game_html@, event_html@, shots_html@),
        r matches Some(st) ==> stats_of(st, game_html@, event_html@, shots_html@),
{
    let totals = read_event_totals(event_html);
    let tables = nested_elements(game_html, TABLE, ROW, CELL);
    assert(nested_view(tables@) == game_tables(game_html@));
    assert(game_goal_rows(game_html@) == goal_rows(nested_view(tables@)));
    assert(game_empty_net_cells(game_html@) == empty_net_cells(nested_view(tables@), tables@.len() as int));
    let goals = goal_rows_of_tables(&tables);
    let empty_net = empty_net_of_tables(&tables);
    let power_plays = read_power_plays(game_html);
    let shots = read_shots(shots_html);
    match (totals, goals, empty_net, power_plays, shots) {
        (Some(t), Some(g), Some(e), Some(p), Some(s)) => Some(GameStats {
            give_aways: t.give_aways,
            take_aways: t.take_aways,
            face_offs: t.face_offs,
            goals: g,
            goalie_pulled: e.pulled,
            unread_empty_net_times: e.unread,
            power_plays: p,
            shots: s,
        }),
        _ => None,
    }
}

} // verus!
