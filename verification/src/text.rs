//! Character-level text utilities with the semantics of the `str` methods
//! that the scraping logic relies on.

use vstd::prelude::*;

verus! {

/// A character index that stands for an optional position in a sequence.
pub open spec fn opt_index(r: Option<usize>) -> Option<int> {
    match r {
        Some(i) => Some(i as int),
        None => None,
    }
}

/// Number of bytes in the UTF-8 encoding of `s`: what `str::len` reports.
pub open spec fn utf8_len(s: Seq<char>) -> nat {
    vstd::utf8::encode_utf8(s).len()
}

/// Number of bytes in the UTF-8 encoding of the character `c`.
pub open spec fn char_utf8_len(c: char) -> nat {
    vstd::utf8::encode_scalar(c as u32).len()
}

/// Encoding a concatenation encodes each part.
pub proof fn lemma_encode_concat(a: Seq<char>, b: Seq<char>)
    ensures
        vstd::utf8::encode_utf8(a + b) == vstd::utf8::encode_utf8(a) + vstd::utf8::encode_utf8(b),
    decreases a.len(),
{
    if a.len() == 0 {
        assert(a + b =~= b);
        assert(vstd::utf8::encode_utf8(a) + vstd::utf8::encode_utf8(b) =~= vstd::utf8::encode_utf8(b));
    } else {
        assert((a + b).drop_first() =~= a.drop_first() + b);
        assert((a + b)[0] == a[0]);
        lemma_encode_concat(a.drop_first(), b);
        assert(vstd::utf8::encode_utf8(a + b) =~= vstd::utf8::encode_utf8(a) + vstd::utf8::encode_utf8(b));
    }
}

/// The encoding grows by the encoding of each character appended.
pub proof fn lemma_utf8_len_push(s: Seq<char>, c: char)
    ensures
        utf8_len(s.push(c)) == utf8_len(s) + char_utf8_len(c),
{
    assert(s.push(c) =~= s + seq![c]);
    lemma_encode_concat(s, seq![c]);
    assert(seq![c].drop_first() =~= Seq::<char>::empty());
    assert(vstd::utf8::encode_utf8(seq![c]) =~= vstd::utf8::encode_scalar(c as u32) + vstd::utf8::encode_utf8(Seq::<char>::empty()));
}

/// The number of UTF-8 bytes of a character.
pub fn char_len_utf8(c: char) -> (n: usize)
    ensures
        n == char_utf8_len(c),
        1 <= n <= 4,
{
    let v = c as u32;
    proof {
        vstd::utf8::char_is_scalar(c);
    }
    if v <= 0x7f {
        1
    } else if v <= 0x7ff {
        2
    } else if v <= 0xffff {
        3
    } else {
        4
    }
}

/// The characters of `s`, in order.
pub fn chars_of(s: &str) -> (v: Vec<char>)
    ensures
        v@ == s@,
{
    broadcast use vstd::string::group_string_axioms;
    let mut v: Vec<char> = Vec::new();
    for c in it: s.chars()
        invariant
            v@ == it.seq().take(it.index() as int),
            it.seq() == s@,
    {
        v.push(c);
    }
    v
}

/// The string made of the characters `v[from..to]`.
pub fn string_of(v: &Vec<char>, from: usize, to: usize) -> (r: String)
    requires
        from <= to <= v@.len(),
    ensures
        r@ == v@.subrange(from as int, to as int),
{
    let mut r = String::new();
    let mut i = from;
    while i < to
        invariant
            from <= i <= to <= v@.len(),
            r@ == v@.subrange(from as int, i as int),
        decreases to - i,
    {
        crate::decimal::string_push(&mut r, v[i]);
        i = i + 1;
        assert(r@ =~= v@.subrange(from as int, i as int));
    }
    r
}

/// The index of the first occurrence of `c` in `s` at or after `from`.
pub open spec fn find_char(s: Seq<char>, c: char, from: int) -> Option<int>
    decreases s.len() - from,
{
    if from < 0 || from >= s.len() {
        None
    } else if s[from] == c {
        Some(from)
    } else {
        find_char(s, c, from + 1)
    }
}

/// The index of the last occurrence of `c` in `s` before `end`.
pub open spec fn rfind_char(s: Seq<char>, c: char, end: int) -> Option<int>
    decreases end,
{
    if end <= 0 || end > s.len() {
        None
    } else if s[end - 1] == c {
        Some(end - 1)
    } else {
        rfind_char(s, c, end - 1)
    }
}

/// Looks for `c` in `v[from..]`.
pub fn find_char_from(v: &Vec<char>, c: char, from: usize) -> (r: Option<usize>)
    requires
        from <= v@.len(),
    ensures
        opt_index(r) == find_char(v@, c, from as int),
{
    let mut i = from;
    while i < v.len()
        invariant
            from <= i <= v@.len(),
            find_char(v@, c, from as int) == find_char(v@, c, i as int),
        decreases v@.len() - i,
    {
        if v[i] == c {
            return Some(i);
        }
        i = i + 1;
    }
    None
}

/// Looks for the last `c` in `v[..end]`.
pub fn rfind_char_before(v: &Vec<char>, c: char, end: usize) -> (r: Option<usize>)
    requires
        end <= v@.len(),
    ensures
        opt_index(r) == rfind_char(v@, c, end as int),
{
    let mut j = end;
    while j > 0
        invariant
            j <= end <= v@.len(),
            rfind_char(v@, c, end as int) == rfind_char(v@, c, j as int),
        decreases j,
    {
        if v[j - 1] == c {
            return Some(j - 1);
        }
        j = j - 1;
    }
    None
}

/// `p` occurs in `s` starting at index `i`.
pub open spec fn occurs_at(s: Seq<char>, p: Seq<char>, i: int) -> bool {
    0 <= i && i + p.len() <= s.len() && s.subrange(i, i + p.len()) == p
}

/// The index of the first occurrence of `p` in `s` at or after `from`.
pub open spec fn find_seq(s: Seq<char>, p: Seq<char>, from: int) -> Option<int>
    decreases s.len() + 1 - from,
{
    if from < 0 || from > s.len() || from + p.len() > s.len() {
        None
    } else if occurs_at(s, p, from) {
        Some(from)
    } else {
        find_seq(s, p, from + 1)
    }
}

/// Tells whether `p` occurs in `v` at index `i`.
pub fn matches_at(v: &Vec<char>, p: &Vec<char>, i: usize) -> (r: bool)
    ensures
        r == occurs_at(v@, p@, i as int),
{
    if i > v.len() || p.len() > v.len() - i {
        return false;
    }
    let n = v.len();
    let mut k: usize = 0;
    while k < p.len()
        invariant
            n == v@.len(),
            k <= p@.len(),
            i + p@.len() <= v@.len(),
            forall|j: int| 0 <= j < k ==> v@[i + j] == p@[j],
        decreases p@.len() - k,
    {
        assert(i + k < v@.len());
        if v[i + k] != p[k] {
            assert(v@.subrange(i as int, i + p@.len())[k as int] != p@[k as int]);
            return false;
        }
        k = k + 1;
    }
    assert(v@.subrange(i as int, i + p@.len()) =~= p@);
    true
}

/// Looks for `p` in `v[from..]`.
pub fn find_seq_from(v: &Vec<char>, p: &Vec<char>, from: usize) -> (r: Option<usize>)
    requires
        from <= v@.len(),
        p@.len() > 0,
    ensures
        opt_index(r) == find_seq(v@, p@, from as int),
{
    let mut i = from;
    while p.len() <= v.len() && i <= v.len() - p.len()
        invariant
            from <= i,
            p@.len() > 0,
            find_seq(v@, p@, from as int) == find_seq(v@, p@, i as int),
        decreases v@.len() + 1 - i,
    {
        if matches_at(v, p, i) {
            return Some(i);
        }
        i = i + 1;
    }
    None
}

/// Shifts an optional index by `k`.
pub open spec fn shift_index(o: Option<int>, k: int) -> Option<int> {
    match o {
        Some(j) => Some(j + k),
        None => None,
    }
}

/// How many leading characters of `s` take exactly `n` bytes in UTF-8; `None` when the
/// first `n` bytes do not end on a character boundary (or `s` is shorter than `n` bytes).
/// Slicing a `str` at byte `n` succeeds exactly when this is `Some`.
pub open spec fn chars_in_bytes(s: Seq<char>, n: int) -> Option<int>
    decreases s.len(),
{
    if n == 0 {
        Some(0)
    } else if n < 0 || s.len() == 0 {
        None
    } else {
        shift_index(chars_in_bytes(s.drop_first(), n - char_utf8_len(s[0])), 1)
    }
}

/// Finds how many leading characters of `v` make up its first `n` bytes.
pub fn chars_for_bytes(v: &Vec<char>, n: usize) -> (r: Option<usize>)
    ensures
        opt_index(r) == chars_in_bytes(v@, n as int),
{
    let len = v.len();
    let mut i: usize = 0;
    let mut acc: usize = 0;
    assert(v@.skip(0) =~= v@);
    while acc < n && i < len
        invariant
            len == v@.len(),
            i <= len,
            acc <= n,
            chars_in_bytes(v@, n as int) == shift_index(
                chars_in_bytes(v@.skip(i as int), n - acc),
                i as int,
            ),
        decreases len - i,
    {
        let c = v[i];
        let w = char_len_utf8(c);
        assert(v@.skip(i as int).drop_first() =~= v@.skip(i + 1));
        assert(v@.skip(i as int)[0] == c);
        if w > n - acc {
            assert(chars_in_bytes(v@.skip(i + 1), n - acc - w) == None::<int>);
            return None;
        }
        acc = acc + w;
        i = i + 1;
    }
    if acc == n {
        Some(i)
    } else {
        assert(v@.skip(i as int).len() == 0);
        None
    }
}

/// Unicode white space, as `char::is_whitespace` classifies it.
pub open spec fn is_whitespace(c: char) -> bool {
    ||| '\u{9}' <= c <= '\u{d}'
    ||| c == ' '
    ||| c == '\u{85}'
    ||| c == '\u{a0}'
    ||| c == '\u{1680}'
    ||| '\u{2000}' <= c <= '\u{200a}'
    ||| c == '\u{2028}'
    ||| c == '\u{2029}'
    ||| c == '\u{202f}'
    ||| c == '\u{205f}'
    ||| c == '\u{3000}'
}

/// Tells whether `c` is white space.
pub fn char_is_whitespace(c: char) -> (b: bool)
    ensures
        b == is_whitespace(c),
{
    ('\u{9}' <= c && c <= '\u{d}') || c == ' ' || c == '\u{85}' || c == '\u{a0}' || c
        == '\u{1680}' || ('\u{2000}' <= c && c <= '\u{200a}') || c == '\u{2028}' || c
        == '\u{2029}' || c == '\u{202f}' || c == '\u{205f}' || c == '\u{3000}'
}

/// The index of the first character at or after `i` that is not white space.
pub open spec fn trim_start(s: Seq<char>, i: int) -> int
    decreases s.len() - i,
{
    if 0 <= i < s.len() && is_whitespace(s[i]) {
        trim_start(s, i + 1)
    } else {
        i
    }
}

/// The end of `s[lo..j]` once white space at its end is removed.
pub open spec fn trim_end(s: Seq<char>, lo: int, j: int) -> int
    decreases j - lo,
{
    if lo < j && j <= s.len() && is_whitespace(s[j - 1]) {
        trim_end(s, lo, j - 1)
    } else {
        j
    }
}

/// `s` without white space at either end: what `str::trim` gives.
pub open spec fn trimmed(s: Seq<char>) -> Seq<char> {
    let a = trim_start(s, 0);
    s.subrange(a, trim_end(s, a, s.len() as int))
}

/// The bounds of `v` without white space at either end.
pub fn trim_bounds(v: &Vec<char>) -> (r: (usize, usize))
    ensures
        r.0 == trim_start(v@, 0),
        r.1 == trim_end(v@, r.0 as int, v@.len() as int),
        r.0 <= r.1 <= v@.len(),
        v@.subrange(r.0 as int, r.1 as int) == trimmed(v@),
{
    let len = v.len();
    let mut a: usize = 0;
    while a < len && char_is_whitespace(v[a])
        invariant
            a <= len == v@.len(),
            trim_start(v@, 0) == trim_start(v@, a as int),
        decreases len - a,
    {
        a = a + 1;
    }
    let mut b: usize = len;
    while b > a && char_is_whitespace(v[b - 1])
        invariant
            a <= b <= len == v@.len(),
            trim_start(v@, 0) == a,
            trim_end(v@, a as int, len as int) == trim_end(v@, a as int, b as int),
        decreases b,
    {
        b = b - 1;
    }
    (a, b)
}

/// A copy of `v[from..to]`.
pub fn sub_vec(v: &Vec<char>, from: usize, to: usize) -> (r: Vec<char>)
    requires
        from <= to <= v@.len(),
    ensures
        r@ == v@.subrange(from as int, to as int),
{
    let mut r: Vec<char> = Vec::new();
    let mut i = from;
    while i < to
        invariant
            from <= i <= to <= v@.len(),
            r@ == v@.subrange(from as int, i as int),
        decreases to - i,
    {
        r.push(v[i]);
        i = i + 1;
        assert(r@ =~= v@.subrange(from as int, i as int));
    }
    r
}

/// The views of a sequence of character vectors.
pub open spec fn char_views(r: Seq<Vec<char>>) -> Seq<Seq<char>> {
    r.map_values(|x: Vec<char>| x@)
}

/// `s` without one carriage return at its end.
pub open spec fn strip_cr(s: Seq<char>) -> Seq<char> {
    if s.len() > 0 && s.last() == '\r' {
        s.drop_last()
    } else {
        s
    }
}

/// The lines of `s[cur..]`, scanning from `i`; see `lines`.
pub open spec fn lines_from(s: Seq<char>, i: int, cur: int) -> Seq<Seq<char>>
    decreases s.len() - i,
{
    if i < 0 || i >= s.len() {
        if cur < s.len() {
            seq![s.subrange(cur, s.len() as int)]
        } else {
            Seq::empty()
        }
    } else if s[i] == '\n' {
        seq![strip_cr(s.subrange(cur, i))] + lines_from(s, i + 1, i + 1)
    } else {
        lines_from(s, i + 1, cur)
    }
}

/// The lines of `s`, as `str::lines` yields them: split after each `\n`, which is
/// removed together with a `\r` just before it; no empty line after a final `\n`.
pub open spec fn lines(s: Seq<char>) -> Seq<Seq<char>> {
    lines_from(s, 0, 0)
}

/// The lines of `v`.
pub fn line_list(v: &Vec<char>) -> (r: Vec<Vec<char>>)
    ensures
        char_views(r@) == lines(v@),
{
    let len = v.len();
    let mut r: Vec<Vec<char>> = Vec::new();
    let mut i: usize = 0;
    let mut cur: usize = 0;
    while i < len
        invariant
            cur <= i <= len == v@.len(),
            lines(v@) == char_views(r@) + lines_from(v@, i as int, cur as int),
        decreases len - i,
    {
        if v[i] == '\n' {
            let mut end = i;
            if end > cur && v[end - 1] == '\r' {
                end = end - 1;
            }
            let line = sub_vec(v, cur, end);
            assert(line@ == strip_cr(v@.subrange(cur as int, i as int))) by {
                if i > cur && v@[i - 1] == '\r' {
                    assert(v@.subrange(cur as int, i as int).drop_last() =~= v@.subrange(cur as int, i - 1));
                }
            }
            let ghost before = r@;
            r.push(line);
            assert(char_views(r@) =~= char_views(before) + seq![line@]);
            i = i + 1;
            cur = i;
        } else {
            i = i + 1;
        }
    }
    if cur < len {
        let line = sub_vec(v, cur, len);
        let ghost before = r@;
        r.push(line);
        assert(char_views(r@) =~= char_views(before) + seq![line@]);
    }
    assert(char_views(r@) =~= lines(v@));
    r
}

/// The pieces of `s[cur..]` between occurrences of `sep`, scanning from `i`; see `split_char`.
pub open spec fn split_from(s: Seq<char>, sep: char, i: int, cur: int) -> Seq<Seq<char>>
    decreases s.len() - i,
{
    if i < 0 || i >= s.len() {
        seq![s.subrange(cur, s.len() as int)]
    } else if s[i] == sep {
        seq![s.subrange(cur, i)] + split_from(s, sep, i + 1, i + 1)
    } else {
        split_from(s, sep, i + 1, cur)
    }
}

/// The pieces of `s` between occurrences of `sep`, as `str::split` with a character yields them.
pub open spec fn split_char(s: Seq<char>, sep: char) -> Seq<Seq<char>> {
    split_from(s, sep, 0, 0)
}

/// The pieces of `v` between occurrences of `sep`.
pub fn split_list(v: &Vec<char>, sep: char) -> (r: Vec<Vec<char>>)
    ensures
        char_views(r@) == split_char(v@, sep),
{
    let len = v.len();
    let mut r: Vec<Vec<char>> = Vec::new();
    let mut i: usize = 0;
    let mut cur: usize = 0;
    while i < len
        invariant
            cur <= i <= len == v@.len(),
            split_char(v@, sep) == char_views(r@) + split_from(v@, sep, i as int, cur as int),
        decreases len - i,
    {
        if v[i] == sep {
            let piece = sub_vec(v, cur, i);
            let ghost before = r@;
            r.push(piece);
            assert(char_views(r@) =~= char_views(before) + seq![piece@]);
            i = i + 1;
            cur = i;
        } else {
            i = i + 1;
        }
    }
    let piece = sub_vec(v, cur, len);
    let ghost before = r@;
    r.push(piece);
    assert(char_views(r@) =~= char_views(before) + seq![piece@]);
    assert(char_views(r@) =~= split_char(v@, sep));
    r
}

/// What `find_char` finds is an occurrence at or after where the search began.
pub proof fn lemma_find_char(s: Seq<char>, c: char, from: int)
    ensures
        find_char(s, c, from) matches Some(i) ==> from <= i < s.len() && s[i] == c,
    decreases s.len() - from,
{
    if 0 <= from < s.len() && s[from] != c {
        lemma_find_char(s, c, from + 1);
    }
}

/// What `rfind_char` finds is an occurrence before `end`; and it finds one whenever
/// `s[k] == c` for some `k < end`.
pub proof fn lemma_rfind_char(s: Seq<char>, c: char, end: int, k: int)
    requires
        end <= s.len(),
    ensures
        rfind_char(s, c, end) matches Some(j) ==> 0 <= j < end && s[j] == c && k <= j || !(0 <= k < end && s[k] == c),
        0 <= k < end && s[k] == c ==> rfind_char(s, c, end) is Some,
    decreases end,
{
    if end > 0 && s[end - 1] != c {
        lemma_rfind_char(s, c, end - 1, k);
    }
}

/// What `find_seq` finds is an occurrence at or after where the search began.
pub proof fn lemma_find_seq(s: Seq<char>, p: Seq<char>, from: int)
    ensures
        find_seq(s, p, from) matches Some(i) ==> from <= i && occurs_at(s, p, i),
    decreases s.len() + 1 - from,
{
    if 0 <= from <= s.len() && from + p.len() <= s.len() && !occurs_at(s, p, from) {
        lemma_find_seq(s, p, from + 1);
    }
}

/// A cut found by `chars_in_bytes` lies within the text.
pub proof fn lemma_chars_in_bytes_bound(s: Seq<char>, n: int)
    ensures
        chars_in_bytes(s, n) matches Some(j) ==> 0 <= j <= s.len(),
    decreases s.len(),
{
    if n != 0 && n > 0 && s.len() > 0 {
        lemma_chars_in_bytes_bound(s.drop_first(), n - char_utf8_len(s[0]));
    }
}

/// Cuts further into the bytes fall further into the characters.
pub proof fn lemma_chars_in_bytes_mono(s: Seq<char>, n: int, m: int)
    requires
        0 <= n <= m,
    ensures
        chars_in_bytes(s, n) matches Some(j) ==> (chars_in_bytes(s, m) matches Some(k) ==> j <= k),
    decreases s.len(),
{
    lemma_chars_in_bytes_bound(s, m);
    if n > 0 && s.len() > 0 {
        let w = char_utf8_len(s[0]);
        if n - w >= 0 {
            lemma_chars_in_bytes_mono(s.drop_first(), n - w, m - w);
        }
    }
}

/// A text is at least as many bytes long as it has characters.
pub proof fn lemma_utf8_len_at_least_chars(s: Seq<char>)
    ensures
        utf8_len(s) >= s.len(),
    decreases s.len(),
{
    if s.len() > 0 {
        lemma_utf8_len_at_least_chars(s.drop_last());
        assert(s.drop_last().push(s.last()) =~= s);
        lemma_utf8_len_push(s.drop_last(), s.last());
        vstd::utf8::char_is_scalar(s.last());
    }
}

/// Tells whether `s` is at least two bytes long.
pub fn at_least_two_bytes(v: &Vec<char>) -> (b: bool)
    ensures
        b == (utf8_len(v@) >= 2),
{
    proof {
        lemma_utf8_len_at_least_chars(v@);
        if v@.len() == 1 {
            assert(Seq::<char>::empty().push(v@[0]) =~= v@);
            lemma_utf8_len_push(Seq::<char>::empty(), v@[0]);
            assert(vstd::utf8::encode_utf8(Seq::<char>::empty()) =~= Seq::<u8>::empty());
        }
        if v@.len() == 0 {
            assert(vstd::utf8::encode_utf8(v@) =~= Seq::<u8>::empty());
        }
    }
    if v.len() >= 2 {
        true
    } else if v.len() == 1 {
        char_len_utf8(v[0]) >= 2
    } else {
        false
    }
}

/// Tells whether two character vectors hold the same text.
pub fn same_chars(a: &Vec<char>, b: &Vec<char>) -> (r: bool)
    ensures
        r == (a@ == b@),
{
    if a.len() != b.len() {
        return false;
    }
    let mut i: usize = 0;
    while i < a.len()
        invariant
            i <= a@.len() == b@.len(),
            forall|j: int| 0 <= j < i ==> a@[j] == b@[j],
        decreases a@.len() - i,
    {
        if a[i] != b[i] {
            return false;
        }
        i = i + 1;
    }
    assert(a@ =~= b@);
    true
}

/// `s` with the first occurrence of `from` replaced by `to`, as `str::replacen(from, to, 1)`
/// gives it; `s` itself when `from` does not occur.
pub open spec fn replace_first(s: Seq<char>, from: Seq<char>, to: Seq<char>) -> Seq<char> {
    match find_seq(s, from, 0) {
        Some(i) => s.subrange(0, i) + to + s.subrange(i + from.len(), s.len() as int),
        None => s,
    }
}

/// The first occurrence at or after `from` is at `k` when `p` occurs at `k` and nowhere between.
pub proof fn lemma_find_seq_at(s: Seq<char>, p: Seq<char>, from: int, k: int)
    requires
        0 <= from <= k,
        occurs_at(s, p, k),
        forall|i: int| from <= i < k ==> !occurs_at(s, p, i),
    ensures
        find_seq(s, p, from) == Some(k),
    decreases k - from,
{
    if from < k {
        lemma_find_seq_at(s, p, from + 1, k);
    }
}

/// The first `n` characters of `s` make up its first `n` bytes when they are all ASCII.
pub proof fn lemma_ascii_prefix_bytes(s: Seq<char>, n: int)
    requires
        0 <= n <= s.len(),
        forall|i: int| 0 <= i < n ==> (s[i] as u32) < 128,
    ensures
        chars_in_bytes(s, n) == Some(n),
    decreases n,
{
    if n > 0 {
        let t = s.drop_first();
        vstd::utf8::char_is_scalar(s[0]);
        assert(char_utf8_len(s[0]) == 1);
        assert forall|i: int| 0 <= i < n - 1 implies (t[i] as u32) < 128 by {
            assert(t[i] == s[i + 1]);
        }
        lemma_ascii_prefix_bytes(t, n - 1);
    }
}

} // verus!
