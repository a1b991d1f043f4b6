//! Character-level text primitives: whitespace, trimming, line splitting,
//! splitting at a character, whitespace tokens, ASCII case folding and
//! decimal numbers, each stated over `Seq<char>` and decided over a range of
//! a `Vec<char>`.
use vstd::prelude::*;

verus! {

/// The characters that `char::is_whitespace` accepts: those with the Unicode
/// `White_Space` property.
pub open spec fn is_ws(c: char) -> bool {
    ||| c == ' '
    ||| ('\t' <= c && c <= '\r')
    ||| c == '\u{85}'
    ||| c == '\u{a0}'
    ||| c == '\u{1680}'
    ||| ('\u{2000}' <= c && c <= '\u{200a}')
    ||| c == '\u{2028}'
    ||| c == '\u{2029}'
    ||| c == '\u{202f}'
    ||| c == '\u{205f}'
    ||| c == '\u{3000}'
}

/// Decides `is_ws`.
pub fn is_whitespace(c: char) -> (r: bool)
    ensures
        r == is_ws(c),
{
    c == ' ' || ('\t' <= c && c <= '\r') || c == '\u{85}' || c == '\u{a0}' || c == '\u{1680}'
        || ('\u{2000}' <= c && c <= '\u{200a}') || c == '\u{2028}' || c == '\u{2029}'
        || c == '\u{202f}' || c == '\u{205f}' || c == '\u{3000}'
}

/// `s` without its leading whitespace (`str::trim_start`).
pub open spec fn trim_start(s: Seq<char>) -> Seq<char>
    decreases s.len(),
{
    if s.len() > 0 && is_ws(s[0]) {
        trim_start(s.subrange(1, s.len() as int))
    } else {
        s
    }
}

/// `s` without its trailing whitespace (`str::trim_end`).
pub open spec fn trim_end(s: Seq<char>) -> Seq<char>
    decreases s.len(),
{
    if s.len() > 0 && is_ws(s[s.len() - 1]) {
        trim_end(s.subrange(0, s.len() - 1))
    } else {
        s
    }
}

/// `s` without leading and trailing whitespace (`str::trim`).
pub open spec fn trim(s: Seq<char>) -> Seq<char> {
    trim_end(trim_start(s))
}

/// The pieces of `s` between the `'\n'` characters, read from left to right:
/// one more piece than `s` has line feeds.
pub open spec fn split_pieces(s: Seq<char>) -> Seq<Seq<char>>
    decreases s.len(),
{
    if s.len() == 0 {
        seq![Seq::<char>::empty()]
    } else {
        let p = split_pieces(s.drop_last());
        if s.last() == '\n' {
            p.push(Seq::<char>::empty())
        } else {
            p.update(p.len() - 1, p.last().push(s.last()))
        }
    }
}

/// The lines of `s` as `str::lines` yields them before each is trimmed: the
/// pieces between line feeds, where a last empty piece (after a final line
/// feed, or of an empty text) is no line. A `'\r'` before a line feed stays at
/// the end of its line; every caller in this crate trims its lines.
pub open spec fn lines(s: Seq<char>) -> Seq<Seq<char>> {
    let p = split_pieces(s);
    if p.last().len() == 0 {
        p.drop_last()
    } else {
        p
    }
}

/// The texts that a sequence of ranges selects from `s`.
pub open spec fn range_texts(s: Seq<char>, r: Seq<(usize, usize)>) -> Seq<Seq<char>> {
    Seq::new(r.len(), |k: int| s.subrange(r[k].0 as int, r[k].1 as int))
}

/// Every range of `r` lies within `n`, start before end.
pub open spec fn ranges_within(r: Seq<(usize, usize)>, n: int) -> bool {
    forall|k: int| 0 <= k < r.len() ==> r[k].0 <= r[k].1 && r[k].1 <= n
}

/// The index of the first `c` in `s`, or `-1` where there is none.
pub open spec fn first_index(s: Seq<char>, c: char) -> int
    decreases s.len(),
{
    if s.len() == 0 {
        -1
    } else if s[0] == c {
        0
    } else {
        let r = first_index(s.subrange(1, s.len() as int), c);
        if r < 0 {
            -1
        } else {
            r + 1
        }
    }
}

/// `str::split_once` with a `char` pattern: the text before and after the
/// first `c`, or `None` where `s` holds no `c`.
pub open spec fn split_once(s: Seq<char>, c: char) -> Option<(Seq<char>, Seq<char>)> {
    let i = first_index(s, c);
    if i < 0 {
        None
    } else {
        Some((s.subrange(0, i), s.subrange(i + 1, s.len() as int)))
    }
}

/// The maximal runs of non-whitespace characters of `s`, in order
/// (`str::split_whitespace`).
pub open spec fn ws_tokens(s: Seq<char>) -> Seq<Seq<char>>
    decreases s.len(),
{
    if s.len() == 0 {
        Seq::<Seq<char>>::empty()
    } else {
        let t = ws_tokens(s.drop_last());
        let c = s.last();
        if is_ws(c) {
            t
        } else if s.len() >= 2 && !is_ws(s[s.len() - 2]) {
            t.update(t.len() - 1, t.last().push(c))
        } else {
            t.push(seq![c])
        }
    }
}

/// The code of `c` after ASCII lower-casing (`char::to_ascii_lowercase`).
pub open spec fn lower_code(c: char) -> int {
    if 'A' <= c && c <= 'Z' {
        c as int + 32
    } else {
        c as int
    }
}

/// `a` and `b` are equal up to ASCII case (`str::eq_ignore_ascii_case`).
pub open spec fn eq_ignore_ascii_case(a: Seq<char>, b: Seq<char>) -> bool {
    &&& a.len() == b.len()
    &&& forall|i: int| 0 <= i < a.len() ==> lower_code(a[i]) == lower_code(b[i])
}

/// An ASCII decimal digit.
pub open spec fn is_digit(c: char) -> bool {
    '0' <= c && c <= '9'
}

/// Every character of `s` is a decimal digit.
pub open spec fn all_digits(s: Seq<char>) -> bool {
    forall|i: int| 0 <= i < s.len() ==> is_digit(s[i])
}

/// The number that the decimal digits `s` denote.
pub open spec fn digits_value(s: Seq<char>) -> int
    decreases s.len(),
{
    if s.len() == 0 {
        0
    } else {
        digits_value(s.drop_last()) * 10 + (s.last() as int - '0' as int)
    }
}

/// What `s.parse::<u32>()` gives: an optional `'+'`, then at least one
/// decimal digit and nothing else, denoting at most `u32::MAX`.
pub open spec fn parse_u32_spec(s: Seq<char>) -> Option<u32> {
    let d = if s.len() > 0 && s[0] == '+' {
        s.subrange(1, s.len() as int)
    } else {
        s
    };
    if d.len() > 0 && all_digits(d) && digits_value(d) <= u32::MAX {
        Some(digits_value(d) as u32)
    } else {
        None
    }
}

/// `split_pieces` yields at least one piece.
pub proof fn lemma_split_pieces_len(s: Seq<char>)
    ensures
        split_pieces(s).len() >= 1,
    decreases s.len(),
{
    if s.len() > 0 {
        lemma_split_pieces_len(s.drop_last());
    }
}

/// A text that ends in a non-whitespace character has a token.
pub proof fn lemma_ws_tokens_len(s: Seq<char>)
    ensures
        s.len() > 0 && !is_ws(s.last()) ==> ws_tokens(s).len() >= 1,
    decreases s.len(),
{
    if s.len() > 0 {
        lemma_ws_tokens_len(s.drop_last());
    }
}

/// Copies the characters of `s` into a vector.
pub fn chars_of(s: &str) -> (v: Vec<char>)
    ensures
        v@ == s@,
{
    let mut v: Vec<char> = Vec::new();
    for c in it: s.chars()
        invariant
            it.seq() == s@,
            v@ == it.seq().take(it.index() as int),
    {
        v.push(c);
    }
    v
}

/// The start of `v[lo..hi]` once its leading whitespace is skipped.
pub fn trim_start_range(v: &Vec<char>, lo: usize, hi: usize) -> (a: usize)
    requires
        lo <= hi <= v.len(),
    ensures
        lo <= a <= hi,
        v@.subrange(a as int, hi as int) == trim_start(v@.subrange(lo as int, hi as int)),
{
    let mut i = lo;
    while i < hi && is_whitespace(v[i])
        invariant
            lo <= i <= hi <= v.len(),
            trim_start(v@.subrange(lo as int, hi as int)) == trim_start(
                v@.subrange(i as int, hi as int),
            ),
        decreases hi - i,
    {
        assert(v@.subrange(i as int, hi as int).subrange(1, (hi - i) as int) =~= v@.subrange(
            i + 1,
            hi as int,
        ));
        i = i + 1;
    }
    i
}

/// The end of `v[lo..hi]` once its trailing whitespace is dropped.
pub fn trim_end_range(v: &Vec<char>, lo: usize, hi: usize) -> (b: usize)
    requires
        lo <= hi <= v.len(),
    ensures
        lo <= b <= hi,
        v@.subrange(lo as int, b as int) == trim_end(v@.subrange(lo as int, hi as int)),
{
    let mut j = hi;
    while j > lo && is_whitespace(v[j - 1])
        invariant
            lo <= j <= hi <= v.len(),
            trim_end(v@.subrange(lo as int, hi as int)) == trim_end(
                v@.subrange(lo as int, j as int),
            ),
        decreases j - lo,
    {
        assert(v@.subrange(lo as int, j as int).subrange(0, (j - 1 - lo) as int) =~= v@.subrange(
            lo as int,
            j - 1,
        ));
        j = j - 1;
    }
    j
}

/// The range of `v[lo..hi]` once trimmed.
pub fn trim_range(v: &Vec<char>, lo: usize, hi: usize) -> (r: (usize, usize))
    requires
        lo <= hi <= v.len(),
    ensures
        lo <= r.0 <= r.1 <= hi,
        v@.subrange(r.0 as int, r.1 as int) == trim(v@.subrange(lo as int, hi as int)),
{
    let a = trim_start_range(v, lo, hi);
    let b = trim_end_range(v, a, hi);
    (a, b)
}

/// The ranges of the lines of `v`, in order.
pub fn line_ranges(v: &Vec<char>) -> (r: Vec<(usize, usize)>)
    ensures
        ranges_within(r@, v.len() as int),
        range_texts(v@, r@) == lines(v@),
{
    let n = v.len();
    let mut r: Vec<(usize, usize)> = Vec::new();
    let mut start: usize = 0;
    let mut i: usize = 0;
    assert(v@.take(0) =~= Seq::<char>::empty());
    assert(range_texts(v@, r@).push(v@.subrange(0, 0)) =~= seq![Seq::<char>::empty()]);
    while i < n
        invariant
            n == v.len(),
            start <= i <= n,
            ranges_within(r@, start as int),
            split_pieces(v@.take(i as int)) == range_texts(v@, r@).push(
                v@.subrange(start as int, i as int),
            ),
        decreases n - i,
    {
        let ghost old_r = r@;
        let ghost old_start = start;
        assert(v@.take(i + 1).drop_last() =~= v@.take(i as int));
        assert(v@.take(i + 1).last() == v@[i as int]);
        if v[i] == '\n' {
            r.push((start, i));
            start = i + 1;
            assert(range_texts(v@, r@) =~= range_texts(v@, old_r).push(
                v@.subrange(old_start as int, i as int),
            ));
            assert(v@.subrange(start as int, i + 1) =~= Seq::<char>::empty());
        } else {
            assert(v@.subrange(start as int, i + 1) =~= v@.subrange(start as int, i as int).push(
                v@[i as int],
            ));
        }
        i = i + 1;
    }
    assert(v@.take(n as int) =~= v@);
    let ghost p = split_pieces(v@);
    if start < n {
        let ghost old_r = r@;
        r.push((start, n));
        assert(range_texts(v@, r@) =~= range_texts(v@, old_r).push(
            v@.subrange(start as int, n as int),
        ));
        assert(range_texts(v@, r@) =~= p);
    } else {
        assert(range_texts(v@, r@) =~= p.drop_last());
    }
    r
}

/// The first index of `c` in `v[lo..hi]`.
pub fn find_char(v: &Vec<char>, lo: usize, hi: usize, c: char) -> (r: Option<usize>)
    requires
        lo <= hi <= v.len(),
    ensures
        match r {
            Some(i) => lo <= i < hi && first_index(v@.subrange(lo as int, hi as int), c) == i - lo,
            None => first_index(v@.subrange(lo as int, hi as int), c) == -1,
        },
{
    let mut i = lo;
    while i < hi
        invariant
            lo <= i <= hi <= v.len(),
            first_index(v@.subrange(lo as int, hi as int), c) == (if first_index(
                v@.subrange(i as int, hi as int),
                c,
            ) < 0 {
                -1
            } else {
                first_index(v@.subrange(i as int, hi as int), c) + (i - lo)
            }),
        decreases hi - i,
    {
        if v[i] == c {
            return Some(i);
        }
        assert(v@.subrange(i as int, hi as int).subrange(1, (hi - i) as int) =~= v@.subrange(
            i + 1,
            hi as int,
        ));
        i = i + 1;
    }
    None
}

/// Compares `v[lo..hi]` with `lit`.
pub fn range_eq_str(v: &Vec<char>, lo: usize, hi: usize, lit: &str) -> (r: bool)
    requires
        lo <= hi <= v.len(),
    ensures
        r == (v@.subrange(lo as int, hi as int) == lit@),
{
    let n = lit.unicode_len();
    if n != hi - lo {
        return false;
    }
    let mut k: usize = 0;
    while k < n
        invariant
            n == lit@.len(),
            n == hi - lo,
            lo <= hi <= v.len(),
            k <= n,
            forall|j: int| 0 <= j < k ==> v@[lo + j] == lit@[j],
        decreases n - k,
    {
        if v[lo + k] != lit.get_char(k) {
            assert(v@.subrange(lo as int, hi as int)[k as int] != lit@[k as int]);
            return false;
        }
        k = k + 1;
    }
    assert(v@.subrange(lo as int, hi as int) =~= lit@);
    true
}

/// The code of `c` after ASCII lower-casing.
pub fn lower_code_of(c: char) -> (r: u32)
    ensures
        r == lower_code(c),
{
    if 'A' <= c && c <= 'Z' {
        (c as u32) + 32
    } else {
        c as u32
    }
}

/// Compares `v[lo..hi]` with `lit` up to ASCII case.
pub fn range_eq_ignore_ascii_case(v: &Vec<char>, lo: usize, hi: usize, lit: &str) -> (r: bool)
    requires
        lo <= hi <= v.len(),
    ensures
        r == eq_ignore_ascii_case(v@.subrange(lo as int, hi as int), lit@),
{
    let n = lit.unicode_len();
    if n != hi - lo {
        return false;
    }
    let mut k: usize = 0;
    while k < n
        invariant
            n == lit@.len(),
            n == hi - lo,
            lo <= hi <= v.len(),
            k <= n,
            forall|j: int| 0 <= j < k ==> lower_code(v@[lo + j]) == lower_code(lit@[j]),
        decreases n - k,
    {
        if lower_code_of(v[lo + k]) != lower_code_of(lit.get_char(k)) {
            assert(v@.subrange(lo as int, hi as int)[k as int] == v@[lo + k]);
            return false;
        }
        k = k + 1;
    }
    true
}

/// The ranges of the whitespace-separated tokens of `v[lo..hi]`, in order.
pub fn ws_token_ranges(v: &Vec<char>, lo: usize, hi: usize) -> (r: Vec<(usize, usize)>)
    requires
        lo <= hi <= v.len(),
    ensures
        ranges_within(r@, hi as int),
        forall|k: int| 0 <= k < r.len() ==> lo <= #[trigger] r@[k].0,
        range_texts(v@, r@) == ws_tokens(v@.subrange(lo as int, hi as int)),
{
    let mut r: Vec<(usize, usize)> = Vec::new();
    let mut i = lo;
    assert(v@.subrange(lo as int, lo as int) =~= Seq::<char>::empty());
    assert(range_texts(v@, r@) =~= Seq::<Seq<char>>::empty());
    while i < hi
        invariant
            lo <= i <= hi <= v.len(),
            ranges_within(r@, i as int),
            forall|k: int| 0 <= k < r.len() ==> lo <= #[trigger] r@[k].0,
            range_texts(v@, r@) == ws_tokens(v@.subrange(lo as int, i as int)),
            i > lo && !is_ws(v@[i - 1]) ==> r.len() > 0 && r@[r.len() - 1].1 == i,
        decreases hi - i,
    {
        let ghost old_r = r@;
        let ghost s = v@.subrange(lo as int, i + 1);
        assert(s.drop_last() =~= v@.subrange(lo as int, i as int));
        assert(s.last() == v@[i as int]);
        if is_whitespace(v[i]) {
        } else if i > lo && !is_whitespace(v[i - 1]) {
            assert(s[s.len() - 2] == v@[i - 1]);
            let last = r.len() - 1;
            let (a, _) = r[last];
            r.set(last, (a, i + 1));
            assert(v@.subrange(a as int, i + 1) =~= v@.subrange(a as int, i as int).push(
                v@[i as int],
            ));
            assert(range_texts(v@, r@) =~= range_texts(v@, old_r).update(
                last as int,
                range_texts(v@, old_r)[last as int].push(v@[i as int]),
            ));
        } else {
            r.push((i, i + 1));
            assert(v@.subrange(i as int, i + 1) =~= seq![v@[i as int]]);
            assert(range_texts(v@, r@) =~= range_texts(v@, old_r).push(seq![v@[i as int]]));
        }
        i = i + 1;
    }
    r
}

/// Parses `v[lo..hi]` as `str::parse::<u32>` does, `None` for its error.
pub fn parse_u32_range(v: &Vec<char>, lo: usize, hi: usize) -> (r: Option<u32>)
    requires
        lo <= hi <= v.len(),
    ensures
        r == parse_u32_spec(v@.subrange(lo as int, hi as int)),
{
    let ghost s = v@.subrange(lo as int, hi as int);
    let start = if lo < hi && v[lo] == '+' {
        lo + 1
    } else {
        lo
    };
    assert(v@.subrange(start as int, hi as int) == (if s.len() > 0 && s[0] == '+' {
        s.subrange(1, s.len() as int)
    } else {
        s
    }));
    if start == hi {
        return None;
    }
    let ghost d = v@.subrange(start as int, hi as int);
    assert(parse_u32_spec(s) == (if all_digits(d) && digits_value(d) <= u32::MAX {
        Some(digits_value(d) as u32)
    } else {
        None
    }));
    let mut acc: u64 = 0;
    let mut over = false;
    let mut i = start;
    assert(v@.subrange(start as int, start as int) =~= Seq::<char>::empty());
    while i < hi
        invariant
            lo <= start <= i <= hi <= v.len(),
            d == v@.subrange(start as int, hi as int),
            s == v@.subrange(lo as int, hi as int),
            parse_u32_spec(s) == (if all_digits(d) && digits_value(d) <= u32::MAX {
                Some(digits_value(d) as u32)
            } else {
                None
            }),
            all_digits(v@.subrange(start as int, i as int)),
            !over ==> acc == digits_value(v@.subrange(start as int, i as int)) && acc <= u32::MAX,
            over ==> digits_value(v@.subrange(start as int, i as int)) > u32::MAX,
        decreases hi - i,
    {
        let c = v[i];
        if !('0' <= c && c <= '9') {
            assert(!all_digits(v@.subrange(start as int, hi as int))) by {
                assert(v@.subrange(start as int, hi as int)[i - start] == c);
            }
            return None;
        }
        let ghost t = v@.subrange(start as int, i + 1);
        assert(t.drop_last() =~= v@.subrange(start as int, i as int));
        assert(t.last() == c);
        if !over {
            acc = acc * 10 + ((c as u32) - ('0' as u32)) as u64;
            if acc > 4294967295 {
                over = true;
            }
        }
        i = i + 1;
    }
    assert(v@.subrange(start as int, i as int) =~= v@.subrange(start as int, hi as int));
    if over {
        None
    } else {
        Some(acc as u32)
    }
}

/// `n` occurs in `h` (`str::contains` with a string pattern).
pub open spec fn contains_seq(h: Seq<char>, n: Seq<char>) -> bool {
    exists|i: int| 0 <= i && i + n.len() <= h.len() && #[trigger] h.subrange(i, i + n.len()) == n
}

/// Decides whether `needle` occurs in `hay`.
pub fn contains_str(hay: &str, needle: &str) -> (r: bool)
    ensures
        r == contains_seq(hay@, needle@),
{
    let v = chars_of(hay);
    let n = v.len();
    let m = needle.unicode_len();
    if m > n {
        return false;
    }
    if m == 0 {
        assert(hay@.subrange(0, 0 + needle@.len() as int) =~= needle@);
        return true;
    }
    let mut i: usize = 0;
    while m <= n - i
        invariant
            v@ == hay@,
            n == v.len(),
            m == needle@.len(),
            1 <= m <= n,
            i <= n,
            forall|j: int| 0 <= j < i ==> #[trigger] v@.subrange(j, j + m) != needle@,
        decreases n - i,
    {
        if range_eq_str(&v, i, i + m, needle) {
            return true;
        }
        i = i + 1;
    }
    false
}

/// Appending text without a line feed extends the last piece.
pub proof fn lemma_split_pieces_append(s: Seq<char>, t: Seq<char>)
    requires
        forall|i: int| 0 <= i < t.len() ==> t[i] != '\n',
    ensures
        split_pieces(s + t) == split_pieces(s).update(
            split_pieces(s).len() - 1,
            split_pieces(s).last() + t,
        ),
    decreases t.len(),
{
    lemma_split_pieces_len(s);
    let p = split_pieces(s);
    if t.len() == 0 {
        assert(s + t =~= s);
        assert(p.last() + t =~= p.last());
        assert(p.update(p.len() - 1, p.last() + t) =~= p);
    } else {
        let t0 = t.drop_last();
        lemma_split_pieces_append(s, t0);
        assert((s + t).drop_last() =~= s + t0);
        assert((s + t).last() == t.last());
        let q = split_pieces(s + t0);
        assert(q.last() == p.last() + t0);
        assert((p.last() + t0).push(t.last()) =~= p.last() + t);
        assert(q.update(q.len() - 1, q.last().push(t.last())) =~= p.update(
            p.len() - 1,
            p.last() + t,
        ));
    }
}

/// A line and its line feed, appended to a text that is empty or ends a
/// line, add that line to the text's lines.
pub proof fn lemma_lines_push_line(s: Seq<char>, l: Seq<char>)
    requires
        s.len() == 0 || s.last() == '\n',
        forall|i: int| 0 <= i < l.len() ==> l[i] != '\n',
    ensures
        lines(s + l + seq!['\n']) == lines(s).push(l),
{
    lemma_split_pieces_len(s);
    let p = split_pieces(s);
    if s.len() > 0 {
        assert(s.drop_last() + seq![s.last()] =~= s);
    }
    assert(p.last() =~= Seq::<char>::empty());
    lemma_split_pieces_append(s, l);
    let u = s + l + seq!['\n'];
    assert(u.drop_last() =~= s + l);
    assert(u.last() == '\n');
    assert(p.last() + l =~= l);
    let q = split_pieces(s + l);
    assert(split_pieces(u) == q.push(Seq::<char>::empty()));
    assert(lines(u) =~= q);
    assert(q =~= p.drop_last().push(l));
}

/// Every whitespace token holds at least one character.
pub proof fn lemma_ws_tokens_non_empty(s: Seq<char>)
    ensures
        forall|i: int| 0 <= i < ws_tokens(s).len() ==> #[trigger] ws_tokens(s)[i].len() > 0,
    decreases s.len(),
{
    if s.len() > 0 {
        let s0 = s.drop_last();
        lemma_ws_tokens_non_empty(s0);
        lemma_ws_tokens_len(s0);
        let t = ws_tokens(s0);
        let c = s.last();
        if is_ws(c) {
        } else if s.len() >= 2 && !is_ws(s[s.len() - 2]) {
            assert(s0.last() == s[s.len() - 2]);
            let u = t.update(t.len() - 1, t.last().push(c));
            assert forall|i: int| 0 <= i < u.len() implies #[trigger] u[i].len() > 0 by {
                if i < t.len() - 1 {
                    assert(u[i] == t[i]);
                }
            }
        } else {
            let u = t.push(seq![c]);
            assert forall|i: int| 0 <= i < u.len() implies #[trigger] u[i].len() > 0 by {
                if i < t.len() {
                    assert(u[i] == t[i]);
                }
            }
        }
    }
}

/// Trimming keeps only characters of the text: a text without `c` stays
/// without `c`, and then `c` has no first index.
pub proof fn lemma_trim_keeps_absence(s: Seq<char>, c: char)
    requires
        forall|i: int| 0 <= i < s.len() ==> s[i] != c,
    ensures
        forall|i: int| 0 <= i < trim(s).len() ==> trim(s)[i] != c,
        first_index(trim(s), c) == -1,
{
    lemma_trim_start_absence(s, c);
    lemma_trim_end_absence(trim_start(s), c);
    lemma_first_index_absent(trim(s), c);
}

proof fn lemma_trim_start_absence(s: Seq<char>, c: char)
    requires
        forall|i: int| 0 <= i < s.len() ==> s[i] != c,
    ensures
        forall|i: int| 0 <= i < trim_start(s).len() ==> trim_start(s)[i] != c,
    decreases s.len(),
{
    if s.len() > 0 && is_ws(s[0]) {
        let t = s.subrange(1, s.len() as int);
        assert forall|i: int| 0 <= i < t.len() implies t[i] != c by {
            assert(t[i] == s[i + 1]);
        }
        lemma_trim_start_absence(t, c);
        assert(trim_start(s) == trim_start(t));
    }
}

proof fn lemma_trim_end_absence(s: Seq<char>, c: char)
    requires
        forall|i: int| 0 <= i < s.len() ==> s[i] != c,
    ensures
        forall|i: int| 0 <= i < trim_end(s).len() ==> trim_end(s)[i] != c,
    decreases s.len(),
{
    if s.len() > 0 && is_ws(s[s.len() - 1]) {
        let t = s.subrange(0, s.len() - 1);
        assert forall|i: int| 0 <= i < t.len() implies t[i] != c by {
            assert(t[i] == s[i]);
        }
        lemma_trim_end_absence(t, c);
        assert(trim_end(s) == trim_end(t));
    }
}

proof fn lemma_first_index_absent(s: Seq<char>, c: char)
    requires
        forall|i: int| 0 <= i < s.len() ==> s[i] != c,
    ensures
        first_index(s, c) == -1,
    decreases s.len(),
{
    if s.len() > 0 {
        let t = s.subrange(1, s.len() as int);
        assert forall|i: int| 0 <= i < t.len() implies t[i] != c by {
            assert(t[i] == s[i + 1]);
        }
        lemma_first_index_absent(t, c);
    }
}

/// The pieces of a text that is empty or ends a line end with an empty one.
pub proof fn lemma_split_pieces_last_empty(a: Seq<char>)
    requires
        a.len() == 0 || a.last() == '\n',
    ensures
        split_pieces(a).len() >= 1,
        split_pieces(a).last() == Seq::<char>::empty(),
{
    lemma_split_pieces_len(a);
    if a.len() == 0 {
        assert(split_pieces(a) =~= seq![Seq::<char>::empty()]);
    }
}

/// After a text that is empty or ends a line, the pieces of what follows
/// continue its pieces.
pub proof fn lemma_split_pieces_concat(a: Seq<char>, b: Seq<char>)
    requires
        a.len() == 0 || a.last() == '\n',
    ensures
        split_pieces(a + b) == split_pieces(a).drop_last() + split_pieces(b),
    decreases b.len(),
{
    lemma_split_pieces_last_empty(a);
    let d = split_pieces(a).drop_last();
    if b.len() == 0 {
        assert(a + b =~= a);
        assert(split_pieces(b) =~= seq![Seq::<char>::empty()]);
        assert(split_pieces(a) =~= d + split_pieces(b));
    } else {
        let b0 = b.drop_last();
        lemma_split_pieces_concat(a, b0);
        lemma_split_pieces_len(b0);
        assert((a + b).drop_last() =~= a + b0);
        assert((a + b).last() == b.last());
        let q = split_pieces(b0);
        if b.last() == '\n' {
            assert((d + q).push(Seq::<char>::empty()) =~= d + q.push(Seq::<char>::empty()));
        } else {
            assert((d + q).update((d + q).len() - 1, (d + q).last().push(b.last())) =~= d
                + q.update(q.len() - 1, q.last().push(b.last())));
        }
    }
}

/// After a text that is empty or ends a line, the lines of what follows
/// continue its lines.
pub proof fn lemma_lines_concat(a: Seq<char>, b: Seq<char>)
    requires
        a.len() == 0 || a.last() == '\n',
    ensures
        lines(a + b) == lines(a) + lines(b),
{
    lemma_split_pieces_last_empty(a);
    lemma_split_pieces_concat(a, b);
    lemma_split_pieces_len(b);
    let d = split_pieces(a).drop_last();
    let q = split_pieces(b);
    assert(lines(a) == d);
    assert((d + q).last() == q.last());
    if q.last().len() == 0 {
        assert((d + q).drop_last() =~= d + q.drop_last());
    }
}

/// The lines of one line and its line feed.
pub proof fn lemma_lines_single(l: Seq<char>)
    requires
        forall|i: int| 0 <= i < l.len() ==> l[i] != '\n',
    ensures
        lines(l + seq!['\n']) == seq![l],
{
    let e = Seq::<char>::empty();
    lemma_lines_push_line(e, l);
    assert(e + l + seq!['\n'] =~= l + seq!['\n']);
    lemma_split_pieces_last_empty(e);
    assert(lines(e) =~= Seq::<Seq<char>>::empty());
    assert(lines(e).push(l) =~= seq![l]);
}

/// A text of whitespace alone trims to nothing.
pub proof fn lemma_trim_whitespace(w: Seq<char>)
    requires
        forall|i: int| 0 <= i < w.len() ==> is_ws(w[i]),
    ensures
        trim(w).len() == 0,
    decreases w.len(),
{
    if w.len() > 0 {
        let t = w.subrange(1, w.len() as int);
        assert forall|i: int| 0 <= i < t.len() implies is_ws(t[i]) by {
            assert(t[i] == w[i + 1]);
        }
        lemma_trim_whitespace(t);
        assert(trim_start(w) == trim_start(t));
        assert(trim(t).len() == 0);
        let e = trim_start(t);
        if e.len() > 0 {
            assert(is_ws(e[e.len() - 1]));
        }
    }
}

/// Whitespace alone has no token.
pub proof fn lemma_ws_tokens_of_whitespace(w: Seq<char>)
    requires
        forall|i: int| 0 <= i < w.len() ==> is_ws(w[i]),
    ensures
        ws_tokens(w) == Seq::<Seq<char>>::empty(),
    decreases w.len(),
{
    if w.len() > 0 {
        lemma_ws_tokens_of_whitespace(w.drop_last());
    }
}

/// Leading whitespace changes no token.
pub proof fn lemma_ws_tokens_skip_leading(w: Seq<char>, x: Seq<char>)
    requires
        forall|i: int| 0 <= i < w.len() ==> is_ws(w[i]),
    ensures
        ws_tokens(w + x) == ws_tokens(x),
    decreases x.len(),
{
    if x.len() == 0 {
        assert(w + x =~= w);
        lemma_ws_tokens_of_whitespace(w);
    } else {
        lemma_ws_tokens_skip_leading(w, x.drop_last());
        let y = w + x;
        assert(y.drop_last() =~= w + x.drop_last());
        assert(y.last() == x.last());
        if x.len() >= 2 {
            assert(y[y.len() - 2] == x[x.len() - 2]);
        } else if w.len() > 0 {
            assert(y[y.len() - 2] == w[w.len() - 1]);
        }
    }
}

/// Trimming the start of a text changes no token.
pub proof fn lemma_ws_tokens_trim_start(y: Seq<char>)
    ensures
        ws_tokens(trim_start(y)) == ws_tokens(y),
    decreases y.len(),
{
    if y.len() > 0 && is_ws(y[0]) {
        let t = y.subrange(1, y.len() as int);
        lemma_ws_tokens_trim_start(t);
        assert(seq![y[0]] + t =~= y);
        lemma_ws_tokens_skip_leading(seq![y[0]], t);
    }
}

} // verus!
