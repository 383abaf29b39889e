//! Operations on text, stated over sequences of characters.

use vstd::prelude::*;

verus! {

/// `String::push` appends one character.
pub assume_specification[ String::push ](s: &mut String, c: char)
    ensures
        final(s)@ == old(s)@.push(c),
;

/// The views of a sequence of strings.
pub open spec fn views(v: Seq<String>) -> Seq<Seq<char>> {
    v.map_values(|s: String| s@)
}

/// The views of a sequence of string slices.
pub open spec fn slice_views(v: Seq<&str>) -> Seq<Seq<char>> {
    v.map_values(|s: &str| s@)
}

/// The view of an optional string.
pub open spec fn opt_view(o: Option<String>) -> Option<Seq<char>> {
    match o {
        Some(s) => Some(s@),
        None => None,
    }
}

/// The view of an optional string slice.
pub open spec fn opt_slice_view(o: Option<&str>) -> Option<Seq<char>> {
    match o {
        Some(s) => Some(s@),
        None => None,
    }
}

/// Unicode's `White_Space` property.
pub open spec fn is_space(c: char) -> bool {
    ||| '\u{9}' <= c <= '\u{d}'
    ||| c == '\u{20}'
    ||| c == '\u{85}'
    ||| c == '\u{a0}'
    ||| c == '\u{1680}'
    ||| '\u{2000}' <= c <= '\u{200a}'
    ||| c == '\u{2028}'
    ||| c == '\u{2029}'
    ||| c == '\u{202f}'
    ||| c == '\u{205f}'
    ||| c == '\u{3000}'
}

/// ASCII white space: space, tab, line feed, form feed, carriage return.
pub open spec fn is_ascii_space(c: char) -> bool {
    c == '\u{20}' || c == '\u{9}' || c == '\u{a}' || c == '\u{c}' || c == '\u{d}'
}

/// Whether `c` has the property `White_Space`.
pub fn space(c: char) -> (r: bool)
    ensures
        r == is_space(c),
{
    ('\u{9}' <= c && c <= '\u{d}') || c == '\u{20}' || c == '\u{85}' || c == '\u{a0}' || c
        == '\u{1680}' || ('\u{2000}' <= c && c <= '\u{200a}') || c == '\u{2028}' || c
        == '\u{2029}' || c == '\u{202f}' || c == '\u{205f}' || c == '\u{3000}'
}

/// Whether `c` is ASCII white space.
pub fn ascii_space(c: char) -> (r: bool)
    ensures
        r == is_ascii_space(c),
{
    c == '\u{20}' || c == '\u{9}' || c == '\u{a}' || c == '\u{c}' || c == '\u{d}'
}

/// The characters of `s`.
pub fn chars_of(s: &str) -> (v: Vec<char>)
    ensures
        v@ == s@,
{
    let mut v: Vec<char> = Vec::new();
    for c in it: s.chars()
        invariant
            it.seq() == s@,
            v@ == s@.take(it.index() as int),
    {
        v.push(c);
    }
    assert(s@.take(s@.len() as int) == s@);
    v
}

/// Whether `a` and `b` are the same text.
pub fn same(a: &str, b: &str) -> (r: bool)
    ensures
        r == (a@ == b@),
{
    let x = chars_of(a);
    let y = chars_of(b);
    if x.len() != y.len() {
        return false;
    }
    let mut i: usize = 0;
    while i < x.len()
        invariant
            i <= x@.len(),
            x@.len() == y@.len(),
            x@.take(i as int) == y@.take(i as int),
            x@ == a@,
            y@ == b@,
        decreases x@.len() - i,
    {
        if x[i] != y[i] {
            assert(a@[i as int] != b@[i as int]);
            return false;
        }
        assert(x@.take(i + 1) == x@.take(i as int).push(x@[i as int]));
        assert(y@.take(i + 1) == y@.take(i as int).push(y@[i as int]));
        i += 1;
    }
    assert(x@.take(i as int) == x@);
    assert(y@.take(i as int) == y@);
    true
}

/// Whether `p` stands in `s` at position `i`.
pub open spec fn matches_at(s: Seq<char>, i: int, p: Seq<char>) -> bool {
    0 <= i && i + p.len() <= s.len() && s.subrange(i, i + p.len()) == p
}

/// Whether `p` stands somewhere in `s`.
pub open spec fn occurs(s: Seq<char>, p: Seq<char>) -> bool {
    exists|i: int| matches_at(s, i, p)
}

/// The first position from `i` on at which `p` stands in `s`, or -1.
pub open spec fn find_from(s: Seq<char>, p: Seq<char>, i: int) -> int
    decreases s.len() + 1 - i,
{
    if i < 0 || i + p.len() > s.len() {
        -1
    } else if matches_at(s, i, p) {
        i
    } else {
        find_from(s, p, i + 1)
    }
}

/// The first position at which `p` stands in `s`, or -1.
pub open spec fn find(s: Seq<char>, p: Seq<char>) -> int {
    find_from(s, p, 0)
}

/// What stands before and after the first `p` in `s`.
pub open spec fn split_at_first(s: Seq<char>, p: Seq<char>) -> Option<(Seq<char>, Seq<char>)> {
    let i = find(s, p);
    if i < 0 {
        None
    } else {
        Some((s.take(i), s.skip(i + p.len())))
    }
}

/// What is found in a text is found at the same place in any text that it starts.
pub proof fn lemma_find_extends(s: Seq<char>, more: Seq<char>, p: Seq<char>)
    requires
        occurs(s, p),
    ensures
        find(s + more, p) == find(s, p),
{
    lemma_find(s, p);
    lemma_find_from(s, p, 0);
    lemma_find_from(s + more, p, 0);
    let i = find(s, p);
    let j = find(s + more, p);
    assert((s + more).subrange(i, i + p.len()) =~= s.subrange(i, i + p.len()));
    assert(matches_at(s + more, i, p));
    if 0 <= j < i {
        assert((s + more).subrange(j, j + p.len()) =~= s.subrange(j, j + p.len()));
        assert(matches_at(s, j, p));
    }
}

/// `find_from` gives the least position, if there is one.
pub proof fn lemma_find_from(s: Seq<char>, p: Seq<char>, i: int)
    requires
        0 <= i,
    ensures
        find_from(s, p, i) == -1 || (i <= find_from(s, p, i) && matches_at(
            s,
            find_from(s, p, i),
            p,
        )),
        forall|j: int|
            i <= j && (find_from(s, p, i) < 0 || j < find_from(s, p, i)) ==> !matches_at(s, j, p),
    decreases s.len() + 1 - i,
{
    if i + p.len() <= s.len() && !matches_at(s, i, p) {
        lemma_find_from(s, p, i + 1);
    }
}

/// A text is found exactly where it occurs.
pub proof fn lemma_find(s: Seq<char>, p: Seq<char>)
    ensures
        find(s, p) >= 0 <==> occurs(s, p),
        find(s, p) >= 0 ==> matches_at(s, find(s, p), p),
        find(s, p) >= -1,
{
    lemma_find_from(s, p, 0);
}

/// Whether `p` stands in `v` at position `i`.
pub fn at(v: &Vec<char>, i: usize, p: &Vec<char>) -> (r: bool)
    requires
        i <= v@.len(),
    ensures
        r == matches_at(v@, i as int, p@),
{
    let n = v.len();
    if p.len() > n - i {
        return false;
    }
    let mut j: usize = 0;
    while j < p.len()
        invariant
            j <= p@.len(),
            i + p@.len() <= n,
            n == v@.len(),
            v@.subrange(i as int, i + j) == p@.take(j as int),
        decreases p@.len() - j,
    {
        if v[i + j] != p[j] {
            assert(v@.subrange(i as int, i + p@.len())[j as int] != p@[j as int]);
            return false;
        }
        assert(v@.subrange(i as int, i + j + 1) == v@.subrange(i as int, i + j).push(
            v@[i + j],
        ));
        assert(p@.take(j + 1) == p@.take(j as int).push(p@[j as int]));
        j += 1;
    }
    assert(p@.take(j as int) == p@);
    true
}

/// The first position at which `p` stands in `v`.
pub fn position(v: &Vec<char>, p: &Vec<char>) -> (r: Option<usize>)
    ensures
        match r {
            Some(i) => find(v@, p@) == i,
            None => find(v@, p@) < 0,
        },
{
    let mut i: usize = 0;
    while i <= v.len() && p.len() <= v.len() - i
        invariant
            0 <= i <= v@.len() + 1,
            find(v@, p@) == find_from(v@, p@, i as int),
        decreases v@.len() + 1 - i,
    {
        if at(v, i, p) {
            return Some(i);
        }
        if i == v.len() {
            assert(find_from(v@, p@, i + 1) < 0);
            return None;
        }
        i += 1;
    }
    None
}

/// Whether `p` stands somewhere in `s`.
pub fn contains(s: &str, p: &str) -> (r: bool)
    ensures
        r == occurs(s@, p@),
{
    let v = chars_of(s);
    let w = chars_of(p);
    proof {
        lemma_find(v@, w@);
    }
    position(&v, &w).is_some()
}

/// What stands before and after the first `p` in `s`.
pub fn split_once<'a>(s: &'a str, p: &str) -> (r: Option<(&'a str, &'a str)>)
    ensures
        match r {
            Some((a, b)) => split_at_first(s@, p@) == Some((a@, b@)),
            None => split_at_first(s@, p@) is None,
        },
{
    let v = chars_of(s);
    let w = chars_of(p);
    proof {
        lemma_find(v@, w@);
    }
    match position(&v, &w) {
        Some(i) => {
            let n = v.len();
            let a = s.substring_char(0, i);
            let b = s.substring_char(i + w.len(), n);
            Some((a, b))
        },
        None => None,
    }
}

/// Whether `s` begins with `p`.
pub fn starts_with(s: &str, p: &str) -> (r: bool)
    ensures
        r == p@.is_prefix_of(s@),
{
    let v = chars_of(s);
    let w = chars_of(p);
    at(&v, 0, &w)
}

/// Whether `s` ends with `p`.
pub fn ends_with(s: &str, p: &str) -> (r: bool)
    ensures
        r == p@.is_suffix_of(s@),
{
    let v = chars_of(s);
    let w = chars_of(p);
    if w.len() > v.len() {
        return false;
    }
    at(&v, v.len() - w.len(), &w)
}

/// `s` without the leading `p`, where there is one.
pub open spec fn without_prefix(s: Seq<char>, p: Seq<char>) -> Option<Seq<char>> {
    if p.is_prefix_of(s) {
        Some(s.skip(p.len() as int))
    } else {
        None
    }
}

/// `s` without the trailing `p`, where there is one.
pub open spec fn without_suffix(s: Seq<char>, p: Seq<char>) -> Option<Seq<char>> {
    if p.is_suffix_of(s) {
        Some(s.take(s.len() - p.len()))
    } else {
        None
    }
}

/// `s` without the leading `p`, where there is one.
pub fn strip_prefix<'a>(s: &'a str, p: &str) -> (r: Option<&'a str>)
    ensures
        opt_slice_view(r) == without_prefix(s@, p@),
{
    if starts_with(s, p) {
        let n = s.unicode_len();
        let m = p.unicode_len();
        Some(s.substring_char(m, n))
    } else {
        None
    }
}

/// `s` without the trailing `p`, where there is one.
pub fn strip_suffix<'a>(s: &'a str, p: &str) -> (r: Option<&'a str>)
    ensures
        opt_slice_view(r) == without_suffix(s@, p@),
{
    if ends_with(s, p) {
        let n = s.unicode_len();
        let m = p.unicode_len();
        Some(s.substring_char(0, n - m))
    } else {
        None
    }
}

/// `s` from its first character on that is no white space.
pub open spec fn trimmed_start(s: Seq<char>) -> Seq<char>
    decreases s.len(),
{
    if s.len() > 0 && is_space(s[0]) {
        trimmed_start(s.drop_first())
    } else {
        s
    }
}

/// `s` up to its last character that is no white space.
pub open spec fn trimmed_end(s: Seq<char>) -> Seq<char>
    decreases s.len(),
{
    if s.len() > 0 && is_space(s.last()) {
        trimmed_end(s.drop_last())
    } else {
        s
    }
}

/// `s` without white space at either end.
pub open spec fn trimmed(s: Seq<char>) -> Seq<char> {
    trimmed_end(trimmed_start(s))
}

/// The position in `v` of the first character that is no white space.
fn first_non_space(v: &Vec<char>) -> (i: usize)
    ensures
        i <= v@.len(),
        trimmed_start(v@) == v@.skip(i as int),
{
    let mut i: usize = 0;
    assert(v@.skip(0) == v@);
    while i < v.len() && space(v[i])
        invariant
            i <= v@.len(),
            trimmed_start(v@) == trimmed_start(v@.skip(i as int)),
        decreases v@.len() - i,
    {
        assert(v@.skip(i as int).drop_first() == v@.skip(i + 1));
        i += 1;
    }
    i
}

/// `s` without white space at its start.
pub fn trim_start<'a>(s: &'a str) -> (r: &'a str)
    ensures
        r@ == trimmed_start(s@),
{
    let v = chars_of(s);
    let i = first_non_space(&v);
    s.substring_char(i, v.len())
}

/// `s` without white space at either end.
pub fn trim<'a>(s: &'a str) -> (r: &'a str)
    ensures
        r@ == trimmed(s@),
{
    let v = chars_of(s);
    let i = first_non_space(&v);
    let mut j: usize = v.len();
    while j > i && space(v[j - 1])
        invariant
            i <= j <= v@.len(),
            trimmed(v@) == trimmed_end(v@.subrange(i as int, j as int)),
        decreases j,
    {
        assert(v@.subrange(i as int, j as int).drop_last() == v@.subrange(i as int, j - 1));
        j -= 1;
    }
    s.substring_char(i, j)
}

/// `s` from its first character other than `c` on.
pub open spec fn stripped_start(s: Seq<char>, c: char) -> Seq<char>
    decreases s.len(),
{
    if s.len() > 0 && s[0] == c {
        stripped_start(s.drop_first(), c)
    } else {
        s
    }
}

/// `s` up to its last character other than `c`.
pub open spec fn stripped_end(s: Seq<char>, c: char) -> Seq<char>
    decreases s.len(),
{
    if s.len() > 0 && s.last() == c {
        stripped_end(s.drop_last(), c)
    } else {
        s
    }
}

/// The position in `v` of the first character other than `c`.
fn first_other(v: &Vec<char>, c: char) -> (i: usize)
    ensures
        i <= v@.len(),
        stripped_start(v@, c) == v@.skip(i as int),
{
    let mut i: usize = 0;
    assert(v@.skip(0) == v@);
    while i < v.len() && v[i] == c
        invariant
            i <= v@.len(),
            stripped_start(v@, c) == stripped_start(v@.skip(i as int), c),
        decreases v@.len() - i,
    {
        assert(v@.skip(i as int).drop_first() == v@.skip(i + 1));
        i += 1;
    }
    i
}

/// `s` without any `c` at its start.
pub fn trim_start_matches<'a>(s: &'a str, c: char) -> (r: &'a str)
    ensures
        r@ == stripped_start(s@, c),
{
    let v = chars_of(s);
    let i = first_other(&v, c);
    s.substring_char(i, v.len())
}

/// `s` without any `c` at either end.
pub fn trim_matches<'a>(s: &'a str, c: char) -> (r: &'a str)
    ensures
        r@ == stripped_end(stripped_start(s@, c), c),
{
    let v = chars_of(s);
    let i = first_other(&v, c);
    let mut j: usize = v.len();
    while j > i && v[j - 1] == c
        invariant
            i <= j <= v@.len(),
            stripped_end(stripped_start(v@, c), c) == stripped_end(
                v@.subrange(i as int, j as int),
                c,
            ),
        decreases j,
    {
        assert(v@.subrange(i as int, j as int).drop_last() == v@.subrange(i as int, j - 1));
        j -= 1;
    }
    s.substring_char(i, j)
}

/// The last position of `c` in `s`, or -1.
pub open spec fn find_last(s: Seq<char>, c: char) -> int
    decreases s.len(),
{
    if s.len() == 0 {
        -1
    } else if s.last() == c {
        s.len() - 1
    } else {
        find_last(s.drop_last(), c)
    }
}

/// What stands before and after the last `c` in `s`.
pub open spec fn split_at_last(s: Seq<char>, c: char) -> Option<(Seq<char>, Seq<char>)> {
    let i = find_last(s, c);
    if i < 0 {
        None
    } else {
        Some((s.take(i), s.skip(i + 1)))
    }
}

/// `find_last` gives a position of `c` behind which there is none.
pub proof fn lemma_find_last(s: Seq<char>, c: char)
    ensures
        -1 <= find_last(s, c) < s.len(),
        find_last(s, c) >= 0 ==> s[find_last(s, c)] == c,
        forall|j: int| find_last(s, c) < j < s.len() ==> s[j] != c,
    decreases s.len(),
{
    if s.len() > 0 && s.last() != c {
        lemma_find_last(s.drop_last(), c);
        assert forall|j: int| find_last(s, c) < j < s.len() implies s[j] != c by {
            if j < s.len() - 1 {
                assert(s.drop_last()[j] == s[j]);
            }
        }
    }
}

/// A position of `c` behind which there is none is the one `find_last` gives.
pub proof fn lemma_find_last_is(s: Seq<char>, c: char, i: int)
    requires
        0 <= i < s.len(),
        s[i] == c,
        forall|j: int| i < j < s.len() ==> s[j] != c,
    ensures
        find_last(s, c) == i,
{
    lemma_find_last(s, c);
}

/// What stands before and after the last `c` in `s`.
pub fn rsplit_once<'a>(s: &'a str, c: char) -> (r: Option<(&'a str, &'a str)>)
    ensures
        match r {
            Some((a, b)) => split_at_last(s@, c) == Some((a@, b@)),
            None => split_at_last(s@, c) is None,
        },
{
    let v = chars_of(s);
    let mut i: usize = v.len();
    assert(v@.take(i as int) == v@);
    while i > 0
        invariant
            i <= v@.len(),
            v@ == s@,
            find_last(v@, c) == find_last(v@.take(i as int), c),
        decreases i,
    {
        if v[i - 1] == c {
            let n = v.len();
            let a = s.substring_char(0, i - 1);
            let b = s.substring_char(i, n);
            return Some((a, b));
        }
        assert(v@.take(i as int).drop_last() == v@.take(i - 1));
        i -= 1;
    }
    None
}

/// A line without the carriage return at its end.
pub open spec fn without_cr(s: Seq<char>) -> Seq<char> {
    if s.len() > 0 && s.last() == '\r' {
        s.drop_last()
    } else {
        s
    }
}

/// The lines of `s`: each ends at a line feed, or at a carriage return and a line feed,
/// and the last may lack its line feed.
pub open spec fn lines_of(s: Seq<char>) -> Seq<Seq<char>>
    decreases s.len(),
{
    if s.len() == 0 {
        Seq::empty()
    } else {
        let i = find_line_feed(s);
        proof {
            lemma_find_line_feed(s);
        }
        if i == s.len() {
            seq![s]
        } else {
            seq![without_cr(s.take(i))] + lines_of(s.skip(i + 1))
        }
    }
}

/// The position of the first line feed in `s`, or its length.
pub open spec fn find_line_feed(s: Seq<char>) -> int
    decreases s.len(),
{
    if s.len() == 0 || s[0] == '\n' {
        0
    } else {
        1 + find_line_feed(s.drop_first())
    }
}

/// `find_line_feed` stays in `s`.
pub proof fn lemma_find_line_feed(s: Seq<char>)
    ensures
        0 <= find_line_feed(s) <= s.len(),
    decreases s.len(),
{
    if s.len() > 0 && s[0] != '\n' {
        lemma_find_line_feed(s.drop_first());
    }
}

/// The lines of `s`.
pub fn lines<'a>(s: &'a str) -> (r: Vec<&'a str>)
    ensures
        slice_views(r@) == lines_of(s@),
{
    let v = chars_of(s);
    let mut r: Vec<&'a str> = Vec::new();
    let mut start: usize = 0;
    assert(v@.skip(0) == v@);
    let n = v.len();
    while start < n
        invariant
            start <= n,
            n == v@.len(),
            v@ == s@,
            lines_of(s@) == slice_views(r@) + lines_of(v@.skip(start as int)),
        decreases n - start,
    {
        let ghost rest = v@.skip(start as int);
        let mut i: usize = start;
        assert(v@.skip(i as int) == rest);
        while i < n && v[i] != '\n'
            invariant
                start <= i <= n,
                n == v@.len(),
                find_line_feed(v@.skip(start as int)) == (i - start) + find_line_feed(
                    v@.skip(i as int),
                ),
            decreases n - i,
        {
            assert(v@.skip(i as int).drop_first() == v@.skip(i + 1));
            i += 1;
        }
        let ghost k = i - start;
        assert(find_line_feed(rest) == k);
        let ghost before = r@;
        if i == n {
            r.push(s.substring_char(start, n));
            assert(lines_of(rest) == seq![rest]);
            assert(slice_views(r@) == slice_views(before).push(rest));
            assert(lines_of(v@.skip(n as int)) == Seq::<Seq<char>>::empty());
            assert(lines_of(s@) == slice_views(r@) + lines_of(v@.skip(n as int)));
            start = n;
        } else {
            assert(rest.take(k) == v@.subrange(start as int, i as int));
            assert(rest.skip(k + 1) == v@.skip(i + 1));
            let end: usize = if i > start && v[i - 1] == '\r' {
                assert(rest.take(k).drop_last() == v@.subrange(start as int, i - 1));
                i - 1
            } else {
                i
            };
            r.push(s.substring_char(start, end));
            assert(slice_views(r@) == slice_views(before).push(without_cr(rest.take(k))));
            assert(lines_of(s@) == slice_views(r@) + lines_of(v@.skip(i + 1)));
            start = i + 1;
        }
    }
    assert(v@.skip(start as int) == Seq::<char>::empty());
    assert(slice_views(r@) + lines_of(v@.skip(start as int)) == slice_views(r@));
    r
}

/// The parts with `sep` between each two.
pub open spec fn joined(parts: Seq<Seq<char>>, sep: Seq<char>) -> Seq<char>
    decreases parts.len(),
{
    if parts.len() == 0 {
        Seq::empty()
    } else if parts.len() == 1 {
        parts[0]
    } else {
        joined(parts.drop_last(), sep) + sep + parts.last()
    }
}

/// The parts with `sep` between each two.
pub fn join(parts: &Vec<&str>, sep: &str) -> (r: String)
    ensures
        r@ == joined(slice_views(parts@), sep@),
{
    let mut r = String::new();
    let mut i: usize = 0;
    let ghost all = slice_views(parts@);
    while i < parts.len()
        invariant
            i <= parts@.len(),
            all == slice_views(parts@),
            r@ == joined(all.take(i as int), sep@),
        decreases parts@.len() - i,
    {
        if i > 0 {
            r.append(sep);
        }
        r.append(parts[i]);
        assert(all.take(i + 1).drop_last() == all.take(i as int));
        assert(all.take(i + 1).last() == all[i as int]);
        assert(r@ == joined(all.take(i + 1), sep@));
        i += 1;
    }
    assert(all.take(i as int) == all);
    r
}

/// `s` with every `from` replaced by `to`.
pub open spec fn replaced(s: Seq<char>, from: char, to: char) -> Seq<char> {
    s.map_values(
        |c: char|
            if c == from {
                to
            } else {
                c
            },
    )
}

/// `s` with every `from` replaced by `to`.
pub fn replace(s: &str, from: char, to: char) -> (r: String)
    ensures
        r@ == replaced(s@, from, to),
{
    let v = chars_of(s);
    let mut r = String::new();
    let mut i: usize = 0;
    while i < v.len()
        invariant
            i <= v@.len(),
            v@ == s@,
            r@ == replaced(s@.take(i as int), from, to),
        decreases v@.len() - i,
    {
        let c = v[i];
        r.push(if c == from {
            to
        } else {
            c
        });
        assert(s@.take(i + 1) == s@.take(i as int).push(c));
        assert(replaced(s@.take(i + 1), from, to) == replaced(s@.take(i as int), from, to).push(
            if c == from {
                to
            } else {
                c
            },
        ));
        i += 1;
    }
    assert(s@.take(i as int) == s@);
    r
}

/// The character of a decimal digit.
pub open spec fn digit_char(d: nat) -> char {
    (48 + d) as char
}

/// Whether `c` is a decimal digit.
pub open spec fn is_digit(c: char) -> bool {
    '0' <= c <= '9'
}

/// The value of a decimal digit.
pub open spec fn digit_value(c: char) -> nat {
    (c as int - 48) as nat
}

/// `n` written in decimal.
pub open spec fn decimal(n: nat) -> Seq<char>
    decreases n,
{
    if n < 10 {
        seq![digit_char(n)]
    } else {
        decimal(n / 10).push(digit_char(n % 10))
    }
}

/// `n` written in decimal with at least two digits.
pub open spec fn decimal2(n: nat) -> Seq<char> {
    if n < 10 {
        seq!['0'] + decimal(n)
    } else {
        decimal(n)
    }
}

/// The number that a row of decimal digits writes.
pub open spec fn decimal_value(s: Seq<char>) -> nat
    decreases s.len(),
{
    if s.len() == 0 {
        0
    } else {
        decimal_value(s.drop_last()) * 10 + digit_value(s.last())
    }
}

/// The digits of an unsigned number, which may follow a plus sign.
pub open spec fn unsigned_digits(s: Seq<char>) -> Seq<char> {
    if s.len() > 0 && s[0] == '+' {
        s.skip(1)
    } else {
        s
    }
}

/// Whether `s` is a row of at least one decimal digit.
pub open spec fn all_digits(s: Seq<char>) -> bool {
    s.len() > 0 && forall|i: int| 0 <= i < s.len() ==> is_digit(#[trigger] s[i])
}

/// The number up to `max` that `s` writes.
pub open spec fn parsed_unsigned(s: Seq<char>, max: nat) -> Option<nat> {
    let d = unsigned_digits(s);
    if all_digits(d) && decimal_value(d) <= max {
        Some(decimal_value(d))
    } else {
        None
    }
}

/// The 64-bit signed number that `s` writes.
pub open spec fn parsed_i64(s: Seq<char>) -> Option<int> {
    if s.len() > 0 && s[0] == '-' {
        let d = s.skip(1);
        if all_digits(d) && decimal_value(d) <= 0x8000_0000_0000_0000 {
            Some(-(decimal_value(d) as int))
        } else {
            None
        }
    } else {
        match parsed_unsigned(s, 0x7fff_ffff_ffff_ffff) {
            Some(n) => Some(n as int),
            None => None,
        }
    }
}

/// `n` written in decimal.
pub fn decimal_text(n: u64) -> (r: String)
    ensures
        r@ == decimal(n as nat),
    decreases n,
{
    if n < 10 {
        let mut r = String::new();
        r.push((48u8 + n as u8) as char);
        assert(r@ == seq![digit_char(n as nat)]);
        r
    } else {
        let mut r = decimal_text(n / 10);
        r.push((48u8 + (n % 10) as u8) as char);
        r
    }
}

/// `n` written in decimal with at least two digits.
pub fn decimal2_text(n: u64) -> (r: String)
    ensures
        r@ == decimal2(n as nat),
{
    let d = decimal_text(n);
    if n < 10 {
        let mut r = String::new();
        r.push('0');
        r.append(d.as_str());
        assert(r@ == seq!['0'] + decimal(n as nat));
        r
    } else {
        d
    }
}

/// The value of the digits `v[from..]`, where it is at most `max`.
fn digits_from(v: &Vec<char>, from: usize, max: u64) -> (r: Option<u64>)
    requires
        from <= v@.len(),
    ensures
        match r {
            Some(n) => all_digits(v@.skip(from as int)) && n <= max && decimal_value(
                v@.skip(from as int),
            ) == n,
            None => !(all_digits(v@.skip(from as int)) && decimal_value(v@.skip(from as int))
                <= max),
        },
{
    let ghost d = v@.skip(from as int);
    if from == v.len() {
        return None;
    }
    let mut acc: Option<u64> = Some(0);
    let mut i: usize = from;
    assert(d.take(0) == Seq::<char>::empty());
    while i < v.len()
        invariant
            from <= i <= v@.len(),
            d == v@.skip(from as int),
            forall|j: int| 0 <= j < i - from ==> is_digit(#[trigger] d[j]),
            match acc {
                Some(a) => a <= max && decimal_value(d.take(i - from)) == a,
                None => decimal_value(d.take(i - from)) > max,
            },
        decreases v@.len() - i,
    {
        let c = v[i];
        assert(c == d[i - from]);
        if !('0' <= c && c <= '9') {
            return None;
        }
        let x: u64 = (c as u32 - 48) as u64;
        assert(d.take(i - from + 1).drop_last() == d.take(i - from));
        assert(decimal_value(d.take(i - from + 1)) == decimal_value(d.take(i - from)) * 10 + x);
        acc = match acc {
            Some(a) => if a > (max / 10) {
                assert(a * 10 + x > max);
                None
            } else if x > max - a * 10 {
                None
            } else {
                Some(a * 10 + x)
            },
            None => None,
        };
        i += 1;
    }
    assert(d.take(d.len() as int) == d);
    acc
}

/// The number up to `max` that `s` writes.
pub fn parse_unsigned(s: &str, max: u64) -> (r: Option<u64>)
    ensures
        match r {
            Some(n) => parsed_unsigned(s@, max as nat) == Some(n as nat),
            None => parsed_unsigned(s@, max as nat) is None,
        },
{
    let v = chars_of(s);
    let from: usize = if v.len() > 0 && v[0] == '+' {
        1
    } else {
        0
    };
    assert(v@.skip(0) == v@);
    digits_from(&v, from, max)
}

/// The 64-bit signed number that `s` writes.
pub fn parse_i64(s: &str) -> (r: Option<i64>)
    ensures
        match r {
            Some(n) => parsed_i64(s@) == Some(n as int),
            None => parsed_i64(s@) is None,
        },
{
    let v = chars_of(s);
    if v.len() > 0 && v[0] == '-' {
        match digits_from(&v, 1, 0x8000_0000_0000_0000) {
            Some(n) => if n == 0x8000_0000_0000_0000 {
                Some(i64::MIN)
            } else {
                Some(-(n as i64))
            },
            None => None,
        }
    } else {
        match parse_unsigned(s, 0x7fff_ffff_ffff_ffff) {
            Some(n) => Some(n as i64),
            None => None,
        }
    }
}

/// Whether `a` stands before `b` in the order of their characters' code points.
pub open spec fn before(a: Seq<char>, b: Seq<char>) -> bool
    decreases b.len(),
{
    if b.len() == 0 {
        false
    } else if a.len() == 0 {
        true
    } else if a[0] != b[0] {
        a[0] < b[0]
    } else {
        before(a.drop_first(), b.drop_first())
    }
}

/// Whether `a` stands before `b` in the order of their characters' code points.
pub fn less(a: &str, b: &str) -> (r: bool)
    ensures
        r == before(a@, b@),
{
    let x = chars_of(a);
    let y = chars_of(b);
    let mut i: usize = 0;
    assert(x@.skip(0) == x@ && y@.skip(0) == y@);
    while i < x.len() && i < y.len()
        invariant
            i <= x@.len(),
            i <= y@.len(),
            x@ == a@,
            y@ == b@,
            before(a@, b@) == before(x@.skip(i as int), y@.skip(i as int)),
        decreases x@.len() - i,
    {
        if x[i] != y[i] {
            return x[i] < y[i];
        }
        assert(x@.skip(i as int).drop_first() == x@.skip(i + 1));
        assert(y@.skip(i as int).drop_first() == y@.skip(i + 1));
        i += 1;
    }
    i < y.len()
}

/// A common beginning does not change which of two texts comes first.
pub proof fn lemma_before_prefix(p: Seq<char>, a: Seq<char>, b: Seq<char>)
    ensures
        before(p + a, p + b) == before(a, b),
    decreases p.len(),
{
    if p.len() == 0 {
        assert(p + a == a && p + b == b);
    } else {
        assert((p + a).drop_first() == p.drop_first() + a);
        assert((p + b).drop_first() == p.drop_first() + b);
        lemma_before_prefix(p.drop_first(), a, b);
    }
}

/// The order of texts is total.
pub proof fn lemma_before_total(a: Seq<char>, b: Seq<char>)
    ensures
        before(a, b) || before(b, a) || a == b,
        !(before(a, b) && before(b, a)),
        a == b ==> !before(a, b),
    decreases a.len(),
{
    if a.len() > 0 && b.len() > 0 && a[0] == b[0] {
        lemma_before_total(a.drop_first(), b.drop_first());
        if a.drop_first() == b.drop_first() {
            assert(a == seq![a[0]] + a.drop_first());
            assert(b == seq![b[0]] + b.drop_first());
        }
    } else if a.len() == 0 && b.len() == 0 {
        assert(a == b);
    }
}

/// The order of texts is transitive.
pub proof fn lemma_before_transitive(a: Seq<char>, b: Seq<char>, c: Seq<char>)
    requires
        before(a, b),
        before(b, c),
    ensures
        before(a, c),
    decreases a.len(),
{
    if a.len() > 0 && a[0] == b[0] && b[0] == c[0] {
        lemma_before_transitive(a.drop_first(), b.drop_first(), c.drop_first());
    }
}

/// Whether `s` is one of the strings of `v`.
pub fn is_one_of(v: &Vec<String>, s: &str) -> (r: bool)
    ensures
        r == views(v@).contains(s@),
{
    let mut i: usize = 0;
    while i < v.len()
        invariant
            i <= v@.len(),
            forall|j: int| 0 <= j < i ==> v@[j]@ != s@,
        decreases v@.len() - i,
    {
        if same(v[i].as_str(), s) {
            assert(views(v@)[i as int] == s@);
            return true;
        }
        i += 1;
    }
    assert forall|j: int| 0 <= j < views(v@).len() implies views(v@)[j] != s@ by {
        assert(v@[j]@ != s@);
    }
    false
}

/// The words of `s`: the runs of characters other than ASCII white space.
pub open spec fn words_of(s: Seq<char>) -> Seq<Seq<char>>
    decreases s.len(),
{
    if s.len() == 0 {
        Seq::empty()
    } else if is_ascii_space(s[0]) {
        words_of(s.drop_first())
    } else {
        let n = word_len(s);
        proof {
            lemma_word_len(s);
        }
        seq![s.take(n)] + words_of(s.skip(n))
    }
}

/// How many characters of `s` come before its first ASCII white space.
pub open spec fn word_len(s: Seq<char>) -> int
    decreases s.len(),
{
    if s.len() == 0 || is_ascii_space(s[0]) {
        0
    } else {
        1 + word_len(s.drop_first())
    }
}

/// `word_len` stays in `s`, and is positive where a word begins.
pub proof fn lemma_word_len(s: Seq<char>)
    ensures
        0 <= word_len(s) <= s.len(),
        s.len() > 0 && !is_ascii_space(s[0]) ==> word_len(s) > 0,
    decreases s.len(),
{
    if s.len() > 0 && !is_ascii_space(s[0]) {
        lemma_word_len(s.drop_first());
    }
}

/// The words of `s`.
pub fn words<'a>(s: &'a str) -> (r: Vec<&'a str>)
    ensures
        slice_views(r@) == words_of(s@),
{
    let v = chars_of(s);
    let mut r: Vec<&'a str> = Vec::new();
    let mut start: usize = 0;
    let n = v.len();
    assert(v@.skip(0) == v@);
    while start < n
        invariant
            start <= n,
            n == v@.len(),
            v@ == s@,
            words_of(s@) == slice_views(r@) + words_of(v@.skip(start as int)),
        decreases n - start,
    {
        let ghost rest = v@.skip(start as int);
        if ascii_space(v[start]) {
            assert(rest.drop_first() == v@.skip(start + 1));
            start += 1;
        } else {
            let mut i: usize = start;
            while i < n && !ascii_space(v[i])
                invariant
                    start <= i <= n,
                    n == v@.len(),
                    word_len(v@.skip(start as int)) == (i - start) + word_len(v@.skip(i as int)),
                decreases n - i,
            {
                assert(v@.skip(i as int).drop_first() == v@.skip(i + 1));
                i += 1;
            }
            let ghost k = i - start;
            let ghost before = r@;
            proof {
                lemma_word_len(rest);
            }
            assert(word_len(rest) == k);
            assert(rest.take(k) == v@.subrange(start as int, i as int));
            assert(rest.skip(k) == v@.skip(i as int));
            r.push(s.substring_char(start, i));
            assert(slice_views(r@) == slice_views(before).push(rest.take(k)));
            assert(words_of(s@) == slice_views(r@) + words_of(v@.skip(i as int)));
            start = i;
        }
    }
    assert(v@.skip(start as int) == Seq::<char>::empty());
    assert(slice_views(r@) + words_of(v@.skip(start as int)) == slice_views(r@));
    r
}

/// `a` followed by `b`.
pub fn concat2(a: &str, b: &str) -> (r: String)
    ensures
        r@ == a@ + b@,
{
    let mut r = a.to_owned();
    r.append(b);
    r
}

/// `a`, `b` and `c` in a row.
pub fn concat3(a: &str, b: &str, c: &str) -> (r: String)
    ensures
        r@ == a@ + b@ + c@,
{
    let mut r = concat2(a, b);
    r.append(c);
    r
}

/// `a`, `b`, `c` and `d` in a row.
pub fn concat4(a: &str, b: &str, c: &str, d: &str) -> (r: String)
    ensures
        r@ == a@ + b@ + c@ + d@,
{
    let mut r = concat3(a, b, c);
    r.append(d);
    r
}

/// `a`, `b`, `c`, `d` and `e` in a row.
pub fn concat5(a: &str, b: &str, c: &str, d: &str, e: &str) -> (r: String)
    ensures
        r@ == a@ + b@ + c@ + d@ + e@,
{
    let mut r = concat4(a, b, c, d);
    r.append(e);
    r
}

/// The same texts, owned.
pub fn owned(v: &Vec<&str>) -> (r: Vec<String>)
    ensures
        views(r@) == slice_views(v@),
{
    let mut r: Vec<String> = Vec::new();
    let mut i: usize = 0;
    while i < v.len()
        invariant
            i <= v@.len(),
            r@.len() == i,
            forall|j: int| 0 <= j < i ==> #[trigger] r@[j]@ == v@[j]@,
        decreases v@.len() - i,
    {
        r.push(v[i].to_owned());
        i += 1;
    }
    assert(views(r@) =~= slice_views(v@));
    r
}

/// Appends a text to a list.
pub fn push(v: &mut Vec<String>, s: &str)
    ensures
        views(final(v)@) == views(old(v)@).push(s@),
{
    v.push(s.to_owned());
    assert(views(v@) =~= views(old(v)@).push(s@));
}

/// Appends one list to another.
pub fn push_all(v: &mut Vec<String>, more: &Vec<String>)
    ensures
        views(final(v)@) == views(old(v)@) + views(more@),
{
    let mut i: usize = 0;
    while i < more.len()
        invariant
            i <= more@.len(),
            views(v@) == views(old(v)@) + views(more@.take(i as int)),
        decreases more@.len() - i,
    {
        push(v, more[i].as_str());
        i += 1;
        assert(views(more@.take(i as int)) =~= views(more@.take(i - 1)).push(more@[i - 1]@));
        assert(views(v@) =~= views(old(v)@) + views(more@.take(i as int)));
    }
    assert(more@.take(i as int) == more@);
}

/// A text occurs in another exactly if that one is made of something, the text, and something else.
pub proof fn law_occurs(s: Seq<char>, p: Seq<char>, a: Seq<char>, b: Seq<char>)
    ensures
        occurs(a + p + b, p),
        occurs(s, p) <==> exists|i: int|
            0 <= i <= s.len() - p.len() && #[trigger] s.subrange(i, i + p.len()) == p,
        p.len() > s.len() ==> !occurs(s, p),
{
    let i = a.len() as int;
    assert((a + p + b).subrange(i, i + p.len()) =~= p);
    assert(matches_at(a + p + b, i, p));
    if occurs(s, p) {
        let k = choose|k: int| matches_at(s, k, p);
        assert(s.subrange(k, k + p.len()) == p);
    }
    if exists|i: int| 0 <= i <= s.len() - p.len() && #[trigger] s.subrange(i, i + p.len()) == p {
        let k = choose|i: int|
            0 <= i <= s.len() - p.len() && #[trigger] s.subrange(i, i + p.len()) == p;
        assert(matches_at(s, k, p));
    }
}

/// A text is split where another stands in it first: what comes before, that text and what comes
/// after make up the whole, and it stands nowhere earlier. It is not split exactly if the other
/// stands nowhere in it.
pub proof fn law_split_at_first(s: Seq<char>, p: Seq<char>)
    ensures
        match split_at_first(s, p) {
            Some((a, b)) => s == a + p + b && forall|i: int|
                0 <= i < a.len() ==> #[trigger] s.subrange(i, i + p.len()) != p,
            None => forall|i: int|
                0 <= i <= s.len() - p.len() ==> #[trigger] s.subrange(i, i + p.len()) != p,
        },
{
    lemma_find_from(s, p, 0);
    let k = find(s, p);
    if k >= 0 {
        assert(matches_at(s, k, p));
        assert(s =~= s.take(k) + p + s.skip(k + p.len()));
        assert forall|i: int| 0 <= i < k implies #[trigger] s.subrange(i, i + p.len()) != p by {
            assert(!matches_at(s, i, p));
        }
    } else {
        assert forall|i: int| 0 <= i <= s.len() - p.len() implies #[trigger] s.subrange(
            i,
            i + p.len(),
        ) != p by {
            assert(!matches_at(s, i, p));
        }
    }
}

/// What stands before the first of a character, which does not hold it, and what stands after it,
/// whatever that holds, are what a text is split into.
pub proof fn law_split_at_char(a: Seq<char>, c: char, b: Seq<char>)
    requires
        !a.contains(c),
    ensures
        split_at_first(a + seq![c] + b, seq![c]) == Some((a, b)),
        split_at_first(a, seq![c]) is None,
{
    let s = a + seq![c] + b;
    let k = a.len() as int;
    lemma_find_from(s, seq![c], 0);
    lemma_find_from(a, seq![c], 0);
    assert(s.subrange(k, k + 1) =~= seq![c]);
    assert(matches_at(s, k, seq![c]));
    assert forall|j: int| 0 <= j < k implies !matches_at(s, j, seq![c]) && !matches_at(
        a,
        j,
        seq![c],
    ) by {
        assert(a.contains(a[j]));
        assert(s.subrange(j, j + 1)[0] == a[j]);
        assert(a.subrange(j, j + 1)[0] == a[j]);
    }
    assert(s.take(k) =~= a);
    assert(s.skip(k + 1) =~= b);
}

/// What stands before the last of a character, whatever it holds, and what stands after it, which
/// does not hold it, are what a text is split into. A text without the character is not split.
pub proof fn law_split_at_last(a: Seq<char>, c: char, b: Seq<char>)
    requires
        !b.contains(c),
    ensures
        split_at_last(a + seq![c] + b, c) == Some((a, b)),
        split_at_last(b, c) is None,
{
    let s = a + seq![c] + b;
    let k = a.len() as int;
    assert forall|j: int| k < j < s.len() implies s[j] != c by {
        assert(b.contains(b[j - k - 1]));
    }
    lemma_find_last_is(s, c, k);
    assert(s.take(k) =~= a);
    assert(s.skip(k + 1) =~= b);
    lemma_find_last(b, c);
    if find_last(b, c) >= 0 {
        assert(b.contains(b[find_last(b, c)]));
    }
}

/// A text is taken off the start of another exactly if it stands there, and so at the end.
pub proof fn law_taken_off(s: Seq<char>, p: Seq<char>)
    ensures
        without_prefix(p + s, p) == Some(s),
        without_suffix(s + p, p) == Some(s),
        without_prefix(s, p) matches Some(r) ==> s == p + r,
        without_suffix(s, p) matches Some(r) ==> s == r + p,
{
    assert(p =~= (p + s).subrange(0, p.len() as int));
    assert((p + s).skip(p.len() as int) =~= s);
    let t = s + p;
    assert(p =~= t.subrange(t.len() - p.len(), t.len() as int));
    assert(t.take(t.len() - p.len()) =~= s);
    if p.is_prefix_of(s) {
        assert(s =~= p + s.skip(p.len() as int));
    }
    if p.is_suffix_of(s) {
        assert(s =~= s.take(s.len() - p.len()) + p);
    }
}

/// White space at both ends of a text goes, and nothing else.
pub proof fn law_trimmed(a: Seq<char>, s: Seq<char>, b: Seq<char>)
    requires
        forall|i: int| 0 <= i < a.len() ==> is_space(#[trigger] a[i]),
        forall|i: int| 0 <= i < b.len() ==> is_space(#[trigger] b[i]),
        s.len() > 0 ==> !is_space(s[0]) && !is_space(s.last()),
    ensures
        trimmed(a + s + b) == s,
        trimmed_start(a + s) == s,
{
    if s.len() > 0 {
        lemma_trimmed_start(a, s + b);
        assert(a + (s + b) =~= a + s + b);
        lemma_trimmed_end(s, b);
        lemma_trimmed_start(a, s);
    } else {
        assert forall|i: int| 0 <= i < (a + b).len() implies is_space(#[trigger] (a + b)[i]) by {
            if i < a.len() {
                assert((a + b)[i] == a[i]);
            } else {
                assert((a + b)[i] == b[i - a.len()]);
            }
        }
        assert(a + s + b =~= (a + b) + Seq::empty());
        assert(a + s =~= a + Seq::empty());
        assert(s =~= Seq::empty());
        lemma_trimmed_start(a + b, Seq::empty());
        lemma_trimmed_start(a, Seq::empty());
    }
}

proof fn lemma_trimmed_start(a: Seq<char>, s: Seq<char>)
    requires
        forall|i: int| 0 <= i < a.len() ==> is_space(#[trigger] a[i]),
        s.len() > 0 ==> !is_space(s[0]),
    ensures
        trimmed_start(a + s) == s,
    decreases a.len(),
{
    if a.len() > 0 {
        assert(is_space(a[0]));
        assert((a + s).drop_first() =~= a.drop_first() + s);
        assert forall|i: int| 0 <= i < a.drop_first().len() implies is_space(
            #[trigger] a.drop_first()[i],
        ) by {
            assert(a.drop_first()[i] == a[i + 1]);
        }
        lemma_trimmed_start(a.drop_first(), s);
    } else {
        assert(a + s =~= s);
    }
}

proof fn lemma_trimmed_end(s: Seq<char>, b: Seq<char>)
    requires
        forall|i: int| 0 <= i < b.len() ==> is_space(#[trigger] b[i]),
        s.len() > 0,
        !is_space(s.last()),
    ensures
        trimmed_end(s + b) == s,
    decreases b.len(),
{
    if b.len() > 0 {
        assert(is_space(b[b.len() - 1]));
        assert((s + b).drop_last() =~= s + b.drop_last());
        assert forall|i: int| 0 <= i < b.drop_last().len() implies is_space(
            #[trigger] b.drop_last()[i],
        ) by {
            assert(b.drop_last()[i] == b[i]);
        }
        lemma_trimmed_end(s, b.drop_last());
    } else {
        assert(s + b =~= s);
    }
}

/// All of one character at the ends of a text goes, and nothing else.
pub proof fn law_stripped(c: char, m: nat, s: Seq<char>, n: nat)
    requires
        s.len() > 0,
        s[0] != c,
        s.last() != c,
    ensures
        stripped_start(Seq::new(m, |i: int| c) + s, c) == s,
        stripped_end(s + Seq::new(n, |i: int| c), c) == s,
        stripped_start(Seq::new(m, |i: int| c), c).len() == 0,
        stripped_end(Seq::new(m, |i: int| c), c).len() == 0,
    decreases m + n,
{
    let a = Seq::new(m, |i: int| c);
    let b = Seq::new(n, |i: int| c);
    if m > 0 {
        law_stripped(c, (m - 1) as nat, s, n);
        let a1 = Seq::new((m - 1) as nat, |i: int| c);
        assert((a + s).drop_first() =~= a1 + s);
        assert(a.drop_first() =~= a1);
        assert(a.drop_last() =~= a1);
    } else {
        assert(a + s =~= s);
        assert(a =~= Seq::empty());
        if n > 0 {
            law_stripped(c, m, s, (n - 1) as nat);
            let b1 = Seq::new((n - 1) as nat, |i: int| c);
            assert((s + b).drop_last() =~= s + b1);
        } else {
            assert(s + b =~= s);
        }
    }
}

/// A text is read line by line: what comes before the first line feed is its first line, without a
/// carriage return at its end, and the lines of what comes after follow. What no line feed ends is
/// a line too, unless there is nothing of it.
pub proof fn law_lines(line: Seq<char>, rest: Seq<char>)
    requires
        !line.contains('\n'),
        line.len() == 0 || line.last() != '\r',
    ensures
        lines_of(line + seq!['\n'] + rest) == seq![line] + lines_of(rest),
        lines_of(line + seq!['\r', '\n'] + rest) == seq![line] + lines_of(rest),
        line.len() > 0 ==> lines_of(line) == seq![line],
        lines_of(Seq::empty()).len() == 0,
{
    let a = line + seq!['\n'] + rest;
    lemma_line_feed_at(line, rest);
    assert(a.take(line.len() as int) =~= line);
    assert(a.skip(line.len() as int + 1) =~= rest);
    let cr = line.push('\r');
    let b = line + seq!['\r', '\n'] + rest;
    assert(b =~= cr + seq!['\n'] + rest);
    assert(!cr.contains('\n')) by {
        if cr.contains('\n') {
            let i = cr.index_of('\n');
            assert(line.contains(line[i]));
        }
    }
    lemma_line_feed_at(cr, rest);
    assert(b.take(cr.len() as int) =~= cr);
    assert(b.skip(cr.len() as int + 1) =~= rest);
    assert(cr.drop_last() =~= line);
    lemma_no_line_feed(line);
}

proof fn lemma_line_feed_at(line: Seq<char>, rest: Seq<char>)
    requires
        !line.contains('\n'),
    ensures
        find_line_feed(line + seq!['\n'] + rest) == line.len(),
    decreases line.len(),
{
    let s = line + seq!['\n'] + rest;
    if line.len() > 0 {
        assert(line.contains(line[0]));
        assert(s.drop_first() =~= line.drop_first() + seq!['\n'] + rest);
        assert(!line.drop_first().contains('\n')) by {
            if line.drop_first().contains('\n') {
                let i = line.drop_first().index_of('\n');
                assert(line[i + 1] == '\n');
            }
        }
        lemma_line_feed_at(line.drop_first(), rest);
    } else {
        assert(s[0] == '\n');
    }
}

proof fn lemma_no_line_feed(line: Seq<char>)
    requires
        !line.contains('\n'),
    ensures
        find_line_feed(line) == line.len(),
    decreases line.len(),
{
    if line.len() > 0 {
        assert(line.contains(line[0]));
        assert(!line.drop_first().contains('\n')) by {
            if line.drop_first().contains('\n') {
                let i = line.drop_first().index_of('\n');
                assert(line[i + 1] == '\n');
            }
        }
        lemma_no_line_feed(line.drop_first());
    }
}

/// A text is read word by word: white space before a word does not count, the word reaches up to the
/// next white space, and the words of what comes after follow.
pub proof fn law_words(space: char, word: Seq<char>, rest: Seq<char>)
    requires
        is_ascii_space(space),
        word.len() > 0,
        forall|i: int| 0 <= i < word.len() ==> !is_ascii_space(#[trigger] word[i]),
        rest.len() > 0 ==> is_ascii_space(rest[0]),
    ensures
        words_of(word + rest) == seq![word] + words_of(rest),
        words_of(seq![space] + rest) == words_of(rest),
        words_of(seq![space] + word + rest) == seq![word] + words_of(rest),
        words_of(Seq::empty()).len() == 0,
{
    let s = word + rest;
    lemma_word_at(word, rest);
    assert(!is_ascii_space(word[0]));
    assert(s[0] == word[0]);
    assert(s.take(word.len() as int) =~= word);
    assert(s.skip(word.len() as int) =~= rest);
    assert((seq![space] + rest).drop_first() =~= rest);
    assert((seq![space] + word + rest).drop_first() =~= s);
}

proof fn lemma_word_at(word: Seq<char>, rest: Seq<char>)
    requires
        forall|i: int| 0 <= i < word.len() ==> !is_ascii_space(#[trigger] word[i]),
        rest.len() > 0 ==> is_ascii_space(rest[0]),
    ensures
        word_len(word + rest) == word.len(),
    decreases word.len(),
{
    let s = word + rest;
    if word.len() > 0 {
        assert(!is_ascii_space(word[0]));
        assert(s.drop_first() =~= word.drop_first() + rest);
        assert forall|i: int| 0 <= i < word.drop_first().len() implies !is_ascii_space(
            #[trigger] word.drop_first()[i],
        ) by {
            assert(word.drop_first()[i] == word[i + 1]);
        }
        lemma_word_at(word.drop_first(), rest);
    } else {
        assert(s =~= rest);
    }
}

/// Parts that are joined have the separator between each two, and nowhere else.
pub proof fn law_joined(a: Seq<Seq<char>>, b: Seq<Seq<char>>, sep: Seq<char>, part: Seq<char>)
    ensures
        joined(seq![part], sep) == part,
        joined(Seq::empty(), sep).len() == 0,
        a.len() > 0 && b.len() > 0 ==> joined(a + b, sep) == joined(a, sep) + sep + joined(b, sep),
    decreases b.len(),
{
    if a.len() > 0 && b.len() > 0 {
        let all = a + b;
        assert(all.drop_last() =~= a + b.drop_last());
        assert(all.last() == b.last());
        if b.len() == 1 {
            assert(b.drop_last() =~= Seq::empty());
            assert(a + b.drop_last() =~= a);
            assert(joined(b, sep) == b[0]);
        } else {
            law_joined(a, b.drop_last(), sep, part);
            assert(joined(all, sep) =~= joined(a, sep) + sep + joined(b, sep));
        }
    }
}

/// Replacing a character changes that character wherever it stands, and no other.
pub proof fn law_replaced(s: Seq<char>, from: char, to: char, i: int)
    requires
        0 <= i < s.len(),
    ensures
        replaced(s, from, to).len() == s.len(),
        s[i] == from ==> replaced(s, from, to)[i] == to,
        s[i] != from ==> replaced(s, from, to)[i] == s[i],
{
}

/// A number that is written reads back as itself, with a plus sign or without. It is written without
/// needless zeros, or with one where it must have two digits.
pub proof fn law_decimal(n: nat, max: nat)
    ensures
        parsed_unsigned(decimal(n), max) == if n <= max {
            Some(n)
        } else {
            None
        },
        parsed_unsigned(seq!['+'] + decimal(n), max) == parsed_unsigned(decimal(n), max),
        parsed_unsigned(decimal2(n), max) == parsed_unsigned(decimal(n), max),
        n >= 10 ==> decimal(n)[0] != '0' && decimal2(n) == decimal(n),
        decimal(n).len() == 1 <==> n < 10,
        decimal2(n).len() >= 2,
        decimal2(n).len() == 2 <==> n < 100,
{
    lemma_decimal(n);
    let d = decimal(n);
    assert(is_digit(d[0]));
    assert((seq!['+'] + d).skip(1) =~= d);
    if n < 10 {
        let e = decimal2(n);
        assert(e =~= seq!['0', digit_char(n)]);
        assert(e.drop_last() =~= seq!['0']);
        assert(e.drop_last().drop_last() =~= Seq::<char>::empty());
        reveal_with_fuel(decimal_value, 3);
        assert(decimal_value(e) == n);
        assert(all_digits(e));
    } else if n < 100 {
        lemma_decimal(n / 10);
        assert(decimal(n / 10).len() == 1);
    } else {
        lemma_decimal(n / 10);
    }
}

proof fn lemma_decimal(n: nat)
    ensures
        all_digits(decimal(n)),
        decimal_value(decimal(n)) == n,
        decimal(n).len() == 1 <==> n < 10,
        n > 0 ==> decimal(n)[0] != '0',
    decreases n,
{
    if n < 10 {
        let s = decimal(n);
        assert(s.drop_last() =~= Seq::<char>::empty());
        reveal_with_fuel(decimal_value, 2);
    } else {
        lemma_decimal(n / 10);
        let f = decimal(n / 10);
        let s = decimal(n);
        assert(s.drop_last() =~= f);
        assert(s[0] == f[0]);
        assert forall|i: int| 0 <= i < s.len() implies is_digit(#[trigger] s[i]) by {
            if i < f.len() {
                assert(s[i] == f[i]);
            }
        }
        assert(decimal_value(s) == decimal_value(f) * 10 + n % 10);
    }
}

/// A signed number reads back as itself, and what holds anything but digits is no number.
pub proof fn law_signed(n: nat, s: Seq<char>, i: int)
    ensures
        n <= 0x7fff_ffff_ffff_ffff ==> parsed_i64(decimal(n)) == Some(n as int),
        n <= 0x8000_0000_0000_0000 ==> parsed_i64(seq!['-'] + decimal(n)) == Some(-(n as int)),
        n > 0x8000_0000_0000_0000 ==> parsed_i64(seq!['-'] + decimal(n)) is None,
        n > 0x7fff_ffff_ffff_ffff ==> parsed_i64(decimal(n)) is None,
        s.len() == 0 ==> parsed_i64(s) is None && parsed_unsigned(s, n) is None,
        0 < i < s.len() && !('0' <= s[i] <= '9') ==> parsed_i64(s) is None && parsed_unsigned(
            s,
            n,
        ) is None,
{
    law_decimal(n, 0x7fff_ffff_ffff_ffff);
    lemma_decimal(n);
    let m = seq!['-'] + decimal(n);
    assert(m.skip(1) =~= decimal(n));
    assert(is_digit(decimal(n)[0]));
    if 0 < i < s.len() && !('0' <= s[i] <= '9') {
        assert(!is_digit(s[i]));
        assert(s.skip(1)[i - 1] == s[i]);
        assert(!all_digits(s));
        assert(!all_digits(s.skip(1)));
    }
}

/// The order of texts goes by the first character in which they differ; a text comes before one that
/// goes on where it ends.
pub proof fn law_before(p: Seq<char>, x: char, a: Seq<char>, y: char, b: Seq<char>)
    ensures
        x < y ==> before(p + seq![x] + a, p + seq![y] + b),
        before(p, p + seq![x] + a),
        !before(p, p),
{
    lemma_before_prefix(p, seq![x] + a, seq![y] + b);
    lemma_before_prefix(p, Seq::empty(), seq![x] + a);
    lemma_before_total(p, p);
    assert(p + (seq![x] + a) =~= p + seq![x] + a);
    assert(p + (seq![y] + b) =~= p + seq![y] + b);
    assert(p + Seq::empty() =~= p);
}

/// White space is told apart from what stands in names, numbers and options: it is the space, the
/// tab and the characters that end lines or pages, and no letter, digit or mark of ASCII.
pub proof fn law_spaces(c: char)
    ensures
        c < '\u{80}' ==> (is_space(c) <==> c == ' ' || '\u{9}' <= c <= '\u{d}'),
        is_ascii_space(c) <==> c == ' ' || c == '\t' || c == '\n' || c == '\r' || c == '\u{c}',
        is_ascii_space(c) ==> is_space(c),
{
}

/// The digits of a number, in the order of their values: one more digit at the end makes it ten times
/// as large and adds the digit's value.
pub proof fn law_digits(n: nat, d: nat)
    requires
        d < 10,
    ensures
        decimal(d) == seq!["0123456789"@[d as int]],
        n > 0 ==> decimal(10 * n + d) == decimal(n).push("0123456789"@[d as int]),
        decimal(n).len() > 0,
        forall|i: int| 0 <= i < decimal(n).len() ==> '0' <= #[trigger] decimal(n)[i] <= '9',
{
    reveal_strlit("0123456789");
    assert((10 * n + d) / 10 == n && (10 * n + d) % 10 == d);
    lemma_decimal(n);
    assert forall|i: int| 0 <= i < decimal(n).len() implies '0' <= #[trigger] decimal(n)[i]
        <= '9' by {
        assert(is_digit(decimal(n)[i]));
    }
    if n < 10 {
        assert(decimal(n).len() == 1);
    } else {
        assert(decimal(n).len() == decimal(n / 10).len() + 1);
    }
}

} // verus!
