//! Kernel options as one text: parameters between white space that is not in double quotes.
use crate::seqs;
use crate::text;
use vstd::prelude::*;

verus! {

/// The prefix of the parameters that dracut reads.
pub const INITRD_ARG_PREFIX: &'static str = "rd.";

/// The parameter with the flags of the root file system.
pub const ROOTFLAGS: &'static str = "rootflags";

/// How many characters the parameter at the front has: up to the first white space that is not in
/// double quotes.
pub open spec fn param_len(s: Seq<char>, quoted: bool) -> int
    decreases s.len(),
{
    if s.len() == 0 || (!quoted && text::is_ascii_space(s[0])) {
        0
    } else {
        1 + param_len(s.drop_first(), quoted != (s[0] == '"'))
    }
}

/// How long a parameter can be.
pub proof fn lemma_param_len(s: Seq<char>, quoted: bool)
    ensures
        0 <= param_len(s, quoted) <= s.len(),
        s.len() > 0 && !text::is_ascii_space(s[0]) ==> param_len(s, quoted) > 0,
    decreases s.len(),
{
    if s.len() > 0 && !(!quoted && text::is_ascii_space(s[0])) {
        lemma_param_len(s.drop_first(), quoted != (s[0] == '"'));
    }
}

/// The parameters of a text.
pub open spec fn params_of(s: Seq<char>) -> Seq<Seq<char>>
    decreases s.len(),
{
    if s.len() == 0 {
        Seq::empty()
    } else if text::is_ascii_space(s[0]) {
        params_of(s.drop_first())
    } else {
        let n = param_len(s, false);
        proof {
            lemma_param_len(s, false);
        }
        seq![s.take(n)] + params_of(s.skip(n))
    }
}

/// The parameters of a text.
pub fn params<'a>(s: &'a str) -> (r: Vec<&'a str>)
    ensures
        text::slice_views(r@) == params_of(s@),
{
    let v = text::chars_of(s);
    let mut r: Vec<&'a str> = Vec::new();
    let mut start: usize = 0;
    let n = v.len();
    assert(v@.skip(0) == v@);
    while start < n
        invariant
            start <= n,
            n == v@.len(),
            v@ == s@,
            params_of(s@) == text::slice_views(r@) + params_of(v@.skip(start as int)),
        decreases n - start,
    {
        let ghost rest = v@.skip(start as int);
        if text::ascii_space(v[start]) {
            assert(rest.drop_first() == v@.skip(start + 1));
            start += 1;
        } else {
            let mut i: usize = start;
            let mut quoted = false;
            while i < n && !(!quoted && text::ascii_space(v[i]))
                invariant
                    start <= i <= n,
                    n == v@.len(),
                    param_len(v@.skip(start as int), false) == (i - start) + param_len(
                        v@.skip(i as int),
                        quoted,
                    ),
                decreases n - i,
            {
                assert(v@.skip(i as int).drop_first() == v@.skip(i + 1));
                quoted = quoted != (v[i] == '"');
                i += 1;
            }
            let ghost k = i - start;
            let ghost before = r@;
            proof {
                lemma_param_len(rest, false);
            }
            assert(param_len(rest, false) == k);
            assert(rest.take(k) == v@.subrange(start as int, i as int));
            assert(rest.skip(k) == v@.skip(i as int));
            r.push(s.substring_char(start, i));
            assert(text::slice_views(r@) == text::slice_views(before).push(rest.take(k)));
            assert(params_of(s@) == text::slice_views(r@) + params_of(v@.skip(i as int)));
            start = i;
        }
    }
    assert(v@.skip(start as int) == Seq::<char>::empty());
    assert(text::slice_views(r@) + params_of(v@.skip(start as int)) == text::slice_views(r@));
    r
}

/// A text without a double quote in front, and whether there was one.
pub open spec fn quote_opened(s: Seq<char>) -> (Seq<char>, bool) {
    match text::without_prefix(s, "\""@) {
        Some(rest) => (rest, true),
        None => (s, false),
    }
}

/// A text without the double quote at its end that closes one in front.
pub open spec fn quote_closed(s: Seq<char>, opened: bool) -> Seq<char> {
    match text::without_suffix(s, "\""@) {
        Some(rest) => if opened {
            rest
        } else {
            s
        },
        None => s,
    }
}

/// The key and the value of a parameter, as the kernel reads them: a double quote in front of the
/// parameter or of its value does not count, nor does the one at the end that closes it.
pub open spec fn parts_of(param: Seq<char>) -> (Seq<char>, Option<Seq<char>>) {
    let (inner, whole) = quote_opened(param);
    match text::split_at_first(inner, "="@) {
        Some((key, value)) => {
            let (v, quoted) = quote_opened(value);
            (key, Some(quote_closed(v, whole || quoted)))
        },
        None => (quote_closed(inner, whole), None),
    }
}

fn open_quote<'a>(s: &'a str) -> (r: (&'a str, bool))
    ensures
        (r.0@, r.1) == quote_opened(s@),
{
    match text::strip_prefix(s, "\"") {
        Some(rest) => (rest, true),
        None => (s, false),
    }
}

fn close_quote<'a>(s: &'a str, opened: bool) -> (r: &'a str)
    ensures
        r@ == quote_closed(s@, opened),
{
    match text::strip_suffix(s, "\"") {
        Some(rest) => if opened {
            rest
        } else {
            s
        },
        None => s,
    }
}

/// The key and the value of a parameter, without the quotes around them.
pub fn param_parts<'a>(param: &'a str) -> (r: (&'a str, Option<&'a str>))
    ensures
        (r.0@, text::opt_slice_view(r.1)) == parts_of(param@),
{
    let (inner, whole) = open_quote(param);
    match text::split_once(inner, "=") {
        Some((key, value)) => {
            let (v, quoted) = open_quote(value);
            (key, Some(close_quote(v, whole || quoted)))
        },
        None => (close_quote(inner, whole), None),
    }
}

/// The key of a parameter, with underscores for dashes.
pub open spec fn key_of(param: Seq<char>) -> Seq<char> {
    text::replaced(parts_of(param).0, '-', '_')
}

/// The key of a parameter, with underscores for dashes.
pub fn param_key(param: &str) -> (r: String)
    ensures
        r@ == key_of(param@),
{
    text::replace(param_parts(param).0, '-', '_')
}

/// Quotes make no difference: a parameter reads the same without them, in quotes as a whole, and
/// with its value in quotes.
pub proof fn law_quotes(key: Seq<char>, value: Seq<char>)
    requires
        !key.contains('"'),
        !key.contains('='),
        !value.contains('"'),
    ensures
        parts_of(key + "="@ + value) == (key, Some(value)),
        parts_of("\""@ + key + "="@ + value + "\""@) == (key, Some(value)),
        parts_of(key + "=\""@ + value + "\""@) == (key, Some(value)),
        parts_of(key) == (key, None::<Seq<char>>),
        parts_of("\""@ + key + "\""@) == (key, None::<Seq<char>>),
{
    lemma_plain(key, value);
    lemma_whole_quoted(key, value);
    lemma_value_quoted(key, value);
    lemma_switch(key);
}

proof fn lemma_plain(key: Seq<char>, value: Seq<char>)
    requires
        !key.contains('"'),
        !key.contains('='),
        !value.contains('"'),
    ensures
        parts_of(key + "="@ + value) == (key, Some(value)),
{
    let s = key + "="@ + value;
    reveal_strlit("=");
    assert(s[0] != '"') by {
        assert(key.len() > 0 ==> key.contains(key[0]));
    }
    lemma_unquoted(s);
    lemma_split_key(key, value);
    lemma_no_quotes(value);
}

proof fn lemma_whole_quoted(key: Seq<char>, value: Seq<char>)
    requires
        !key.contains('='),
        !value.contains('"'),
    ensures
        parts_of("\""@ + key + "="@ + value + "\""@) == (key, Some(value)),
{
    let quote = "\""@;
    let s = key + "="@ + (value + quote);
    assert(quote + key + "="@ + value + quote =~= quote + s);
    lemma_quoted(s);
    lemma_split_key(key, value + quote);
    if value.len() > 0 {
        assert((value + quote)[0] != '"') by {
            assert(value.contains(value[0]));
        }
        lemma_unquoted(value + quote);
        lemma_quoted(value);
    } else {
        lemma_quoted(Seq::empty());
        lemma_unquoted(Seq::empty());
        assert(value + quote =~= quote + Seq::empty());
        assert(value =~= Seq::empty());
    }
}

proof fn lemma_value_quoted(key: Seq<char>, value: Seq<char>)
    requires
        !key.contains('"'),
        !key.contains('='),
        !value.contains('"'),
    ensures
        parts_of(key + "=\""@ + value + "\""@) == (key, Some(value)),
{
    let quote = "\""@;
    let s = key + "="@ + (quote + (value + quote));
    reveal_strlit("=");
    reveal_strlit("\"");
    reveal_strlit("=\"");
    assert(key + "=\""@ + value + quote =~= s);
    assert(s[0] != '"') by {
        assert(key.len() > 0 ==> key.contains(key[0]));
    }
    lemma_unquoted(s);
    lemma_split_key(key, quote + (value + quote));
    lemma_quoted(value + quote);
    lemma_quoted(value);
}

proof fn lemma_switch(key: Seq<char>)
    requires
        !key.contains('"'),
        !key.contains('='),
    ensures
        parts_of(key) == (key, None::<Seq<char>>),
        parts_of("\""@ + key + "\""@) == (key, None::<Seq<char>>),
{
    let quote = "\""@;
    reveal_strlit("\"");
    lemma_no_quotes(key);
    lemma_split_key(key, Seq::empty());
    let s = key + quote;
    assert(quote + key + quote =~= quote + s);
    assert(!s.contains('=')) by {
        if s.contains('=') {
            let i = s.index_of('=');
            assert(key.contains(key[i]));
        }
    }
    lemma_split_key(s, Seq::empty());
    lemma_quoted(s);
    lemma_quoted(key);
}

proof fn lemma_no_quotes(s: Seq<char>)
    requires
        !s.contains('"'),
    ensures
        quote_opened(s) == (s, false),
        forall|b: bool| #[trigger] quote_closed(s, b) == s,
{
    assert(s.len() > 0 ==> s.contains(s[0]) && s.contains(s.last()));
    lemma_unquoted(s);
}

/// A text that does not start with a quote has none in front, and one that does not end with one has
/// none at its end.
proof fn lemma_unquoted(s: Seq<char>)
    ensures
        s.len() == 0 || s[0] != '"' ==> quote_opened(s) == (s, false),
        s.len() == 0 || s.last() != '"' ==> forall|b: bool| #[trigger] quote_closed(s, b) == s,
{
    reveal_strlit("\"");
    if "\""@.is_prefix_of(s) {
        assert(s[0] == s.subrange(0, 1)[0]);
    }
    if "\""@.is_suffix_of(s) {
        assert(s.last() == s.subrange(s.len() - 1, s.len() as int)[0]);
    }
}

/// A quote in front, and one at the end.
proof fn lemma_quoted(s: Seq<char>)
    ensures
        quote_opened("\""@ + s) == (s, true),
        quote_closed(s + "\""@, true) == s,
{
    reveal_strlit("\"");
    let a = "\""@ + s;
    let b = s + "\""@;
    assert("\""@ =~= a.subrange(0, 1));
    assert(a.skip(1) =~= s);
    assert("\""@ =~= b.subrange(b.len() - 1, b.len() as int));
    assert(b.take(b.len() - 1) =~= s);
}

/// What stands before and after the first equals sign.
proof fn lemma_split_key(key: Seq<char>, rest: Seq<char>)
    requires
        !key.contains('='),
    ensures
        text::split_at_first(key + "="@ + rest, "="@) == Some((key, rest)),
        text::split_at_first(key, "="@) is None,
{
    reveal_strlit("=");
    let s = key + "="@ + rest;
    let k = key.len() as int;
    text::lemma_find_from(s, "="@, 0);
    text::lemma_find_from(key, "="@, 0);
    assert(text::matches_at(s, k, "="@)) by {
        assert(s.subrange(k, k + 1) =~= "="@);
    }
    assert forall|j: int| 0 <= j < k implies !text::matches_at(s, j, "="@) && !text::matches_at(
        key,
        j,
        "="@,
    ) by {
        assert(key.contains(key[j]));
        assert(s.subrange(j, j + 1)[0] == key[j]);
        assert(key.subrange(j, j + 1)[0] == key[j]);
    }
    assert(s.take(k) =~= key);
    assert(s.skip(k + 1) =~= rest);
}

/// The parameters with one put in the place of the first that has its key; further ones with that
/// key go. Where none has it, it goes last. `seen` tells whether the first has come already.
pub open spec fn with_param(params: Seq<Seq<char>>, new: Seq<char>, seen: bool) -> Seq<Seq<char>>
    decreases params.len(),
{
    if params.len() == 0 {
        if seen {
            Seq::empty()
        } else {
            seq![new]
        }
    } else if key_of(params[0]) != key_of(new) {
        seq![params[0]] + with_param(params.drop_first(), new, seen)
    } else if seen {
        with_param(params.drop_first(), new, true)
    } else {
        seq![new] + with_param(params.drop_first(), new, true)
    }
}

/// Sets a parameter among kernel options: it takes the place of the first with its key, further
/// ones go, and all others stay. The options are joined by single spaces.
pub fn set_param(options: &str, new: &str) -> (r: String)
    ensures
        r@ == text::joined(with_param(params_of(options@), new@, false), " "@),
{
    let all = params(options);
    let key = param_key(new);
    let mut kept: Vec<&str> = Vec::new();
    let mut seen = false;
    let mut i: usize = 0;
    let ghost views = text::slice_views(all@);
    let ghost whole = with_param(views, new@, false);
    assert(views.skip(0) =~= views);
    assert(text::slice_views(kept@) + whole =~= whole);
    while i < all.len()
        invariant
            i <= all@.len(),
            views == text::slice_views(all@),
            key@ == key_of(new@),
            whole == text::slice_views(kept@) + with_param(views.skip(i as int), new@, seen),
        decreases all@.len() - i,
    {
        let p = all[i];
        let k = param_key(p);
        let ghost rest = views.skip(i as int);
        let ghost before = kept@;
        assert(rest[0] == p@);
        assert(rest.drop_first() =~= views.skip(i + 1));
        if !text::same(k.as_str(), key.as_str()) {
            kept.push(p);
            assert(text::slice_views(kept@) =~= text::slice_views(before).push(p@));
        } else if !seen {
            kept.push(new);
            seen = true;
            assert(text::slice_views(kept@) =~= text::slice_views(before).push(new@));
        }
        i += 1;
        assert(whole =~= text::slice_views(kept@) + with_param(
            views.skip(i as int),
            new@,
            seen,
        ));
    }
    assert(views.skip(i as int).len() == 0);
    if !seen {
        let ghost before = kept@;
        kept.push(new);
        assert(text::slice_views(kept@) =~= text::slice_views(before).push(new@));
    }
    assert(text::slice_views(kept@) =~= whole);
    text::join(&kept, " ")
}

/// Adds a parameter behind kernel options. The options are joined by single spaces.
pub fn add_param(options: &str, new: &str) -> (r: String)
    ensures
        r@ == text::joined(params_of(options@).push(new@), " "@),
{
    let mut all = params(options);
    let ghost before = all@;
    all.push(new);
    assert(text::slice_views(all@) =~= text::slice_views(before).push(new@));
    text::join(&all, " ")
}

/// Setting a parameter leaves all that have another key as they are, in their order, and leaves
/// exactly one with its key: itself.
pub proof fn law_set_param(params: Seq<Seq<char>>, new: Seq<char>)
    ensures
        with_param(params, new, false).filter(|p: Seq<char>| key_of(p) != key_of(new))
            == params.filter(|p: Seq<char>| key_of(p) != key_of(new)),
        with_param(params, new, false).filter(|p: Seq<char>| key_of(p) == key_of(new)) == seq![new],
{
    lemma_set_param(params, new, false);
}

proof fn lemma_set_param(params: Seq<Seq<char>>, new: Seq<char>, seen: bool)
    ensures
        with_param(params, new, seen).filter(|p: Seq<char>| key_of(p) != key_of(new))
            == params.filter(|p: Seq<char>| key_of(p) != key_of(new)),
        with_param(params, new, seen).filter(|p: Seq<char>| key_of(p) == key_of(new)) == if seen {
            Seq::<Seq<char>>::empty()
        } else {
            seq![new]
        },
    decreases params.len(),
{
    let other = |p: Seq<char>| key_of(p) != key_of(new);
    let same = |p: Seq<char>| key_of(p) == key_of(new);
    seqs::lemma_filter_one(new, other);
    seqs::lemma_filter_one(new, same);
    if params.len() == 0 {
        reveal(Seq::filter);
    } else {
        let p = params[0];
        let rest = params.drop_first();
        seqs::lemma_filter_one(p, other);
        seqs::lemma_filter_one(p, same);
        assert(params =~= seq![p] + rest);
        seqs::lemma_filter_concat(seq![p], rest, other);
        if key_of(p) != key_of(new) {
            lemma_set_param(rest, new, seen);
            let w = with_param(rest, new, seen);
            seqs::lemma_filter_concat(seq![p], w, other);
            seqs::lemma_filter_concat(seq![p], w, same);
            assert(with_param(params, new, seen).filter(same) =~= w.filter(same));
        } else {
            lemma_set_param(rest, new, true);
            assert(params.filter(other) =~= rest.filter(other));
            if !seen {
                let w = with_param(rest, new, true);
                seqs::lemma_filter_concat(seq![new], w, other);
                seqs::lemma_filter_concat(seq![new], w, same);
                assert(with_param(params, new, seen).filter(other) =~= w.filter(other));
                assert(with_param(params, new, seen).filter(same) =~= seq![new]);
            }
        }
    }
}

/// How far a parameter reaches: over all that is no white space, and over white space that stands in
/// double quotes.
proof fn lemma_param_at(part: Seq<char>, rest: Seq<char>, quoted: bool)
    requires
        !part.contains('"'),
        !quoted ==> forall|i: int| 0 <= i < part.len() ==> !text::is_ascii_space(#[trigger] part[i]),
    ensures
        param_len(part + rest, quoted) == part.len() + param_len(rest, quoted),
    decreases part.len(),
{
    let s = part + rest;
    if part.len() > 0 {
        let tail = part.drop_first();
        assert(part.contains(part[0]));
        assert(s[0] == part[0]);
        assert(s.drop_first() =~= tail + rest);
        assert(!tail.contains('"')) by {
            if tail.contains('"') {
                let i = tail.index_of('"');
                assert(part[i + 1] == '"');
            }
        }
        assert forall|i: int| 0 <= i < tail.len() && !quoted implies !text::is_ascii_space(
            #[trigger] tail[i],
        ) by {
            assert(tail[i] == part[i + 1]);
        }
        if !quoted {
            assert(!text::is_ascii_space(part[0]));
        }
        lemma_param_at(tail, rest, quoted);
    } else {
        assert(s =~= rest);
    }
}

/// Options are read parameter by parameter: white space before one does not count, it reaches up to
/// the next white space, and the parameters of what comes after follow. White space in double quotes
/// does not end it.
pub proof fn law_params(
    space: char,
    a: Seq<char>,
    quoted: Seq<char>,
    b: Seq<char>,
    rest: Seq<char>,
)
    requires
        text::is_ascii_space(space),
        !a.contains('"') && !quoted.contains('"') && !b.contains('"'),
        a.len() > 0,
        forall|i: int| 0 <= i < a.len() ==> !text::is_ascii_space(#[trigger] a[i]),
        forall|i: int| 0 <= i < b.len() ==> !text::is_ascii_space(#[trigger] b[i]),
        rest.len() > 0 ==> text::is_ascii_space(rest[0]),
    ensures
        params_of(a + rest) == seq![a] + params_of(rest),
        params_of(a + seq!['"'] + quoted + seq!['"'] + b + rest) == seq![
            a + seq!['"'] + quoted + seq!['"'] + b,
        ] + params_of(rest),
        params_of(seq![space] + rest) == params_of(rest),
        params_of(Seq::empty()).len() == 0,
{
    let p = a + seq!['"'] + quoted + seq!['"'] + b;
    let s = p + rest;
    let quote = seq!['"'];
    assert(!text::is_ascii_space(a[0]));
    assert((seq![space] + rest).drop_first() =~= rest);
    // Without quotes.
    lemma_param_at(a, rest, false);
    assert((a + rest)[0] == a[0]);
    assert((a + rest).take(a.len() as int) =~= a);
    assert((a + rest).skip(a.len() as int) =~= rest);
    // With a part in quotes.
    let after = quote + b + rest;
    let within = quote + quoted + after;
    assert(s =~= a + within);
    assert(s[0] == a[0]);
    lemma_param_at(a, within, false);
    assert(within.drop_first() =~= quoted + after);
    lemma_param_at(quoted, after, true);
    assert(after.drop_first() =~= b + rest);
    lemma_param_at(b, rest, false);
    assert(within[0] == '"' && after[0] == '"');
    assert(param_len(within, false) == 1 + param_len(quoted + after, true));
    assert(param_len(after, true) == 1 + param_len(b + rest, false));
    assert(s.take(p.len() as int) =~= p);
    assert(s.skip(p.len() as int) =~= rest);
    assert(a + seq!['"'] + quoted + seq!['"'] + b + rest =~= s);
}

/// A parameter is set in its place: where one with its key stands, the new one takes the place of the
/// first, and nothing before it changes. Where none does, it goes behind all others.
pub proof fn law_set_in_place(a: Seq<Seq<char>>, p: Seq<char>, b: Seq<Seq<char>>, new: Seq<char>)
    requires
        forall|i: int| 0 <= i < a.len() ==> key_of(#[trigger] a[i]) != key_of(new),
    ensures
        key_of(p) == key_of(new) ==> with_param(a.push(p) + b, new, false) == a.push(new) + b.filter(
            |x: Seq<char>| key_of(x) != key_of(new),
        ),
        with_param(a, new, false) == a.push(new),
    decreases a.len(),
{
    let all = a.push(p) + b;
    if a.len() > 0 {
        let tail = a.drop_first();
        assert(key_of(a[0]) != key_of(new));
        assert forall|i: int| 0 <= i < tail.len() implies key_of(#[trigger] tail[i]) != key_of(
            new,
        ) by {
            assert(tail[i] == a[i + 1]);
        }
        law_set_in_place(tail, p, b, new);
        assert(all[0] == a[0]);
        assert(all.drop_first() =~= tail.push(p) + b);
        if key_of(p) == key_of(new) {
            assert(with_param(all, new, false) =~= a.push(new) + b.filter(
                |x: Seq<char>| key_of(x) != key_of(new),
            ));
        }
        assert(with_param(a, new, false) =~= a.push(new));
    } else {
        assert(all[0] == p);
        assert(all.drop_first() =~= b);
        if key_of(p) == key_of(new) {
            lemma_seen(b, new);
            assert(with_param(all, new, false) =~= a.push(new) + b.filter(
                |x: Seq<char>| key_of(x) != key_of(new),
            ));
        }
        assert(with_param(a, new, false) =~= a.push(new));
    }
}

proof fn lemma_seen(params: Seq<Seq<char>>, new: Seq<char>)
    ensures
        with_param(params, new, true) == params.filter(|x: Seq<char>| key_of(x) != key_of(new)),
    decreases params.len(),
{
    let other = |x: Seq<char>| key_of(x) != key_of(new);
    if params.len() == 0 {
        reveal(Seq::filter);
        assert(params.filter(other) =~= Seq::<Seq<char>>::empty());
    } else {
        let p = params[0];
        let rest = params.drop_first();
        lemma_seen(rest, new);
        seqs::lemma_filter_one(p, other);
        assert(params =~= seq![p] + rest);
        seqs::lemma_filter_concat(seq![p], rest, other);
        assert(with_param(params, new, true) =~= params.filter(other));
    }
}

/// Keys that differ in nothing but dashes and underscores are the same key; all others differ.
pub proof fn law_same_key(a: Seq<char>, b: Seq<char>)
    requires
        !a.contains('"') && !a.contains('='),
        !b.contains('"') && !b.contains('='),
    ensures
        key_of(a) == key_of(b) <==> a.len() == b.len() && forall|i: int|
            0 <= i < a.len() ==> #[trigger] a[i] == b[i] || ((a[i] == '-' || a[i] == '_') && (b[i]
                == '-' || b[i] == '_')),
{
    lemma_switch(a);
    lemma_switch(b);
    if key_of(a) == key_of(b) {
        assert(key_of(a).len() == a.len() && key_of(b).len() == b.len());
        assert forall|i: int| 0 <= i < a.len() implies #[trigger] a[i] == b[i] || ((a[i] == '-'
            || a[i] == '_') && (b[i] == '-' || b[i] == '_')) by {
            assert(key_of(a)[i] == key_of(b)[i]);
        }
    }
    if a.len() == b.len() && forall|i: int|
        0 <= i < a.len() ==> #[trigger] a[i] == b[i] || ((a[i] == '-' || a[i] == '_') && (b[i]
            == '-' || b[i] == '_')) {
        assert forall|i: int| 0 <= i < a.len() implies key_of(a)[i] == key_of(b)[i] by {
            assert(a[i] == a[i]);
        }
        assert(key_of(a) =~= key_of(b));
    }
}

} // verus!
