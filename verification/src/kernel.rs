//! The kernel command line and its parameters.
use crate::text;
use std::borrow::Cow;
use vstd::prelude::*;

verus! {

/// What marks an argument that only the initial ramdisk reads.
pub const INITRD_ARG_PREFIX: &'static str = "rd.";

/// The argument for the options of the root file system.
pub const ROOTFLAGS: &'static str = "rootflags=";

/// Splits the text of a command line into arguments at white space. Quotes are not heeded.
pub fn parse_cmdline(cmdline: &str) -> (r: Vec<String>)
    ensures
        text::views(r@) == text::words_of(cmdline@),
{
    let words = text::words(cmdline);
    text::owned(&words)
}

/// The value of an argument `key=value` with this key.
pub open spec fn value_for(arg: Seq<char>, key: Seq<char>) -> Option<Seq<char>> {
    match text::split_at_first(arg, "="@) {
        Some((k, v)) => if k == key {
            Some(v)
        } else {
            None
        },
        None => None,
    }
}

/// The value of the first argument `key=value` with this key, from the `i`-th on.
pub open spec fn first_value(args: Seq<Seq<char>>, key: Seq<char>, i: int) -> Option<Seq<char>>
    decreases args.len() - i,
{
    if i >= args.len() {
        None
    } else {
        match value_for(args[i], key) {
            Some(v) => Some(v),
            None => first_value(args, key, i + 1),
        }
    }
}

/// The value of the first argument `key=value` with this key.
pub fn find_first_cmdline_arg<'a>(args: &[&'a str], target_key: &str) -> (r: Option<&'a str>)
    ensures
        text::opt_slice_view(r) == first_value(text::slice_views(args@), target_key@, 0),
{
    let mut i: usize = 0;
    let ghost all = text::slice_views(args@);
    while i < args.len()
        invariant
            i <= args@.len(),
            all == text::slice_views(args@),
            first_value(all, target_key@, 0) == first_value(all, target_key@, i as int),
        decreases args@.len() - i,
    {
        let arg: &'a str = args[i];
        assert(all[i as int] == arg@);
        match text::split_once(arg, "=") {
            Some((k, v)) => {
                if text::same(k, target_key) {
                    return Some(v);
                }
            },
            None => {},
        }
        i += 1;
    }
    None
}

/// A byte of a key, with an underscore for a dash.
pub open spec fn canonical_byte(b: u8) -> u8 {
    if b == 45 {
        95
    } else {
        b
    }
}

/// A key with underscores for dashes: the kernel takes the two for the same.
pub open spec fn canonical(k: Seq<u8>) -> Seq<u8> {
    k.map_values(|b: u8| canonical_byte(b))
}

/// The key with underscores for dashes; the key itself where it holds no dash.
pub fn canonical_key<'a>(k: &'a [u8]) -> (r: Cow<'a, [u8]>)
    ensures
        r@ == canonical(k@),
        r is Borrowed <==> !k@.contains(45u8),
{
    let mut i: usize = 0;
    let mut dashed = false;
    while i < k.len()
        invariant
            i <= k@.len(),
            dashed == k@.take(i as int).contains(45u8),
        decreases k@.len() - i,
    {
        assert(k@.take(i + 1) =~= k@.take(i as int).push(k@[i as int]));
        if k[i] == 45 {
            dashed = true;
            assert(k@.take(i + 1)[i as int] == 45);
        } else {
            assert(k@.take(i + 1).contains(45u8) ==> k@.take(i as int).contains(45u8)) by {
                if k@.take(i + 1).contains(45u8) {
                    let j = k@.take(i + 1).index_of(45u8);
                    assert(k@.take(i as int)[j] == 45);
                }
            }
            assert(k@.take(i as int).contains(45u8) ==> k@.take(i + 1).contains(45u8)) by {
                if k@.take(i as int).contains(45u8) {
                    let j = k@.take(i as int).index_of(45u8);
                    assert(k@.take(i + 1)[j] == 45);
                }
            }
        }
        i += 1;
    }
    assert(k@.take(i as int) =~= k@);
    if dashed {
        let mut owned: Vec<u8> = Vec::new();
        let mut i: usize = 0;
        while i < k.len()
            invariant
                i <= k@.len(),
                owned@ == canonical(k@.take(i as int)),
            decreases k@.len() - i,
        {
            let byte = k[i];
            if byte == 45 {
                owned.push(95);
            } else {
                owned.push(byte);
            }
            i += 1;
            assert(canonical(k@.take(i as int)) =~= canonical(k@.take(i - 1)).push(
                canonical_byte(byte),
            ));
        }
        assert(k@.take(i as int) =~= k@);
        Cow::Owned(owned)
    } else {
        assert(canonical(k@) =~= k@) by {
            assert forall|i: int| 0 <= i < k@.len() implies k@[i] != 45 by {
                if k@[i] == 45 {
                    assert(k@.contains(45u8));
                }
            }
        }
        Cow::Borrowed(k)
    }
}

/// Whether a byte can stand in a key: an ASCII letter or digit, a dash or an underscore.
pub open spec fn key_byte(b: u8) -> bool {
    (65 <= b <= 90) || (97 <= b <= 122) || (48 <= b <= 57) || b == 45 || b == 95
}

/// Whether a byte can stand in a value: ASCII, neither white space nor a control character, and no
/// double quote.
pub open spec fn value_byte(b: u8) -> bool {
    33 <= b <= 126 && b != 34
}

/// Whether a byte can stand between double quotes.
pub open spec fn quoted_byte(b: u8) -> bool {
    b != 34
}

/// Whether a byte can stand in a key.
pub fn is_valid_key_byte(b: u8) -> (r: bool)
    ensures
        r == key_byte(b),
{
    (65 <= b && b <= 90) || (97 <= b && b <= 122) || (48 <= b && b <= 57) || b == 45 || b == 95
}

/// Whether a byte can stand in a value.
pub fn is_valid_value_byte(b: u8) -> (r: bool)
    ensures
        r == value_byte(b),
{
    33 <= b && b <= 126 && b != 34
}

/// Whether a byte can stand between double quotes.
pub fn is_valid_quoted_value_byte(b: u8) -> (r: bool)
    ensures
        r == quoted_byte(b),
{
    b != 34
}

/// Whether a byte can stand in a value without quotes.
pub fn is_valid_unquoted_value_byte(b: u8) -> (r: bool)
    ensures
        r == value_byte(b),
{
    33 <= b && b <= 126 && b != 34
}

/// How many bytes from the front on pass a test.
pub open spec fn run(s: Seq<u8>, p: spec_fn(u8) -> bool) -> int
    decreases s.len(),
{
    if s.len() == 0 || !p(s[0]) {
        0
    } else {
        1 + run(s.drop_first(), p)
    }
}

/// What `run` counts.
pub proof fn lemma_run(s: Seq<u8>, p: spec_fn(u8) -> bool)
    ensures
        0 <= run(s, p) <= s.len(),
        forall|i: int| 0 <= i < run(s, p) ==> p(#[trigger] s[i]),
        run(s, p) < s.len() ==> !p(s[run(s, p)]),
    decreases s.len(),
{
    if s.len() > 0 && p(s[0]) {
        let t = s.drop_first();
        lemma_run(t, p);
        assert forall|i: int| 0 <= i < run(s, p) implies p(#[trigger] s[i]) by {
            if i > 0 {
                assert(t[i - 1] == s[i]);
            }
        }
    }
}

/// A run of a known length.
pub proof fn lemma_run_is(s: Seq<u8>, p: spec_fn(u8) -> bool, n: int)
    requires
        0 <= n <= s.len(),
        forall|i: int| 0 <= i < n ==> p(#[trigger] s[i]),
        n < s.len() ==> !p(s[n]),
    ensures
        run(s, p) == n,
{
    lemma_run(s, p);
    let m = run(s, p);
    if m < n {
        assert(p(s[m]));
    }
    if n < m {
        assert(p(s[n]));
    }
}

/// What stands at the start of the input, and what is left.
pub open spec fn split_run(s: Seq<u8>, p: spec_fn(u8) -> bool) -> (Seq<u8>, Seq<u8>) {
    (s.skip(run(s, p)), s.take(run(s, p)))
}

/// A quoted value: what stands between a double quote at the front and the next one.
pub open spec fn quoted_value(s: Seq<u8>) -> Option<(Seq<u8>, Seq<u8>)> {
    if s.len() == 0 || s[0] != 34 {
        None
    } else {
        let (rest, value) = split_run(s.drop_first(), |b: u8| quoted_byte(b));
        if rest.len() == 0 {
            None
        } else {
            Some((rest.drop_first(), value))
        }
    }
}

/// A value: quoted, else the bytes up to the first that cannot stand in one.
pub open spec fn any_value(s: Seq<u8>) -> (Seq<u8>, Seq<u8>) {
    match quoted_value(s) {
        Some(p) => p,
        None => split_run(s, |b: u8| value_byte(b)),
    }
}

/// A parameter at the start of the input: a key and, after an equals sign, a value. What is left of
/// the input comes first.
pub open spec fn parameter(s: Seq<u8>) -> Option<(Seq<u8>, Seq<u8>, Option<Seq<u8>>)> {
    let (rest, key) = split_run(s, |b: u8| key_byte(b));
    if key.len() == 0 {
        None
    } else if rest.len() > 0 && rest[0] == 61 {
        let (left, value) = any_value(rest.drop_first());
        Some((left, key, Some(value)))
    } else {
        Some((rest, key, None))
    }
}

/// A parameter of the kernel command line.
#[derive(Debug)]
pub struct Parameter<'a> {
    pub key: &'a [u8],
    pub canonical_key: Cow<'a, [u8]>,
    pub value: Option<&'a [u8]>,
}

/// The view of an optional slice.
pub open spec fn opt_bytes(o: Option<&[u8]>) -> Option<Seq<u8>> {
    match o {
        Some(b) => Some(b@),
        None => None,
    }
}

/// Whether two slices hold the same bytes.
pub fn same_bytes(a: &[u8], b: &[u8]) -> (r: bool)
    ensures
        r == (a@ == b@),
{
    if a.len() != b.len() {
        return false;
    }
    let mut i: usize = 0;
    while i < a.len()
        invariant
            i <= a@.len(),
            a@.len() == b@.len(),
            forall|j: int| 0 <= j < i ==> a@[j] == b@[j],
        decreases a@.len() - i,
    {
        if a[i] != b[i] {
            return false;
        }
        i += 1;
    }
    assert(a@ =~= b@);
    true
}

fn bytes_of<'b>(c: &'b Cow<'_, [u8]>) -> (r: &'b [u8])
    ensures
        r@ == c@,
{
    match c {
        Cow::Borrowed(b) => b,
        Cow::Owned(v) => v.as_slice(),
    }
}

impl<'a> Parameter<'a> {
    /// Whether the canonical key is that of the key.
    pub open spec fn wf(&self) -> bool {
        self.canonical_key@ == canonical(self.key@)
    }

    pub fn key(&self) -> (r: &[u8])
        ensures
            r@ == self.key@,
    {
        self.key
    }

    pub fn value(&self) -> (r: Option<&[u8]>)
        ensures
            opt_bytes(r) == opt_bytes(self.value),
    {
        self.value
    }

    /// A parameter at the start of the input, with what is left of it.
    pub fn parse(input: &'a [u8]) -> (r: Option<(&'a [u8], Self)>)
        ensures
            match r {
                Some((rest, p)) => p.wf() && parameter(input@) == Some(
                    (rest@, p.key@, opt_bytes(p.value)),
                ),
                None => parameter(input@) is None,
            },
    {
        match Self::parse_key(input) {
            None => None,
            Some((rest, key)) => {
                let (rest, value) = if rest.len() > 0 && rest[0] == 61 {
                    let after = vstd::slice::slice_subrange(rest, 1, rest.len());
                    assert(after@ =~= rest@.drop_first());
                    let (left, value) = Self::parse_value(after);
                    (left, Some(value))
                } else {
                    (rest, None)
                };
                Some((rest, Parameter { key, canonical_key: canonical_key(key), value }))
            },
        }
    }

    /// A key of at least one byte, with what is left of the input.
    pub fn parse_key(input: &'a [u8]) -> (r: Option<(&'a [u8], &'a [u8])>)
        ensures
            match r {
                Some((rest, key)) => key@.len() > 0 && split_run(input@, |b: u8| key_byte(b)) == (
                    rest@,
                    key@,
                ),
                None => split_run(input@, |b: u8| key_byte(b)).1.len() == 0,
            },
    {
        let mut n: usize = 0;
        while n < input.len() && is_valid_key_byte(input[n])
            invariant
                n <= input@.len(),
                forall|i: int| 0 <= i < n ==> key_byte(#[trigger] input@[i]),
            decreases input@.len() - n,
        {
            n += 1;
        }
        proof {
            lemma_run_is(input@, |b: u8| key_byte(b), n as int);
        }
        if n == 0 {
            return None;
        }
        let rest = vstd::slice::slice_subrange(input, n, input.len());
        let key = vstd::slice::slice_subrange(input, 0, n);
        assert(rest@ =~= input@.skip(n as int) && key@ =~= input@.take(n as int));
        Some((rest, key))
    }

    /// A value, with what is left of the input.
    pub fn parse_value(input: &'a [u8]) -> (r: (&'a [u8], &'a [u8]))
        ensures
            any_value(input@) == (r.0@, r.1@),
    {
        match Self::parse_value_quoted(input) {
            Some(r) => r,
            None => Self::parse_value_unquoted(input),
        }
    }

    /// A value without quotes, with what is left of the input.
    pub fn parse_value_unquoted(input: &'a [u8]) -> (r: (&'a [u8], &'a [u8]))
        ensures
            split_run(input@, |b: u8| value_byte(b)) == (r.0@, r.1@),
    {
        let mut n: usize = 0;
        while n < input.len() && is_valid_unquoted_value_byte(input[n])
            invariant
                n <= input@.len(),
                forall|i: int| 0 <= i < n ==> value_byte(#[trigger] input@[i]),
            decreases input@.len() - n,
        {
            n += 1;
        }
        proof {
            lemma_run_is(input@, |b: u8| value_byte(b), n as int);
        }
        let rest = vstd::slice::slice_subrange(input, n, input.len());
        let value = vstd::slice::slice_subrange(input, 0, n);
        assert(rest@ =~= input@.skip(n as int) && value@ =~= input@.take(n as int));
        (rest, value)
    }

    /// A value in double quotes, with what is left of the input.
    pub fn parse_value_quoted(input: &'a [u8]) -> (r: Option<(&'a [u8], &'a [u8])>)
        ensures
            match r {
                Some((rest, value)) => quoted_value(input@) == Some((rest@, value@)),
                None => quoted_value(input@) is None,
            },
    {
        if input.len() == 0 || input[0] != 34 {
            return None;
        }
        let inner = vstd::slice::slice_subrange(input, 1, input.len());
        assert(inner@ =~= input@.drop_first());
        let mut n: usize = 0;
        while n < inner.len() && is_valid_quoted_value_byte(inner[n])
            invariant
                n <= inner@.len(),
                forall|i: int| 0 <= i < n ==> quoted_byte(#[trigger] inner@[i]),
            decreases inner@.len() - n,
        {
            n += 1;
        }
        proof {
            lemma_run_is(inner@, |b: u8| quoted_byte(b), n as int);
        }
        if n == inner.len() {
            return None;
        }
        let value = vstd::slice::slice_subrange(inner, 0, n);
        let rest = vstd::slice::slice_subrange(inner, n + 1, inner.len());
        assert(value@ =~= inner@.take(n as int));
        assert(rest@ =~= inner@.skip(n as int).drop_first());
        Some((rest, value))
    }
}

impl<'a> PartialEq for Parameter<'a> {
    /// Two parameters are the same if their canonical keys and their values are.
    fn eq(&self, other: &Self) -> (r: bool) {
        if !same_bytes(bytes_of(&self.canonical_key), bytes_of(&other.canonical_key)) {
            return false;
        }
        match (self.value, other.value) {
            (Some(ours), Some(other)) => same_bytes(ours, other),
            (None, None) => true,
            _ => false,
        }
    }
}

impl<'a> vstd::std_specs::cmp::PartialEqSpecImpl for Parameter<'a> {
    open spec fn obeys_eq_spec() -> bool {
        true
    }

    open spec fn eq_spec(&self, other: &Self) -> bool {
        self.canonical_key@ == other.canonical_key@ && opt_bytes(self.value) == opt_bytes(
            other.value,
        )
    }
}

impl<'a> Eq for Parameter<'a> {

}

impl<'a> TryFrom<&'a [u8]> for Parameter<'a> {
    type Error = &'static str;

    /// The parameter at the start of the input; what follows it is dropped.
    fn try_from(value: &'a [u8]) -> (r: Result<Self, Self::Error>)
        ensures
            match r {
                Ok(p) => p.wf() && (parameter(value@) matches Some((_, k, v)) && k == p.key@ && v
                    == opt_bytes(p.value)),
                Err(e) => parameter(value@) is None && e@ == "Unable to parse parameter"@,
            },
    {
        match Self::parse(value) {
            Some((_, p)) => Ok(p),
            None => Err("Unable to parse parameter"),
        }
    }
}

impl<'a> vstd::std_specs::convert::TryFromSpecImpl<&'a [u8]> for Parameter<'a> {
    /// The parameter is told by its views, in the contract of `try_from` itself.
    open spec fn obeys_try_from_spec() -> bool {
        false
    }

    open spec fn try_from_spec(value: &'a [u8]) -> Result<Self, Self::Error> {
        Err("Unable to parse parameter")
    }
}

/// Making a key canonical a second time changes nothing, and a canonical key holds no dash.
pub proof fn law_canonical(k: Seq<u8>)
    ensures
        canonical(canonical(k)) == canonical(k),
        !canonical(k).contains(45u8),
        canonical(k).len() == k.len(),
{
    assert(canonical(canonical(k)) =~= canonical(k));
}

/// Nothing of the input is lost: what is left is its end, and the key is its start.
pub proof fn law_parameter_splits(s: Seq<u8>)
    ensures
        parameter(s) matches Some((rest, key, value)) ==> {
            &&& rest.is_suffix_of(s)
            &&& key.is_prefix_of(s)
            &&& key.len() > 0
            &&& key.len() + rest.len() <= s.len()
            &&& forall|i: int| 0 <= i < key.len() ==> key_byte(#[trigger] key[i])
            &&& value is Some <==> key.len() < s.len() && s[key.len() as int] == 61
        },
{
    let kp = |b: u8| key_byte(b);
    lemma_run(s, kp);
    let n = run(s, kp);
    let rest = s.skip(n);
    if rest.len() > 0 && rest[0] == 61 {
        let t = rest.drop_first();
        lemma_run(t, |b: u8| value_byte(b));
        if t.len() > 0 {
            lemma_run(t.drop_first(), |b: u8| quoted_byte(b));
        }
    }
    match parameter(s) {
        Some((left, key, _)) => {
            assert(left =~= s.subrange(s.len() - left.len(), s.len() as int));
            assert(key =~= s.subrange(0, key.len() as int));
        },
        None => {},
    }
}

/// A parameter in canonical form is the same as the one it was made from: dashes and underscores in
/// keys are not told apart.
pub proof fn law_dashes_are_underscores(a: Parameter, b: Parameter)
    requires
        a.wf(),
        b.wf(),
        canonical(a.key@) == canonical(b.key@),
        opt_bytes(a.value) == opt_bytes(b.value),
    ensures
        vstd::std_specs::cmp::PartialEqSpec::eq_spec(&a, &b),
{
}

/// An argument gives its key all that follows its first equals sign, whatever that holds, and gives no
/// other key anything. An argument without an equals sign gives nothing.
pub proof fn law_value_found(key: Seq<char>, value: Seq<char>, other: Seq<char>)
    requires
        !key.contains('='),
    ensures
        value_for(key + "="@ + value, key) == Some(value),
        other != key ==> value_for(key + "="@ + value, other) is None,
        value_for(key, other) is None,
{
    reveal_strlit("=");
    assert("="@ =~= seq!['=']);
    text::law_split_at_char(key, '=', value);
}

/// The first argument that starts with the key and an equals sign counts, wherever it stands, and
/// nothing is found exactly if no argument starts so.
pub proof fn law_first_found(
    before: Seq<Seq<char>>,
    key: Seq<char>,
    value: Seq<char>,
    after: Seq<Seq<char>>,
)
    requires
        !key.contains('='),
        forall|i: int| 0 <= i < before.len() ==> !(key + "="@).is_prefix_of(#[trigger] before[i]),
    ensures
        first_value(before.push(key + "="@ + value) + after, key, 0) == Some(value),
        first_value(before, key, 0) is None,
{
    law_value_found(key, value, key);
    let all = before.push(key + "="@ + value) + after;
    assert forall|i: int| 0 <= i < before.len() implies value_for(#[trigger] before[i], key) is None by {
        lemma_value_prefix(before[i], key);
    }
    lemma_first_value(all, key, before.len() as int, 0);
    lemma_first_none(before, key, 0);
}

proof fn lemma_value_prefix(arg: Seq<char>, key: Seq<char>)
    ensures
        value_for(arg, key) is Some ==> (key + "="@).is_prefix_of(arg),
{
    text::law_split_at_first(arg, "="@);
    match text::split_at_first(arg, "="@) {
        Some((k, v)) => {
            if k == key {
                assert(key + "="@ =~= arg.subrange(0, (key + "="@).len() as int));
            }
        },
        None => {},
    }
}

proof fn lemma_first_value(args: Seq<Seq<char>>, key: Seq<char>, k: int, i: int)
    requires
        0 <= i <= k < args.len(),
        forall|j: int| 0 <= j < k ==> value_for(#[trigger] args[j], key) is None,
        value_for(args[k], key) is Some,
    ensures
        first_value(args, key, i) == value_for(args[k], key),
    decreases k - i,
{
    if i < k {
        assert(value_for(args[i], key) is None);
        lemma_first_value(args, key, k, i + 1);
    }
}

proof fn lemma_first_none(args: Seq<Seq<char>>, key: Seq<char>, i: int)
    requires
        0 <= i <= args.len(),
        forall|j: int| 0 <= j < args.len() ==> value_for(#[trigger] args[j], key) is None,
    ensures
        first_value(args, key, i) is None,
    decreases args.len() - i,
{
    if i < args.len() {
        assert(value_for(args[i], key) is None);
        lemma_first_none(args, key, i + 1);
    }
}

/// A canonical key has an underscore where the key has a dash, and the same byte everywhere else.
pub proof fn law_canonical_bytes(k: Seq<u8>, i: int)
    requires
        0 <= i < k.len(),
    ensures
        k[i] == 45 ==> canonical(k)[i] == 95,
        k[i] != 45 ==> canonical(k)[i] == k[i],
{
}

/// A key is made of the letters and digits of ASCII, dashes and underscores. A value without quotes is
/// made of all that can be seen of ASCII but the double quote, and one in quotes of anything but it.
pub proof fn law_bytes(b: u8)
    ensures
        key_byte(b) <==> ('a' as int <= b <= 'z' as int) || ('A' as int <= b <= 'Z' as int) || (
        '0' as int <= b <= '9' as int) || b == '-' as int || b == '_' as int,
        value_byte(b) <==> b > ' ' as int && b <= '~' as int && b != '"' as int,
        quoted_byte(b) <==> b != '"' as int,
{
}

/// A parameter reads back as it was written: a key alone, a key with a value, and a key with a value
/// in quotes, which may hold white space. What follows it is left.
pub proof fn law_parameter_reads(key: Seq<u8>, value: Seq<u8>, quoted: Seq<u8>, rest: Seq<u8>)
    requires
        key.len() > 0,
        forall|i: int| 0 <= i < key.len() ==> key_byte(#[trigger] key[i]),
        forall|i: int| 0 <= i < value.len() ==> value_byte(#[trigger] value[i]),
        forall|i: int| 0 <= i < quoted.len() ==> #[trigger] quoted[i] != 34,
    ensures
        rest.len() == 0 || (!key_byte(rest[0]) && rest[0] != 61) ==> parameter(key + rest) == Some(
            (rest, key, None::<Seq<u8>>),
        ),
        rest.len() == 0 || !value_byte(rest[0]) ==> (value.len() > 0 || rest.len() == 0 || rest[0]
            != 34 ==> parameter(key + seq![61u8] + value + rest) == Some((rest, key, Some(value)))),
        parameter(key + seq![61u8, 34u8] + quoted + seq![34u8] + rest) == Some(
            (rest, key, Some(quoted)),
        ),
{
    if rest.len() == 0 || (!key_byte(rest[0]) && rest[0] != 61) {
        lemma_key_split(key, rest);
    }
    if (rest.len() == 0 || !value_byte(rest[0])) && (value.len() > 0 || rest.len() == 0 || rest[0]
        != 34) {
        let tail = seq![61u8] + value + rest;
        assert(key + seq![61u8] + value + rest =~= key + tail);
        lemma_key_split(key, tail);
        assert(tail.drop_first() =~= value + rest);
        lemma_value_split(value, rest);
    }
    let tail = seq![61u8, 34u8] + quoted + seq![34u8] + rest;
    assert(key + seq![61u8, 34u8] + quoted + seq![34u8] + rest =~= key + tail);
    lemma_key_split(key, tail);
    let inner = seq![34u8] + quoted + seq![34u8] + rest;
    assert(tail.drop_first() =~= inner);
    lemma_quoted_split(quoted, rest);
}

/// What does not start with a byte of a key is no parameter, and all else is one.
pub proof fn law_no_parameter(s: Seq<u8>)
    ensures
        parameter(s) is None <==> s.len() == 0 || !key_byte(s[0]),
{
    lemma_run(s, |b: u8| key_byte(b));
    if s.len() > 0 && key_byte(s[0]) {
        let p = |b: u8| key_byte(b);
        assert(p(s[0]));
        assert(run(s, p) > 0) by {
            lemma_run(s.drop_first(), p);
        }
    }
}

proof fn lemma_key_split(key: Seq<u8>, rest: Seq<u8>)
    requires
        forall|i: int| 0 <= i < key.len() ==> key_byte(#[trigger] key[i]),
        rest.len() == 0 || !key_byte(rest[0]),
    ensures
        split_run(key + rest, |b: u8| key_byte(b)) == (rest, key),
{
    let s = key + rest;
    let p = |b: u8| key_byte(b);
    assert forall|i: int| 0 <= i < key.len() implies p(#[trigger] s[i]) by {
        assert(s[i] == key[i]);
    }
    lemma_run_is(s, p, key.len() as int);
    assert(s.skip(key.len() as int) =~= rest);
    assert(s.take(key.len() as int) =~= key);
}

proof fn lemma_value_split(value: Seq<u8>, rest: Seq<u8>)
    requires
        forall|i: int| 0 <= i < value.len() ==> value_byte(#[trigger] value[i]),
        rest.len() == 0 || !value_byte(rest[0]),
        value.len() > 0 || rest.len() == 0 || rest[0] != 34,
    ensures
        any_value(value + rest) == (rest, value),
{
    let s = value + rest;
    let p = |b: u8| value_byte(b);
    assert forall|i: int| 0 <= i < value.len() implies p(#[trigger] s[i]) by {
        assert(s[i] == value[i]);
    }
    lemma_run_is(s, p, value.len() as int);
    assert(s.skip(value.len() as int) =~= rest);
    assert(s.take(value.len() as int) =~= value);
    if value.len() > 0 {
        assert(value_byte(value[0]));
        assert(s[0] == value[0]);
    } else {
        assert(s =~= rest);
    }
}

proof fn lemma_quoted_split(quoted: Seq<u8>, rest: Seq<u8>)
    requires
        forall|i: int| 0 <= i < quoted.len() ==> #[trigger] quoted[i] != 34,
    ensures
        any_value(seq![34u8] + quoted + seq![34u8] + rest) == (rest, quoted),
{
    let s = seq![34u8] + quoted + seq![34u8] + rest;
    let t = s.drop_first();
    let p = |b: u8| quoted_byte(b);
    assert(t =~= quoted + seq![34u8] + rest);
    assert forall|i: int| 0 <= i < quoted.len() implies p(#[trigger] t[i]) by {
        assert(t[i] == quoted[i]);
    }
    lemma_run_is(t, p, quoted.len() as int);
    assert(t.take(quoted.len() as int) =~= quoted);
    assert(t.skip(quoted.len() as int).drop_first() =~= rest);
}

/// Parameters that are the same have the same key, dashes and underscores apart, and the same value.
pub proof fn law_same_parameter(a: Parameter, b: Parameter)
    requires
        a.wf(),
        b.wf(),
        vstd::std_specs::cmp::PartialEqSpec::eq_spec(&a, &b),
    ensures
        a.key@.len() == b.key@.len(),
        a.value is Some <==> b.value is Some,
        a.value matches Some(v) ==> v@ == b.value.unwrap()@,
        forall|i: int|
            0 <= i < a.key@.len() ==> #[trigger] a.key@[i] == b.key@[i] || ((a.key@[i] == 45
                || a.key@[i] == 95) && (b.key@[i] == 45 || b.key@[i] == 95)),
{
    assert(canonical(a.key@) == canonical(b.key@));
    assert(canonical(a.key@).len() == a.key@.len() && canonical(b.key@).len() == b.key@.len());
    assert forall|i: int| 0 <= i < a.key@.len() implies #[trigger] a.key@[i] == b.key@[i] || ((
    a.key@[i] == 45 || a.key@[i] == 95) && (b.key@[i] == 45 || b.key@[i] == 95)) by {
        assert(canonical(a.key@)[i] == canonical(b.key@)[i]);
    }
}

} // verus!
