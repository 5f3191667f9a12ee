//! Character-level text operations with their mathematical meaning.
//!
//! Strings are modelled by their `Seq<char>` view. Every operation the
//! registry and the gateway perform on names, paths and URLs (trimming,
//! ASCII case folding, splitting on a separator, prefix stripping) is
//! stated here once as a spec function and implemented against it.
use vstd::prelude::*;

verus! {

/// The characters that a trim removes.
#[derive(Clone, Copy, PartialEq, Eq, Structural, Debug)]
pub enum TrimSet {
    /// Unicode `White_Space`, the set that `str::trim` removes.
    Whitespace,
    /// The character `/`.
    Slash,
}

/// Unicode `White_Space` (the property `char::is_whitespace` tests).
pub open spec fn is_white_space(c: char) -> bool {
    let n = c as u32;
    ||| 0x09 <= n <= 0x0D
    ||| n == 0x20
    ||| n == 0x85
    ||| n == 0xA0
    ||| n == 0x1680
    ||| 0x2000 <= n <= 0x200A
    ||| n == 0x2028
    ||| n == 0x2029
    ||| n == 0x202F
    ||| n == 0x205F
    ||| n == 0x3000
}

impl TrimSet {
    pub open spec fn holds(self, c: char) -> bool {
        match self {
            TrimSet::Whitespace => is_white_space(c),
            TrimSet::Slash => c == '/',
        }
    }

    pub fn test(&self, c: char) -> (r: bool)
        ensures
            r == self.holds(c),
    {
        match self {
            TrimSet::Whitespace => {
                let n: u32 = c as u32;
                (0x09 <= n && n <= 0x0D) || n == 0x20 || n == 0x85 || n == 0xA0 || n == 0x1680
                    || (0x2000 <= n && n <= 0x200A) || n == 0x2028 || n == 0x2029 || n == 0x202F
                    || n == 0x205F || n == 0x3000
            },
            TrimSet::Slash => c == '/',
        }
    }
}

/// `s` with every leading character of `set` removed.
pub open spec fn skip_leading(s: Seq<char>, set: TrimSet) -> Seq<char>
    decreases s.len(),
{
    if s.len() > 0 && set.holds(s[0]) {
        skip_leading(s.drop_first(), set)
    } else {
        s
    }
}

/// `s` with every trailing character of `set` removed.
pub open spec fn skip_trailing(s: Seq<char>, set: TrimSet) -> Seq<char>
    decreases s.len(),
{
    if s.len() > 0 && set.holds(s.last()) {
        skip_trailing(s.drop_last(), set)
    } else {
        s
    }
}

/// `s` with leading and trailing characters of `set` removed
/// (`str::trim` for whitespace, `str::trim_matches('/')` for slashes).
pub open spec fn trim_both(s: Seq<char>, set: TrimSet) -> Seq<char> {
    skip_trailing(skip_leading(s, set), set)
}

/// `str::trim`.
pub open spec fn trim_ws(s: Seq<char>) -> Seq<char> {
    trim_both(s, TrimSet::Whitespace)
}

/// ASCII lower-casing of one character (`char::to_ascii_lowercase`).
pub open spec fn lower_char(c: char) -> char {
    if 'A' <= c && c <= 'Z' {
        ((c as u8) + 32) as u8 as char
    } else {
        c
    }
}

/// ASCII lower-casing of a text (`str::to_ascii_lowercase`).
pub open spec fn ascii_lower(s: Seq<char>) -> Seq<char> {
    s.map_values(|c: char| lower_char(c))
}

/// Equality up to ASCII case (`str::eq_ignore_ascii_case`).
pub open spec fn same_ignoring_ascii_case(a: Seq<char>, b: Seq<char>) -> bool {
    ascii_lower(a) == ascii_lower(b)
}

/// The pieces of `s` between occurrences of `sep` (`str::split(sep)`):
/// never empty, and the empty text gives one empty piece.
pub open spec fn split_on(s: Seq<char>, sep: char) -> Seq<Seq<char>>
    decreases s.len(),
{
    if s.len() == 0 {
        seq![Seq::<char>::empty()]
    } else {
        let init = split_on(s.drop_last(), sep);
        if s.last() == sep {
            init.push(Seq::<char>::empty())
        } else {
            init.update(init.len() - 1, init.last().push(s.last()))
        }
    }
}

/// Whether `s` begins with `c`.
pub open spec fn starts_with_char(s: Seq<char>, c: char) -> bool {
    s.len() > 0 && s[0] == c
}

/// The decimal digit for `d < 10`.
pub open spec fn digit_char(d: nat) -> char {
    ((d + 48) as u8) as char
}

/// The decimal notation of `n`, without leading zeros.
pub open spec fn decimal(n: nat) -> Seq<char>
    decreases n,
{
    if n < 10 {
        seq![digit_char(n)]
    } else {
        decimal(n / 10).push(digit_char(n % 10))
    }
}

proof fn lemma_skip_leading_at(s: Seq<char>, set: TrimSet, i: int)
    requires
        0 <= i <= s.len(),
        forall|k: int| 0 <= k < i ==> set.holds(#[trigger] s[k]),
        i == s.len() || !set.holds(s[i]),
    ensures
        skip_leading(s, set) == s.skip(i),
    decreases i,
{
    if i == 0 {
        assert(s.skip(0) =~= s);
    } else {
        let t = s.drop_first();
        assert forall|k: int| 0 <= k < i - 1 implies set.holds(#[trigger] t[k]) by {
            assert(t[k] == s[k + 1]);
        }
        if i - 1 < t.len() {
            assert(t[i - 1] == s[i]);
        }
        lemma_skip_leading_at(t, set, i - 1);
        assert(t.skip(i - 1) =~= s.skip(i));
    }
}

proof fn lemma_skip_trailing_at(s: Seq<char>, set: TrimSet, m: int)
    requires
        0 <= m <= s.len(),
        forall|k: int| m <= k < s.len() ==> set.holds(#[trigger] s[k]),
        m == 0 || !set.holds(s[m - 1]),
    ensures
        skip_trailing(s, set) == s.take(m),
    decreases s.len() - m,
{
    if m == s.len() {
        assert(s.take(m) =~= s);
    } else {
        let t = s.drop_last();
        assert(set.holds(s[s.len() - 1]));
        assert forall|k: int| m <= k < t.len() implies set.holds(#[trigger] t[k]) by {
            assert(t[k] == s[k]);
        }
        if m > 0 {
            assert(t[m - 1] == s[m - 1]);
        }
        lemma_skip_trailing_at(t, set, m);
        assert(t.take(m) =~= s.take(m));
    }
}

/// The characters of `s`.
pub fn chars_of(s: &str) -> (v: Vec<char>)
    ensures
        v@ == s@,
{
    let n = s.unicode_len();
    let mut v: Vec<char> = Vec::new();
    let mut i: usize = 0;
    while i < n
        invariant
            n == s@.len(),
            i <= n,
            v@ == s@.take(i as int),
        decreases n - i,
    {
        let c = s.get_char(i);
        v.push(c);
        i = i + 1;
        assert(v@ =~= s@.take(i as int));
    }
    assert(s@.take(n as int) =~= s@);
    v
}

/// Appends `c` to `s` (`String::push`).
#[verifier::external_body]
pub fn push_char(s: &mut String, c: char)
    ensures
        final(s)@ == old(s)@.push(c),
{
    s.push(c);
}

/// Appends the characters `v[start..end]` to `out`.
pub fn push_chars(out: &mut String, v: &Vec<char>, start: usize, end: usize)
    requires
        start <= end <= v@.len(),
    ensures
        final(out)@ == old(out)@ + v@.subrange(start as int, end as int),
{
    let ghost init = out@;
    let mut i: usize = start;
    while i < end
        invariant
            start <= i <= end <= v@.len(),
            out@ == init + v@.subrange(start as int, i as int),
        decreases end - i,
    {
        push_char(out, v[i]);
        i = i + 1;
        assert(out@ =~= init + v@.subrange(start as int, i as int));
    }
}

/// A new string holding `v[start..end]`.
pub fn string_of_range(v: &Vec<char>, start: usize, end: usize) -> (s: String)
    requires
        start <= end <= v@.len(),
    ensures
        s@ == v@.subrange(start as int, end as int),
{
    let mut s = String::new();
    push_chars(&mut s, v, start, end);
    assert(s@ =~= v@.subrange(start as int, end as int));
    s
}

/// A new string holding the characters of `v`.
pub fn string_of(v: &Vec<char>) -> (s: String)
    ensures
        s@ == v@,
{
    let s = string_of_range(v, 0, v.len());
    assert(v@.subrange(0, v@.len() as int) =~= v@);
    s
}

/// A new string holding `s`.
pub fn owned(s: &str) -> (r: String)
    ensures
        r@ == s@,
{
    let v = chars_of(s);
    string_of(&v)
}

/// Whether the texts are equal.
pub fn same_text(a: &str, b: &str) -> (r: bool)
    ensures
        r == (a@ == b@),
{
    let n = a.unicode_len();
    let m = b.unicode_len();
    if n != m {
        return false;
    }
    let mut i: usize = 0;
    while i < n
        invariant
            n == a@.len(),
            m == b@.len(),
            n == m,
            i <= n,
            forall|k: int| 0 <= k < i ==> a@[k] == b@[k],
        decreases n - i,
    {
        if a.get_char(i) != b.get_char(i) {
            return false;
        }
        i = i + 1;
    }
    assert(a@ =~= b@);
    true
}

/// Whether `v[start..end]` equals `s`.
pub fn range_equals(v: &Vec<char>, start: usize, end: usize, s: &str) -> (r: bool)
    requires
        start <= end <= v@.len(),
    ensures
        r == (v@.subrange(start as int, end as int) == s@),
{
    let n = s.unicode_len();
    if end - start != n {
        return false;
    }
    let mut i: usize = 0;
    while i < n
        invariant
            start <= end <= v@.len(),
            n == s@.len(),
            end - start == n,
            i <= n,
            forall|k: int| 0 <= k < i ==> v@[start + k] == s@[k],
        decreases n - i,
    {
        if v[start + i] != s.get_char(i) {
            assert(v@.subrange(start as int, end as int)[i as int] != s@[i as int]);
            return false;
        }
        i = i + 1;
    }
    assert(v@.subrange(start as int, end as int) =~= s@);
    true
}

/// Whether two character vectors are equal.
pub fn chars_equal(a: &Vec<char>, b: &Vec<char>) -> (r: bool)
    ensures
        r == (a@ == b@),
{
    if a.len() != b.len() {
        return false;
    }
    let mut i: usize = 0;
    while i < a.len()
        invariant
            a@.len() == b@.len(),
            i <= a@.len(),
            forall|k: int| 0 <= k < i ==> a@[k] == b@[k],
        decreases a@.len() - i,
    {
        if a[i] != b[i] {
            return false;
        }
        i = i + 1;
    }
    assert(a@ =~= b@);
    true
}

/// The bounds `(start, end)` with `v[start..end] == trim_both(v, set)`.
pub fn trim_bounds(v: &Vec<char>, set: TrimSet) -> (r: (usize, usize))
    ensures
        r.0 <= r.1 <= v@.len(),
        v@.subrange(r.0 as int, r.1 as int) == trim_both(v@, set),
{
    let n = v.len();
    let mut i: usize = 0;
    while i < n && set.test(v[i])
        invariant
            n == v@.len(),
            i <= n,
            forall|k: int| 0 <= k < i ==> set.holds(#[trigger] v@[k]),
        decreases n - i,
    {
        i = i + 1;
    }
    proof {
        lemma_skip_leading_at(v@, set, i as int);
    }
    let mut j: usize = n;
    while j > i && set.test(v[j - 1])
        invariant
            n == v@.len(),
            i <= j <= n,
            forall|k: int| j <= k < n ==> set.holds(#[trigger] v@[k]),
        decreases j,
    {
        j = j - 1;
    }
    proof {
        let u = v@.skip(i as int);
        let m = (j - i) as int;
        assert forall|k: int| m <= k < u.len() implies set.holds(#[trigger] u[k]) by {
            assert(u[k] == v@[k + i]);
        }
        if m > 0 {
            assert(u[m - 1] == v@[j - 1]);
        }
        lemma_skip_trailing_at(u, set, m);
        assert(u.take(m) =~= v@.subrange(i as int, j as int));
    }
    (i, j)
}

/// `trim_both(v, set)` as a new vector.
pub fn trimmed(v: &Vec<char>, set: TrimSet) -> (r: Vec<char>)
    ensures
        r@ == trim_both(v@, set),
{
    let (s, e) = trim_bounds(v, set);
    let mut r: Vec<char> = Vec::new();
    let mut i: usize = s;
    while i < e
        invariant
            s <= i <= e <= v@.len(),
            r@ == v@.subrange(s as int, i as int),
        decreases e - i,
    {
        r.push(v[i]);
        i = i + 1;
        assert(r@ =~= v@.subrange(s as int, i as int));
    }
    r
}

/// `v` with its trailing characters of `set` removed.
pub fn without_trailing(v: &Vec<char>, set: TrimSet) -> (r: Vec<char>)
    ensures
        r@ == skip_trailing(v@, set),
{
    let n = v.len();
    let mut j: usize = n;
    while j > 0 && set.test(v[j - 1])
        invariant
            n == v@.len(),
            j <= n,
            forall|k: int| j <= k < n ==> set.holds(#[trigger] v@[k]),
        decreases j,
    {
        j = j - 1;
    }
    proof {
        lemma_skip_trailing_at(v@, set, j as int);
    }
    let mut r: Vec<char> = Vec::new();
    let mut i: usize = 0;
    while i < j
        invariant
            i <= j <= v@.len(),
            r@ == v@.take(i as int),
        decreases j - i,
    {
        r.push(v[i]);
        i = i + 1;
        assert(r@ =~= v@.take(i as int));
    }
    r
}

/// `char::to_ascii_lowercase`.
pub fn lower(c: char) -> (r: char)
    ensures
        r == lower_char(c),
{
    if 'A' <= c && c <= 'Z' {
        ((c as u8) + 32) as char
    } else {
        c
    }
}

/// ASCII lower-casing of a character vector.
pub fn lowered(v: &Vec<char>) -> (r: Vec<char>)
    ensures
        r@ == ascii_lower(v@),
{
    let mut r: Vec<char> = Vec::new();
    let mut i: usize = 0;
    while i < v.len()
        invariant
            i <= v@.len(),
            r@ == ascii_lower(v@.take(i as int)),
        decreases v@.len() - i,
    {
        let c = lower(v[i]);
        r.push(c);
        i = i + 1;
        assert(r@ =~= ascii_lower(v@.take(i as int)));
    }
    assert(v@.take(v@.len() as int) =~= v@);
    r
}

/// Whether the texts are equal up to ASCII case.
pub fn equal_ignoring_ascii_case(a: &str, b: &str) -> (r: bool)
    ensures
        r == same_ignoring_ascii_case(a@, b@),
{
    let la = lowered(&chars_of(a));
    let lb = lowered(&chars_of(b));
    chars_equal(&la, &lb)
}

/// The pieces of `v` between occurrences of `sep`.
pub fn split_chars(v: &Vec<char>, sep: char) -> (r: Vec<Vec<char>>)
    ensures
        r@.map_values(|p: Vec<char>| p@) == split_on(v@, sep),
{
    let mut done: Vec<Vec<char>> = Vec::new();
    let mut cur: Vec<char> = Vec::new();
    let mut i: usize = 0;
    while i < v.len()
        invariant
            i <= v@.len(),
            done@.map_values(|p: Vec<char>| p@).push(cur@) == split_on(v@.take(i as int), sep),
        decreases v@.len() - i,
    {
        let c = v[i];
        let ghost before = done@.map_values(|p: Vec<char>| p@).push(cur@);
        proof {
            assert(v@.take(i + 1).drop_last() =~= v@.take(i as int));
        }
        if c == sep {
            let finished = cur;
            cur = Vec::new();
            done.push(finished);
            assert(done@.map_values(|p: Vec<char>| p@).push(cur@) =~= before.push(
                Seq::<char>::empty(),
            ));
        } else {
            cur.push(c);
            assert(done@.map_values(|p: Vec<char>| p@).push(cur@) =~= before.update(
                before.len() - 1,
                before.last().push(c),
            ));
        }
        i = i + 1;
    }
    assert(v@.take(v@.len() as int) =~= v@);
    done.push(cur);
    assert(done@.map_values(|p: Vec<char>| p@) =~= split_on(v@, sep));
    done
}

/// Appends the decimal notation of `n` to `out`.
pub fn push_decimal(out: &mut String, n: u64)
    ensures
        final(out)@ == old(out)@ + decimal(n as nat),
    decreases n,
{
    if n >= 10 {
        push_decimal(out, n / 10);
    }
    let d: u8 = (n % 10) as u8;
    let c: char = (d + 48) as char;
    assert(c == digit_char((n % 10) as nat));
    push_char(out, c);
    assert(out@ =~= old(out)@ + decimal(n as nat));
}

proof fn lemma_lower_char_idempotent(c: char)
    ensures
        lower_char(lower_char(c)) == lower_char(c),
        is_white_space(lower_char(c)) == is_white_space(c),
{
    if 'A' <= c && c <= 'Z' {
        let d = lower_char(c);
        assert(d as u32 == c as u32 + 32);
    }
}

/// ASCII lower-casing is idempotent.
pub proof fn lemma_ascii_lower_idempotent(s: Seq<char>)
    ensures
        ascii_lower(ascii_lower(s)) == ascii_lower(s),
{
    assert forall|i: int| 0 <= i < s.len() implies #[trigger] ascii_lower(ascii_lower(s))[i]
        == ascii_lower(s)[i] by {
        lemma_lower_char_idempotent(s[i]);
    }
    assert(ascii_lower(ascii_lower(s)) =~= ascii_lower(s));
}

proof fn lemma_skip_leading_shape(s: Seq<char>, set: TrimSet)
    ensures
        skip_leading(s, set).len() == 0 || !set.holds(skip_leading(s, set)[0]),
        skip_leading(s, set) == s.skip(s.len() - skip_leading(s, set).len()),
        skip_leading(s, set).len() <= s.len(),
    decreases s.len(),
{
    if s.len() > 0 && set.holds(s[0]) {
        lemma_skip_leading_shape(s.drop_first(), set);
        let t = skip_leading(s.drop_first(), set);
        assert(s.drop_first().skip(s.drop_first().len() - t.len()) =~= s.skip(s.len() - t.len()));
    } else {
        assert(s.skip(0) =~= s);
    }
}

proof fn lemma_skip_trailing_shape(s: Seq<char>, set: TrimSet)
    ensures
        skip_trailing(s, set).len() == 0 || !set.holds(skip_trailing(s, set).last()),
        skip_trailing(s, set) == s.take(skip_trailing(s, set).len() as int),
        skip_trailing(s, set).len() <= s.len(),
    decreases s.len(),
{
    if s.len() > 0 && set.holds(s.last()) {
        lemma_skip_trailing_shape(s.drop_last(), set);
        let t = skip_trailing(s.drop_last(), set);
        assert(s.drop_last().take(t.len() as int) =~= s.take(t.len() as int));
    } else {
        assert(s.take(s.len() as int) =~= s);
    }
}

/// What a trim returns neither starts nor ends with a character of the
/// trimmed set.
pub proof fn lemma_trim_both_shape(s: Seq<char>, set: TrimSet)
    ensures
        trim_both(s, set).len() == 0 || (!set.holds(trim_both(s, set)[0]) && !set.holds(
            trim_both(s, set).last(),
        )),
{
    let a = skip_leading(s, set);
    lemma_skip_leading_shape(s, set);
    lemma_skip_trailing_shape(a, set);
    let b = skip_trailing(a, set);
    if b.len() > 0 {
        assert(b[0] == a[0]);
    }
}

/// Trimming text that neither starts nor ends with a trimmed character
/// changes nothing.
pub proof fn lemma_trim_both_of_trimmed(s: Seq<char>, set: TrimSet)
    requires
        s.len() == 0 || (!set.holds(s[0]) && !set.holds(s.last())),
    ensures
        trim_both(s, set) == s,
{
}

/// A normalised key (trimmed, then ASCII lower-cased) is its own
/// normalisation: lower-case and without surrounding whitespace.
pub proof fn lemma_normalized_text(s: Seq<char>)
    ensures
        ascii_lower(ascii_lower(trim_ws(s))) == ascii_lower(trim_ws(s)),
        trim_ws(ascii_lower(trim_ws(s))) == ascii_lower(trim_ws(s)),
{
    let t = trim_ws(s);
    let l = ascii_lower(t);
    lemma_ascii_lower_idempotent(t);
    lemma_trim_both_shape(s, TrimSet::Whitespace);
    if t.len() > 0 {
        lemma_lower_char_idempotent(t[0]);
        lemma_lower_char_idempotent(t.last());
        assert(l[0] == lower_char(t[0]));
        assert(l.last() == lower_char(t.last()));
    }
    lemma_trim_both_of_trimmed(l, TrimSet::Whitespace);
}

/// What `skip_trailing` leaves does not end with a character of the set.
pub proof fn lemma_skip_trailing_is_clean(s: Seq<char>, set: TrimSet)
    ensures
        skip_trailing(s, set).len() == 0 || !set.holds(skip_trailing(s, set).last()),
{
    lemma_skip_trailing_shape(s, set);
}

/// ASCII lower-casing turns `A`..`Z` into `a`..`z` and keeps every other
/// character.
pub proof fn law_lower_char_meaning(c: char)
    ensures
        'A' <= c <= 'Z' ==> lower_char(c) as u32 == c as u32 + 32,
        !('A' <= c <= 'Z') ==> lower_char(c) == c,
{
}

/// Trimming removes only characters of the trimmed set, and only at the
/// ends: the text is some characters of the set, then the trimmed text,
/// then some characters of the set; the trimmed text neither starts nor
/// ends with one of them.
pub proof fn law_trim_removes_only_the_set(s: Seq<char>, set: TrimSet)
    ensures
        ({
            let t = trim_both(s, set);
            exists|a: int, b: int|
                0 <= a <= b <= s.len() && t == s.subrange(a, b) && (forall|i: int|
                    0 <= i < a ==> set.holds(#[trigger] s[i])) && (forall|i: int|
                    b <= i < s.len() ==> set.holds(#[trigger] s[i]))
        }),
        trim_both(s, set).len() == 0 || (!set.holds(trim_both(s, set)[0]) && !set.holds(
            trim_both(s, set).last(),
        )),
{
    lemma_trim_both_shape(s, set);
    lemma_skip_leading_removes(s, set);
    let l = skip_leading(s, set);
    lemma_skip_leading_shape(s, set);
    lemma_skip_trailing_removes(l, set);
    lemma_skip_trailing_shape(l, set);
    let a = s.len() - l.len();
    let t = skip_trailing(l, set);
    let b = a + t.len();
    assert(l =~= s.skip(a));
    assert forall|i: int| 0 <= i < t.len() implies #[trigger] t[i] == s.subrange(a, b)[i] by {
        assert(t[i] == l[i]);
        assert(l[i] == s[a + i]);
    }
    assert(t =~= s.subrange(a, b));
    assert forall|i: int| b <= i < s.len() implies set.holds(#[trigger] s[i]) by {
        assert(s[i] == l[i - a]);
        assert(set.holds(l[i - a]));
    }
}

proof fn lemma_skip_leading_removes(s: Seq<char>, set: TrimSet)
    ensures
        skip_leading(s, set) == s.skip(s.len() - skip_leading(s, set).len()),
        forall|i: int|
            0 <= i < s.len() - skip_leading(s, set).len() ==> set.holds(#[trigger] s[i]),
    decreases s.len(),
{
    lemma_skip_leading_shape(s, set);
    if s.len() > 0 && set.holds(s[0]) {
        let t = s.drop_first();
        lemma_skip_leading_removes(t, set);
        assert forall|i: int| 0 <= i < s.len() - skip_leading(s, set).len() implies set.holds(
            #[trigger] s[i],
        ) by {
            if i > 0 {
                assert(s[i] == t[i - 1]);
            }
        }
    }
}

proof fn lemma_skip_trailing_removes(s: Seq<char>, set: TrimSet)
    ensures
        skip_trailing(s, set) == s.take(skip_trailing(s, set).len() as int),
        forall|i: int| skip_trailing(s, set).len() <= i < s.len() ==> set.holds(#[trigger] s[i]),
    decreases s.len(),
{
    lemma_skip_trailing_shape(s, set);
    if s.len() > 0 && set.holds(s.last()) {
        let t = s.drop_last();
        lemma_skip_trailing_removes(t, set);
        assert forall|i: int| skip_trailing(s, set).len() <= i < s.len() implies set.holds(
            #[trigger] s[i],
        ) by {
            if i < s.len() - 1 {
                assert(s[i] == t[i]);
            }
        }
    }
}

/// The pieces joined back together with the separator between them.
pub open spec fn joined(pieces: Seq<Seq<char>>, sep: char) -> Seq<char>
    decreases pieces.len(),
{
    if pieces.len() == 0 {
        Seq::empty()
    } else if pieces.len() == 1 {
        pieces[0]
    } else {
        joined(pieces.drop_last(), sep).push(sep) + pieces.last()
    }
}

/// Splitting loses nothing and keeps no separator: the pieces contain
/// no separator, and joined with it they give back the text.
pub proof fn law_split_rejoins(s: Seq<char>, sep: char)
    ensures
        split_on(s, sep).len() >= 1,
        joined(split_on(s, sep), sep) == s,
        forall|i: int, j: int|
            0 <= i < split_on(s, sep).len() && 0 <= j < split_on(s, sep)[i].len() ==> #[trigger] split_on(
                s,
                sep,
            )[i][j] != sep,
    decreases s.len(),
{
    if s.len() == 0 {
        assert(joined(split_on(s, sep), sep) =~= s);
    } else {
        let t = s.drop_last();
        let c = s.last();
        law_split_rejoins(t, sep);
        let init = split_on(t, sep);
        let r = split_on(s, sep);
        if c == sep {
            assert(r.drop_last() =~= init);
            assert(joined(r, sep) =~= s);
            assert forall|i: int, j: int| 0 <= i < r.len() && 0 <= j < r[i].len() implies #[trigger] r[i][j]
                != sep by {
                if i < init.len() {
                    assert(r[i] == init[i]);
                }
            }
        } else {
            let n = init.len();
            assert(r.drop_last() =~= init.drop_last());
            if n == 1 {
                assert(joined(r, sep) =~= s);
            } else {
                let j0 = joined(init.drop_last(), sep).push(sep);
                assert(joined(init, sep) == j0 + init.last());
                assert(r.last() == init.last().push(c));
                assert(joined(r, sep) == j0 + init.last().push(c));
                assert(j0 + init.last().push(c) =~= (j0 + init.last()).push(c));
                assert(t.push(c) =~= s);
            }
            assert forall|i: int, j: int| 0 <= i < r.len() && 0 <= j < r[i].len() implies #[trigger] r[i][j]
                != sep by {
                if i < n - 1 {
                    assert(r[i] == init[i]);
                } else {
                    assert(r[i] == init.last().push(c));
                    if j < init.last().len() {
                        assert(r[i][j] == init[n - 1][j]);
                    }
                }
            }
        }
    }
}

} // verus!
