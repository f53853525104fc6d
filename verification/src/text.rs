//! Text as sequences of characters: searching, case folding, trimming,
//! splitting and joining.
//!
//! Every routine here works on `Vec<char>` and states its result over the
//! `Seq<char>` view, so the modules above can speak of strings the way the
//! standard library documents them.

use vstd::prelude::*;

verus! {

broadcast use vstd::string::axiom_spec_iter;

// ---------------------------------------------------------------------------
// Searching
// ---------------------------------------------------------------------------

/// `needle` occurs in `hay` starting at position `i`.
pub open spec fn occurs_at(hay: Seq<char>, needle: Seq<char>, i: int) -> bool {
    &&& 0 <= i
    &&& i + needle.len() <= hay.len()
    &&& hay.subrange(i, i + needle.len()) == needle
}

/// `needle` occurs somewhere in `hay` (as `str::contains` with a string pattern).
pub open spec fn contains_seq(hay: Seq<char>, needle: Seq<char>) -> bool {
    exists|i: int| occurs_at(hay, needle, i)
}

/// `s` begins with `p`.
pub open spec fn starts_with_seq(s: Seq<char>, p: Seq<char>) -> bool {
    p.len() <= s.len() && s.subrange(0, p.len() as int) == p
}

/// `s` ends with `p`.
pub open spec fn ends_with_seq(s: Seq<char>, p: Seq<char>) -> bool {
    p.len() <= s.len() && s.subrange(s.len() - p.len(), s.len() as int) == p
}

/// Some element of `words` occurs in `s`.
pub open spec fn contains_any(s: Seq<char>, words: Seq<Seq<char>>) -> bool {
    exists|k: int| 0 <= k < words.len() && contains_seq(s, #[trigger] words[k])
}

/// `s` ends with some element of `words`.
pub open spec fn ends_with_any(s: Seq<char>, words: Seq<Seq<char>>) -> bool {
    exists|k: int| 0 <= k < words.len() && ends_with_seq(s, #[trigger] words[k])
}

/// `s` is one of `words`.
pub open spec fn is_one_of(s: Seq<char>, words: Seq<Seq<char>>) -> bool {
    exists|k: int| 0 <= k < words.len() && s == #[trigger] words[k]
}

/// Index of the first character satisfying `p`, or `s.len()` when there is none.
pub open spec fn first_where(s: Seq<char>, p: spec_fn(char) -> bool) -> int
    decreases s.len(),
{
    if s.len() == 0 {
        0
    } else if p(s[0]) {
        0
    } else {
        1 + first_where(s.drop_first(), p)
    }
}

/// Number of characters at the end of `s` that satisfy `p`, counted from the end
/// up to the last character that does not.
pub open spec fn trailing_where(s: Seq<char>, p: spec_fn(char) -> bool) -> int
    decreases s.len(),
{
    if s.len() == 0 {
        0
    } else if p(s.last()) {
        1 + trailing_where(s.drop_last(), p)
    } else {
        0
    }
}

/// What `first_where` means.
pub proof fn lemma_first_where(s: Seq<char>, p: spec_fn(char) -> bool)
    ensures
        0 <= first_where(s, p) <= s.len(),
        forall|j: int| 0 <= j < first_where(s, p) ==> !p(#[trigger] s[j]),
        first_where(s, p) < s.len() ==> p(s[first_where(s, p)]),
    decreases s.len(),
{
    if s.len() > 0 && !p(s[0]) {
        lemma_first_where(s.drop_first(), p);
        assert forall|j: int| 0 <= j < first_where(s, p) implies !p(#[trigger] s[j]) by {
            if j > 0 {
                assert(s[j] == s.drop_first()[j - 1]);
            }
        }
    }
}

/// `first_where` is the only index with its defining properties.
pub proof fn lemma_first_where_unique(s: Seq<char>, p: spec_fn(char) -> bool, i: int)
    requires
        0 <= i <= s.len(),
        forall|j: int| 0 <= j < i ==> !p(#[trigger] s[j]),
        i < s.len() ==> p(s[i]),
    ensures
        first_where(s, p) == i,
{
    lemma_first_where(s, p);
    let f = first_where(s, p);
    if f < i {
        assert(!p(s[f]));
    } else if i < f {
        assert(!p(s[i]));
    }
}

/// What `trailing_where` means.
pub proof fn lemma_trailing_where(s: Seq<char>, p: spec_fn(char) -> bool)
    ensures
        0 <= trailing_where(s, p) <= s.len(),
        forall|j: int| s.len() - trailing_where(s, p) <= j < s.len() ==> p(#[trigger] s[j]),
        trailing_where(s, p) < s.len() ==> !p(s[s.len() - trailing_where(s, p) - 1]),
    decreases s.len(),
{
    if s.len() > 0 && p(s.last()) {
        lemma_trailing_where(s.drop_last(), p);
        assert forall|j: int| s.len() - trailing_where(s, p) <= j < s.len() implies p(
            #[trigger] s[j],
        ) by {
            if j < s.len() - 1 {
                assert(s[j] == s.drop_last()[j]);
            }
        }
        if trailing_where(s, p) < s.len() {
            assert(s[s.len() - trailing_where(s, p) - 1] == s.drop_last()[s.drop_last().len()
                - trailing_where(s.drop_last(), p) - 1]);
        }
    }
}

/// `trailing_where` is the only count with its defining properties.
pub proof fn lemma_trailing_where_unique(s: Seq<char>, p: spec_fn(char) -> bool, t: int)
    requires
        0 <= t <= s.len(),
        forall|j: int| s.len() - t <= j < s.len() ==> p(#[trigger] s[j]),
        t < s.len() ==> !p(s[s.len() - t - 1]),
    ensures
        trailing_where(s, p) == t,
{
    lemma_trailing_where(s, p);
    let f = trailing_where(s, p);
    if f < t {
        assert(p(s[s.len() - f - 1]));
    } else if t < f {
        assert(p(s[s.len() - t - 1]));
    }
}

/// The characters of a string slice, in order.
pub fn chars_of(s: &str) -> (r: Vec<char>)
    ensures
        r@ == s@,
{
    let mut r: Vec<char> = Vec::new();
    for c in it: s.chars()
        invariant
            r@ == it.seq().take(it.index() as int),
            it.seq() == s@,
    {
        r.push(c);
    }
    r
}

/// A `String` holding exactly the characters of `v`.
///
/// Trusted: calls std's `FromIterator<&char> for String`, documented to append
/// each character of the iterator in order.
#[verifier::external_body]
pub(crate) fn string_of(v: &Vec<char>) -> (r: String)
    ensures
        r@ == v@,
{
    v.iter().collect()
}

/// An owned copy of a string slice.
pub fn owned(s: &str) -> (r: String)
    ensures
        r@ == s@,
{
    string_of(&chars_of(s))
}

/// `needle` occurs in `hay` at position `i`.
pub fn matches_at(hay: &Vec<char>, needle: &Vec<char>, i: usize) -> (r: bool)
    requires
        i + needle.len() <= hay.len(),
    ensures
        r == occurs_at(hay@, needle@, i as int),
{
    let mut k: usize = 0;
    while k < needle.len()
        invariant
            k <= needle.len(),
            i + needle.len() <= hay.len(),
            forall|j: int| 0 <= j < k ==> hay@[i + j] == needle@[j],
        decreases needle.len() - k,
    {
        if hay[i + k] != needle[k] {
            assert(hay@.subrange(i as int, i + needle.len())[k as int] != needle@[k as int]);
            return false;
        }
        k += 1;
    }
    assert(hay@.subrange(i as int, i + needle.len()) =~= needle@);
    true
}

/// Position of the first occurrence of `needle` in `hay` at or after `from`.
pub fn find_from(hay: &Vec<char>, needle: &Vec<char>, from: usize) -> (r: Option<usize>)
    ensures
        r matches Some(i) ==> from <= i && occurs_at(hay@, needle@, i as int) && forall|j: int|
            from <= j < i ==> !occurs_at(hay@, needle@, j),
        r is None ==> forall|j: int| from <= j ==> !occurs_at(hay@, needle@, j),
{
    if needle.len() > hay.len() || from > hay.len() - needle.len() {
        return None;
    }
    let last = hay.len() - needle.len();
    let mut i = from;
    loop
        invariant
            from <= i <= last,
            last == hay.len() - needle.len(),
            forall|j: int| from <= j < i ==> !occurs_at(hay@, needle@, j),
        decreases last - i,
    {
        if matches_at(hay, needle, i) {
            return Some(i);
        }
        if i == last {
            return None;
        }
        i += 1;
    }
}

/// Whether `needle` occurs in `hay` (as `str::contains`).
pub fn contains(hay: &Vec<char>, needle: &Vec<char>) -> (r: bool)
    ensures
        r == contains_seq(hay@, needle@),
{
    match find_from(hay, needle, 0) {
        Some(i) => true,
        None => false,
    }
}

/// Whether `needle`, given as a string slice, occurs in `hay`.
pub fn contains_str(hay: &Vec<char>, needle: &str) -> (r: bool)
    ensures
        r == contains_seq(hay@, needle@),
{
    let n = chars_of(needle);
    contains(hay, &n)
}

/// Whether `s` begins with `p`.
pub fn starts_with(s: &Vec<char>, p: &str) -> (r: bool)
    ensures
        r == starts_with_seq(s@, p@),
{
    let p = chars_of(p);
    if p.len() > s.len() {
        return false;
    }
    let r = matches_at(s, &p, 0);
    assert(r == starts_with_seq(s@, p@));
    r
}

/// Whether `s` ends with `p`.
pub fn ends_with(s: &Vec<char>, p: &str) -> (r: bool)
    ensures
        r == ends_with_seq(s@, p@),
{
    let p = chars_of(p);
    if p.len() > s.len() {
        return false;
    }
    let r = matches_at(s, &p, s.len() - p.len());
    assert(r == ends_with_seq(s@, p@));
    r
}

/// Whether any of `words` occurs in `s`.
pub fn contains_any_of(s: &Vec<char>, words: &[&str]) -> (r: bool)
    ensures
        r == contains_any(s@, words@.map_values(|w: &str| w@)),
{
    let ghost ws = words@.map_values(|w: &str| w@);
    let mut k: usize = 0;
    while k < words.len()
        invariant
            k <= words.len(),
            ws == words@.map_values(|w: &str| w@),
            forall|j: int| 0 <= j < k ==> !contains_seq(s@, #[trigger] ws[j]),
        decreases words.len() - k,
    {
        if contains_str(s, words[k]) {
            assert(contains_seq(s@, ws[k as int]));
            return true;
        }
        k += 1;
    }
    false
}

/// Whether `s` ends with any of `words`.
pub fn ends_with_any_of(s: &Vec<char>, words: &[&str]) -> (r: bool)
    ensures
        r == ends_with_any(s@, words@.map_values(|w: &str| w@)),
{
    let ghost ws = words@.map_values(|w: &str| w@);
    let mut k: usize = 0;
    while k < words.len()
        invariant
            k <= words.len(),
            ws == words@.map_values(|w: &str| w@),
            forall|j: int| 0 <= j < k ==> !ends_with_seq(s@, #[trigger] ws[j]),
        decreases words.len() - k,
    {
        if ends_with(s, words[k]) {
            assert(ends_with_seq(s@, ws[k as int]));
            return true;
        }
        k += 1;
    }
    false
}

/// Whether `s` equals one of `words`.
pub fn is_one_of_strs(s: &Vec<char>, words: &[&str]) -> (r: bool)
    ensures
        r == is_one_of(s@, words@.map_values(|w: &str| w@)),
{
    let ghost ws = words@.map_values(|w: &str| w@);
    let mut k: usize = 0;
    while k < words.len()
        invariant
            k <= words.len(),
            ws == words@.map_values(|w: &str| w@),
            forall|j: int| 0 <= j < k ==> s@ != #[trigger] ws[j],
        decreases words.len() - k,
    {
        let w = chars_of(words[k]);
        if w.len() == s.len() && matches_at(s, &w, 0) {
            assert(s@ =~= ws[k as int]);
            return true;
        }
        assert(s@ != ws[k as int]) by {
            assert(w@ == ws[k as int]);
            if s@ == ws[k as int] {
                assert(s@.subrange(0, s@.len() as int) =~= s@);
                assert(occurs_at(s@, w@, 0));
            }
        }
        k += 1;
    }
    false
}

/// Whether the two character sequences are equal.
pub fn eq_chars(a: &Vec<char>, b: &Vec<char>) -> (r: bool)
    ensures
        r == (a@ == b@),
{
    if a.len() != b.len() {
        return false;
    }
    let r = matches_at(a, b, 0);
    proof {
        if r {
            assert(a@ =~= b@);
        }
        if a@ == b@ {
            assert(a@.subrange(0, b.len() as int) =~= a@);
        }
    }
    r
}

// ---------------------------------------------------------------------------
// Case folding
// ---------------------------------------------------------------------------

/// `char::to_ascii_lowercase`: `A`..=`Z` become `a`..=`z`, everything else stays.
pub open spec fn lower_ascii_char(c: char) -> char {
    if 'A' <= c && c <= 'Z' {
        ((c as u32) + 32) as char
    } else {
        c
    }
}

/// `str::to_ascii_lowercase`.
pub open spec fn ascii_lower(s: Seq<char>) -> Seq<char> {
    s.map_values(|c: char| lower_ascii_char(c))
}

/// One character, ASCII-lowercased.
pub fn lower_char(c: char) -> (r: char)
    ensures
        r == lower_ascii_char(c),
{
    if 'A' <= c && c <= 'Z' {
        let b = (c as u8) + 32;
        assert((c as u32) + 32 < 128);
        b as char
    } else {
        c
    }
}

/// `s`, ASCII-lowercased.
pub fn to_ascii_lower(s: &Vec<char>) -> (r: Vec<char>)
    ensures
        r@ == ascii_lower(s@),
{
    let mut r: Vec<char> = Vec::new();
    let mut i: usize = 0;
    while i < s.len()
        invariant
            i <= s.len(),
            r@ == ascii_lower(s@.take(i as int)),
        decreases s.len() - i,
    {
        let c = lower_char(s[i]);
        r.push(c);
        i += 1;
        assert(ascii_lower(s@.take(i as int)) =~= ascii_lower(s@.take(i - 1)).push(c));
    }
    assert(s@.take(i as int) =~= s@);
    r
}

/// What `str::to_lowercase` returns for a string: the lowercase equivalent
/// under the Unicode Derived Core Property `Lowercase`, with its context rules.
pub uninterp spec fn unicode_lowercase(s: Seq<char>) -> Seq<char>;

/// `s.to_lowercase()`.
///
/// Trusted: calls std's `str::to_lowercase`. Its result is a function of the
/// input alone (Unicode tables fixed in std, no locale); the contract names it
/// `unicode_lowercase` and says nothing more about it.
#[verifier::external_body]
pub(crate) fn to_lowercase(s: &str) -> (r: String)
    ensures
        r@ == unicode_lowercase(s@),
{
    s.to_lowercase()
}

/// The Unicode-lowercased characters of `s`.
pub fn lower_chars(s: &str) -> (r: Vec<char>)
    ensures
        r@ == unicode_lowercase(s@),
{
    let l = to_lowercase(s);
    chars_of(l.as_str())
}

// ---------------------------------------------------------------------------
// Whitespace and trimming
// ---------------------------------------------------------------------------

/// `char::is_whitespace`: the Unicode `White_Space` property.
pub open spec fn is_ws(c: char) -> bool {
    ||| c == '\t'
    ||| c == '\n'
    ||| c == '\x0B'
    ||| c == '\x0C'
    ||| c == '\r'
    ||| c == ' '
    ||| c == '\u{85}'
    ||| c == '\u{A0}'
    ||| c == '\u{1680}'
    ||| ('\u{2000}' <= c && c <= '\u{200A}')
    ||| c == '\u{2028}'
    ||| c == '\u{2029}'
    ||| c == '\u{202F}'
    ||| c == '\u{205F}'
    ||| c == '\u{3000}'
}

/// `char::is_whitespace`.
pub fn is_whitespace(c: char) -> (r: bool)
    ensures
        r == is_ws(c),
{
    c == '\t' || c == '\n' || c == '\x0B' || c == '\x0C' || c == '\r' || c == ' ' || c
        == '\u{85}' || c == '\u{A0}' || c == '\u{1680}' || ('\u{2000}' <= c && c <= '\u{200A}')
        || c == '\u{2028}' || c == '\u{2029}' || c == '\u{202F}' || c == '\u{205F}' || c
        == '\u{3000}'
}

/// `str::trim`: without the leading and trailing whitespace.
pub open spec fn trim_seq(s: Seq<char>) -> Seq<char> {
    let start = first_where(s, |c: char| !is_ws(c));
    let rest = s.subrange(start, s.len() as int);
    rest.subrange(0, rest.len() - trailing_where(rest, |c: char| is_ws(c)))
}

/// The characters `v[a..b]`.
pub fn slice_chars(v: &Vec<char>, a: usize, b: usize) -> (r: Vec<char>)
    requires
        a <= b <= v.len(),
    ensures
        r@ == v@.subrange(a as int, b as int),
{
    let mut r: Vec<char> = Vec::new();
    let mut i = a;
    while i < b
        invariant
            a <= i <= b <= v.len(),
            r@ == v@.subrange(a as int, i as int),
        decreases b - i,
    {
        r.push(v[i]);
        i += 1;
        assert(r@ =~= v@.subrange(a as int, i as int));
    }
    r
}

/// `s` without leading and trailing whitespace.
pub fn trim(s: &Vec<char>) -> (r: Vec<char>)
    ensures
        r@ == trim_seq(s@),
{
    let ghost p_start = |c: char| !is_ws(c);
    let ghost p_end = |c: char| is_ws(c);
    let mut a: usize = 0;
    while a < s.len() && is_whitespace(s[a])
        invariant
            a <= s.len(),
            forall|j: int| 0 <= j < a ==> is_ws(#[trigger] s@[j]),
        decreases s.len() - a,
    {
        a += 1;
    }
    proof {
        assert forall|j: int| 0 <= j < a implies !p_start(#[trigger] s@[j]) by {}
        lemma_first_where_unique(s@, p_start, a as int);
    }
    let ghost rest = s@.subrange(a as int, s.len() as int);
    let mut b: usize = s.len();
    while b > a && is_whitespace(s[b - 1])
        invariant
            a <= b <= s.len(),
            rest == s@.subrange(a as int, s.len() as int),
            forall|j: int| b <= j < s.len() ==> is_ws(#[trigger] s@[j]),
        decreases b,
    {
        b -= 1;
    }
    proof {
        let t = s.len() - b;
        assert forall|j: int| rest.len() - t <= j < rest.len() implies p_end(#[trigger] rest[j]) by {
            assert(rest[j] == s@[a + j]);
        }
        if t < rest.len() {
            assert(rest[rest.len() - t - 1] == s@[b - 1]);
        }
        lemma_trailing_where_unique(rest, p_end, t as int);
    }
    let r = slice_chars(s, a, b);
    assert(r@ =~= trim_seq(s@));
    r
}


// ---------------------------------------------------------------------------
// Single-character searches
// ---------------------------------------------------------------------------

/// The predicate "is `c`".
pub open spec fn is_char(c: char) -> spec_fn(char) -> bool {
    |x: char| x == c
}

/// `s` up to (not including) the first `c`: `s.split(c).next()`.
pub open spec fn before_char(s: Seq<char>, c: char) -> Seq<char> {
    s.subrange(0, first_where(s, is_char(c)))
}

/// Index of the first `c` in `s`, or `s.len()`.
pub fn find_char(s: &Vec<char>, c: char) -> (r: usize)
    ensures
        r == first_where(s@, is_char(c)),
{
    let mut i: usize = 0;
    while i < s.len() && s[i] != c
        invariant
            i <= s.len(),
            forall|j: int| 0 <= j < i ==> s@[j] != c,
        decreases s.len() - i,
    {
        i += 1;
    }
    proof {
        assert forall|j: int| 0 <= j < i implies !is_char(c)(#[trigger] s@[j]) by {}
        lemma_first_where_unique(s@, is_char(c), i as int);
    }
    i
}

/// `s` up to the first `c`.
pub fn take_before(s: &Vec<char>, c: char) -> (r: Vec<char>)
    ensures
        r@ == before_char(s@, c),
{
    let i = find_char(s, c);
    proof {
        lemma_first_where(s@, is_char(c));
    }
    slice_chars(s, 0, i)
}

/// `s` without the run of `c` at its end: `s.trim_end_matches(c)`.
pub open spec fn trim_end_char(s: Seq<char>, c: char) -> Seq<char> {
    s.subrange(0, s.len() - trailing_where(s, is_char(c)))
}

/// `s` without the run of `c` at its end.
pub fn trim_end_matches(s: &Vec<char>, c: char) -> (r: Vec<char>)
    ensures
        r@ == trim_end_char(s@, c),
{
    let mut b: usize = s.len();
    while b > 0 && s[b - 1] == c
        invariant
            b <= s.len(),
            forall|j: int| b <= j < s.len() ==> #[trigger] s@[j] == c,
        decreases b,
    {
        b -= 1;
    }
    proof {
        let t = s.len() - b;
        assert forall|j: int| s.len() - t <= j < s.len() implies is_char(c)(#[trigger] s@[j]) by {}
        lemma_trailing_where_unique(s@, is_char(c), t as int);
    }
    slice_chars(s, 0, b)
}

// ---------------------------------------------------------------------------
// Splitting and joining
// ---------------------------------------------------------------------------

/// `s.split(c)`, as the sequence of pieces between separators.
pub open spec fn split_on(s: Seq<char>, c: char) -> Seq<Seq<char>>
    decreases s.len(),
{
    if s.len() == 0 {
        seq![Seq::empty()]
    } else {
        let p = split_on(s.drop_last(), c);
        if s.last() == c {
            p.push(Seq::empty())
        } else {
            p.update(p.len() - 1, p.last().push(s.last()))
        }
    }
}

/// `split_on` always yields at least one piece.
pub proof fn lemma_split_on_len(s: Seq<char>, c: char)
    ensures
        split_on(s, c).len() >= 1,
    decreases s.len(),
{
    if s.len() > 0 {
        lemma_split_on_len(s.drop_last(), c);
    }
}

/// `parts.join(sep)`.
pub open spec fn join_with(parts: Seq<Seq<char>>, sep: Seq<char>) -> Seq<char>
    decreases parts.len(),
{
    if parts.len() == 0 {
        Seq::empty()
    } else if parts.len() == 1 {
        parts[0]
    } else {
        join_with(parts.drop_last(), sep) + sep + parts.last()
    }
}

/// A piece with no separator in it splits into itself.
pub proof fn lemma_split_no_sep(s: Seq<char>, c: char)
    requires
        forall|i: int| 0 <= i < s.len() ==> s[i] != c,
    ensures
        split_on(s, c) == seq![s],
    decreases s.len(),
{
    if s.len() > 0 {
        lemma_split_no_sep(s.drop_last(), c);
        assert(s.drop_last().push(s.last()) =~= s);
        assert(split_on(s, c) =~= seq![s]);
    } else {
        assert(s =~= Seq::<char>::empty());
    }
}

/// Splitting at a separator splits each side on its own.
pub proof fn lemma_split_concat(a: Seq<char>, b: Seq<char>, c: char)
    ensures
        split_on(a + seq![c] + b, c) == split_on(a, c) + split_on(b, c),
    decreases b.len(),
{
    let s = a + seq![c] + b;
    if b.len() == 0 {
        assert(s.drop_last() =~= a);
        assert(split_on(s, c) =~= split_on(a, c) + split_on(b, c));
    } else {
        assert(s.drop_last() =~= a + seq![c] + b.drop_last());
        lemma_split_concat(a, b.drop_last(), c);
        lemma_split_on_len(b.drop_last(), c);
        let pa = split_on(a, c);
        let pb = split_on(b.drop_last(), c);
        if b.last() == c {
            assert(split_on(s, c) =~= pa + split_on(b, c));
        } else {
            let q = pa + pb;
            assert(q.last() == pb.last());
            assert(q.update(q.len() - 1, q.last().push(b.last())) =~= pa + pb.update(
                pb.len() - 1,
                pb.last().push(b.last()),
            ));
        }
    }
}

/// No piece of a split holds the separator.
pub proof fn lemma_split_parts(s: Seq<char>, c: char)
    ensures
        forall|k: int, i: int|
            0 <= k < split_on(s, c).len() && 0 <= i < split_on(s, c)[k].len() ==> #[trigger] split_on(s, c)[k][i] != c,
    decreases s.len(),
{
    if s.len() > 0 {
        lemma_split_parts(s.drop_last(), c);
        lemma_split_on_len(s.drop_last(), c);
        let p = split_on(s.drop_last(), c);
        let q = split_on(s, c);
        assert forall|k: int, i: int| 0 <= k < q.len() && 0 <= i < q[k].len() implies #[trigger] q[k][i] != c by {
            if s.last() != c && k == p.len() - 1 {
                if i < p[k].len() {
                    assert(q[k][i] == p[k][i]);
                }
            } else if k < p.len() {
                assert(q[k] == p[k]);
            }
        }
    }
}

/// Joining the pieces of a split gives the string back.
pub proof fn lemma_split_join(s: Seq<char>, c: char)
    ensures
        join_with(split_on(s, c), seq![c]) == s,
    decreases s.len(),
{
    if s.len() > 0 {
        let sd = s.drop_last();
        lemma_split_join(sd, c);
        lemma_split_on_len(sd, c);
        let p = split_on(sd, c);
        let q = split_on(s, c);
        if s.last() == c {
            assert(q.drop_last() =~= p);
            assert(join_with(q, seq![c]) =~= s);
        } else if p.len() == 1 {
            assert(join_with(p, seq![c]) == p[0]);
            assert(q.len() == 1 && q[0] == p[0].push(s.last()));
            assert(sd.push(s.last()) =~= s);
            assert(join_with(q, seq![c]) == q[0]);
        } else {
            assert(q.drop_last() =~= p.drop_last());
            assert(q.last() == p.last().push(s.last()));
            assert(join_with(q, seq![c]) == join_with(q.drop_last(), seq![c]) + seq![c] + q.last());
            assert(join_with(p, seq![c]) == join_with(p.drop_last(), seq![c]) + seq![c] + p.last());
            assert(sd.push(s.last()) =~= s);
            assert(join_with(q, seq![c]) =~= s);
        }
    }
}

/// Splitting what was joined gives the pieces back, when none holds the separator.
pub proof fn lemma_join_split(ps: Seq<Seq<char>>, c: char)
    requires
        ps.len() >= 1,
        forall|k: int, i: int| 0 <= k < ps.len() && 0 <= i < ps[k].len() ==> #[trigger] ps[k][i] != c,
    ensures
        split_on(join_with(ps, seq![c]), c) == ps,
    decreases ps.len(),
{
    if ps.len() == 1 {
        assert forall|i: int| 0 <= i < ps[0].len() implies ps[0][i] != c by {
            assert(ps[0][i] != c);
        }
        lemma_split_no_sep(ps[0], c);
        assert(seq![ps[0]] =~= ps);
    } else {
        let d = ps.drop_last();
        assert forall|k: int, i: int| 0 <= k < d.len() && 0 <= i < d[k].len() implies #[trigger] d[k][i] != c by {
            assert(d[k] == ps[k]);
        }
        lemma_join_split(d, c);
        let l = ps.last();
        assert forall|i: int| 0 <= i < l.len() implies l[i] != c by {
            assert(ps[ps.len() - 1][i] != c);
        }
        lemma_split_no_sep(l, c);
        lemma_split_concat(join_with(d, seq![c]), l, c);
        assert(d + seq![l] =~= ps);
    }
}

/// A join, cut at a piece boundary.
pub proof fn lemma_join_tail(ps: Seq<Seq<char>>, j: int, sep: Seq<char>)
    requires
        0 < j < ps.len(),
    ensures
        join_with(ps, sep) == join_with(ps.subrange(0, j), sep) + sep + join_with(ps.subrange(j, ps.len() as int), sep),
    decreases ps.len(),
{
    let n = ps.len() as int;
    let d = ps.drop_last();
    if j == n - 1 {
        assert(ps.subrange(0, j) =~= d);
        assert(join_with(ps.subrange(j, n), sep) == ps.last());
    } else {
        lemma_join_tail(d, j, sep);
        assert(d.subrange(0, j) =~= ps.subrange(0, j));
        let t = ps.subrange(j, n);
        assert(t.drop_last() =~= d.subrange(j, n - 1));
        assert(join_with(t, sep) == join_with(t.drop_last(), sep) + sep + t.last());
        assert(join_with(ps, sep) =~= join_with(ps.subrange(0, j), sep) + sep + join_with(t, sep));
    }
}

/// The views of a sequence of character vectors.
pub open spec fn views(v: Seq<Vec<char>>) -> Seq<Seq<char>> {
    v.map_values(|x: Vec<char>| x@)
}

/// The views of a sequence of strings.
pub open spec fn string_views(v: Seq<String>) -> Seq<Seq<char>> {
    v.map_values(|x: String| x@)
}

/// The pieces of `s` between occurrences of `c`.
pub fn split(s: &Vec<char>, c: char) -> (r: Vec<Vec<char>>)
    ensures
        views(r@) == split_on(s@, c),
        r.len() >= 1,
{
    let mut done: Vec<Vec<char>> = Vec::new();
    let mut cur: Vec<char> = Vec::new();
    let mut i: usize = 0;
    assert(views(done@).push(cur@) =~= split_on(s@.take(0), c));
    while i < s.len()
        invariant
            i <= s.len(),
            views(done@).push(cur@) == split_on(s@.take(i as int), c),
        decreases s.len() - i,
    {
        let ghost before = s@.take(i as int);
        let ghost after = s@.take(i + 1);
        assert(after.drop_last() =~= before);
        assert(after.last() == s@[i as int]);
        proof {
            lemma_split_on_len(before, c);
        }
        let ghost old_done = done@;
        let ghost old_cur = cur@;
        if s[i] == c {
            done.push(cur);
            cur = Vec::new();
            assert(views(done@) =~= views(old_done).push(old_cur));
            assert(views(done@).push(cur@) =~= split_on(after, c));
        } else {
            cur.push(s[i]);
            assert(views(done@).push(cur@) =~= split_on(after, c));
        }
        i += 1;
    }
    assert(s@.take(i as int) =~= s@);
    let ghost old_done = done@;
    let ghost old_cur = cur@;
    done.push(cur);
    assert(views(done@) =~= views(old_done).push(old_cur));
    done
}

/// `parts[a..].join(sep)` as characters.
pub fn join_from(parts: &Vec<Vec<char>>, a: usize, sep: char) -> (r: Vec<char>)
    requires
        a <= parts.len(),
    ensures
        r@ == join_with(views(parts@).subrange(a as int, parts.len() as int), seq![sep]),
{
    let ghost dv = views(parts@);
    let mut r: Vec<char> = Vec::new();
    let mut i = a;
    while i < parts.len()
        invariant
            a <= i <= parts.len(),
            dv == views(parts@),
            r@ == join_with(dv.subrange(a as int, i as int), seq![sep]),
        decreases parts.len() - i,
    {
        let ghost old_r = r@;
        if i > a {
            r.push(sep);
        }
        let mut k: usize = 0;
        let ghost mid = r@;
        while k < parts[i].len()
            invariant
                a <= i < parts.len(),
                k <= parts[i as int].len(),
                dv == views(parts@),
                r@ == mid + parts[i as int]@.take(k as int),
            decreases parts[i as int].len() - k,
        {
            r.push(parts[i][k]);
            k += 1;
            assert(r@ =~= mid + parts[i as int]@.take(k as int));
        }
        assert(parts[i as int]@.take(k as int) =~= parts[i as int]@);
        let ghost sub = dv.subrange(a as int, i + 1);
        assert(sub.drop_last() =~= dv.subrange(a as int, i as int));
        assert(sub.last() == dv[i as int]);
        if i > a {
            assert(r@ =~= join_with(sub, seq![sep]));
        } else {
            assert(sub.len() == 1);
            assert(r@ =~= join_with(sub, seq![sep]));
        }
        i += 1;
    }
    r
}

// ---------------------------------------------------------------------------
// Counting
// ---------------------------------------------------------------------------

/// Number of occurrences of `c` in `s`.
pub open spec fn count_char(s: Seq<char>, c: char) -> nat
    decreases s.len(),
{
    if s.len() == 0 {
        0
    } else {
        count_char(s.drop_last(), c) + if s.last() == c {
            1nat
        } else {
            0nat
        }
    }
}

/// Number of occurrences of `c` in `s`.
pub fn count_of(s: &Vec<char>, c: char) -> (r: usize)
    ensures
        r == count_char(s@, c),
{
    let mut n: usize = 0;
    let mut i: usize = 0;
    while i < s.len()
        invariant
            i <= s.len(),
            n == count_char(s@.take(i as int), c),
            n <= i,
        decreases s.len() - i,
    {
        assert(s@.take(i + 1).drop_last() =~= s@.take(i as int));
        if s[i] == c {
            n += 1;
        }
        i += 1;
    }
    assert(s@.take(i as int) =~= s@);
    n
}

} // verus!
