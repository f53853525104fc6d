//! What the analyst is shown of a finding: the value behind an indicator's
//! label, and the strings of an attachment.

use vstd::prelude::*;
use crate::text;

verus! {

/// The first occurrence of `n` in `h` at or after `from`.
pub open spec fn next_occurrence(h: Seq<char>, n: Seq<char>, from: int) -> Option<int>
    decreases h.len() + 1 - from,
{
    if from < 0 || from + n.len() > h.len() {
        None
    } else if text::occurs_at(h, n, from) {
        Some(from)
    } else {
        next_occurrence(h, n, from + 1)
    }
}

proof fn lemma_next_occurrence(h: Seq<char>, n: Seq<char>, from: int, r: Option<int>)
    requires
        from >= 0,
        r matches Some(i) ==> from <= i && text::occurs_at(h, n, i) && forall|j: int| from <= j < i ==> !text::occurs_at(h, n, j),
        r is None ==> forall|j: int| from <= j ==> !text::occurs_at(h, n, j),
    ensures
        next_occurrence(h, n, from) == r,
    decreases h.len() + 1 - from,
{
    if from + n.len() > h.len() {
        if let Some(i) = r {
            assert(text::occurs_at(h, n, i));
        }
    } else if text::occurs_at(h, n, from) {
        if let Some(i) = r {
            if i > from {
                assert(!text::occurs_at(h, n, from));
            }
        }
    } else {
        lemma_next_occurrence(h, n, from + 1, r);
    }
}

/// The value behind an indicator's label: the second piece of the text split
/// at `": "`, or the whole text where there is no `": "`.
pub open spec fn indicator_value_spec(s: Seq<char>) -> Seq<char> {
    match next_occurrence(s, ": "@, 0) {
        None => s,
        Some(i) => {
            let rest = s.subrange(i + ": "@.len(), s.len() as int);
            match next_occurrence(rest, ": "@, 0) {
                None => rest,
                Some(j) => rest.subrange(0, j),
            }
        },
    }
}

/// The value behind an indicator's label: `URL: http://a.test/` → `http://a.test/`.
pub fn indicator_value(indicator: &str) -> (r: String)
    ensures
        r@ == indicator_value_spec(indicator@),
{
    let s = text::chars_of(indicator);
    let sep = text::chars_of(": ");
    let found = text::find_from(&s, &sep, 0);
    proof {
        lemma_next_occurrence(s@, sep@, 0, match found { Some(i) => Some(i as int), None => None });
    }
    match found {
        None => text::string_of(&s),
        Some(i) => {
            assert(text::occurs_at(s@, sep@, i as int));
            assert(i + sep@.len() <= s@.len());
            assert(sep@.len() == sep.len());
            let sl = sep.len();
            assert(i + sl <= s.len());
            let start: usize = i + sl;
            let rest = text::slice_chars(&s, start, s.len());
            let next = text::find_from(&rest, &sep, 0);
            proof {
                lemma_next_occurrence(rest@, sep@, 0, match next { Some(j) => Some(j as int), None => None });
            }
            match next {
                None => text::string_of(&rest),
                Some(j) => text::string_of(&text::slice_chars(&rest, 0, j)),
            }
        },
    }
}

/// How many strings of an attachment are shown at most.
pub open spec fn shown_strings() -> int {
    1000
}

/// The first thousand printable strings of a body, one per line.
pub open spec fn strings_listing_spec(body: Seq<u8>) -> Seq<char> {
    let ss = crate::parser::strings_spec(body);
    let n = if ss.len() < shown_strings() {
        ss.len() as int
    } else {
        shown_strings()
    };
    text::join_with(ss.take(n), seq!['\n'])
}

/// The first thousand printable strings of a body, one per line.
pub fn strings_listing(body: &[u8]) -> (r: String)
    ensures
        r@ == strings_listing_spec(body@),
{
    let ss = crate::parser::extract_strings(body);
    let n: usize = if ss.len() < 1000 {
        ss.len()
    } else {
        1000
    };
    let mut cs: Vec<Vec<char>> = Vec::new();
    let mut k: usize = 0;
    while k < n
        invariant
            k <= n <= ss.len(),
            text::views(cs@) == text::string_views(ss@).take(k as int),
        decreases n - k,
    {
        let ghost before = cs@;
        cs.push(text::chars_of(ss[k].as_str()));
        assert(text::views(cs@) =~= text::views(before).push(ss@[k as int]@));
        assert(text::string_views(ss@).take(k + 1) =~= text::string_views(ss@).take(k as int).push(ss@[k as int]@));
        k += 1;
    }
    let joined = text::join_from(&cs, 0, '\n');
    assert(text::views(cs@).subrange(0, cs.len() as int) =~= text::views(cs@));
    text::string_of(&joined)
}

/// The bytes of an attachment from the base64 text it travels as, or why the
/// text is not base64. What `parse` encoded comes back unchanged.
pub fn attachment_bytes(body_b64: &str) -> (r: Result<Vec<u8>, String>)
    ensures
        r is Err <==> crate::encoding::base64_standard_decoding(body_b64@) is None,
        r matches Ok(b) ==> crate::encoding::base64_standard_decoding(body_b64@) == Some(b@),
        r is Err ==> forall|bytes: Seq<u8>| body_b64@ != #[trigger] crate::encoding::base64_standard_encoding(bytes),
        r matches Ok(b) ==> forall|bytes: Seq<u8>|
            body_b64@ == #[trigger] crate::encoding::base64_standard_encoding(bytes) ==> b@ == bytes,
{
    crate::encoding::base64_decode_padded(body_b64)
}

} // verus!
