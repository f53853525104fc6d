//! The name an attachment gives itself decides nothing but the suggestion in
//! the save dialog.

use vstd::prelude::*;
use crate::text;

verus! {

/// A directory separator, on either system.
pub open spec fn is_separator(c: char) -> bool {
    c == '/' || c == '\\'
}

/// The predicate "is not a directory separator".
pub open spec fn not_separator() -> spec_fn(char) -> bool {
    |c: char| !is_separator(c)
}

/// What follows the last directory separator.
pub open spec fn last_component(s: Seq<char>) -> Seq<char> {
    s.subrange(s.len() - text::trailing_where(s, not_separator()), s.len() as int)
}

/// A character that has no place in a file name: a control character (which
/// can cut the name short where it is displayed), or one that a file system
/// reserves.
pub open spec fn is_unsafe(c: char) -> bool {
    ||| (c as u32) < 0x20
    ||| (0x7F <= (c as u32) && (c as u32) <= 0x9F)
    ||| c == '<' || c == '>' || c == ':' || c == '"' || c == '/' || c == '\\'
    ||| c == '|' || c == '?' || c == '*'
}

/// `s` without its unsafe characters.
pub open spec fn keep_safe(s: Seq<char>) -> Seq<char>
    decreases s.len(),
{
    if s.len() == 0 {
        Seq::empty()
    } else if is_unsafe(s.last()) {
        keep_safe(s.drop_last())
    } else {
        keep_safe(s.drop_last()).push(s.last())
    }
}

/// The name to suggest when saving an attachment: the last path component of
/// the declared name, without unsafe characters and surrounding whitespace;
/// `dump.bin` when that leaves nothing, `.` or `..`.
pub open spec fn safe_name_spec(declared: Seq<char>) -> Seq<char> {
    let t = text::trim_seq(keep_safe(last_component(declared)));
    if t.len() == 0 || t == "."@ || t == ".."@ {
        "dump.bin"@
    } else {
        t
    }
}

proof fn lemma_keep_safe(s: Seq<char>)
    ensures
        forall|i: int| 0 <= i < keep_safe(s).len() ==> !is_unsafe(#[trigger] keep_safe(s)[i]),
    decreases s.len(),
{
    if s.len() > 0 {
        lemma_keep_safe(s.drop_last());
        let k = keep_safe(s);
        let p = keep_safe(s.drop_last());
        assert forall|i: int| 0 <= i < k.len() implies !is_unsafe(#[trigger] k[i]) by {
            if !is_unsafe(s.last()) && i < p.len() {
                assert(k[i] == p[i]);
            }
        }
    }
}

proof fn lemma_trim_within(s: Seq<char>)
    ensures
        forall|i: int| 0 <= i < text::trim_seq(s).len() ==> exists|j: int| 0 <= j < s.len() && #[trigger] text::trim_seq(s)[i] == s[j],
{
    let start = text::first_where(s, |c: char| !text::is_ws(c));
    text::lemma_first_where(s, |c: char| !text::is_ws(c));
    let rest = s.subrange(start, s.len() as int);
    text::lemma_trailing_where(rest, |c: char| text::is_ws(c));
    assert forall|i: int| 0 <= i < text::trim_seq(s).len() implies exists|j: int| 0 <= j < s.len() && #[trigger] text::trim_seq(s)[i] == s[j] by {
        assert(text::trim_seq(s)[i] == s[start + i]);
    }
}

fn strip_unsafe(s: &Vec<char>) -> (r: Vec<char>)
    ensures
        r@ == keep_safe(s@),
{
    let mut r: Vec<char> = Vec::new();
    let mut i: usize = 0;
    while i < s.len()
        invariant
            i <= s.len(),
            r@ == keep_safe(s@.take(i as int)),
        decreases s.len() - i,
    {
        assert(s@.take(i + 1).drop_last() =~= s@.take(i as int));
        assert(s@.take(i + 1).last() == s@[i as int]);
        let c = s[i];
        let u = c as u32;
        let bad = u < 0x20 || (0x7F <= u && u <= 0x9F) || c == '<' || c == '>' || c == ':' || c == '"'
            || c == '/' || c == '\\' || c == '|' || c == '?' || c == '*';
        if !bad {
            r.push(c);
        }
        i += 1;
    }
    assert(s@.take(i as int) =~= s@);
    r
}

/// The name an attachment declares, made safe to offer in a save dialog: no
/// directory part, no control or reserved characters, no surrounding
/// whitespace, and never empty, `.` or `..`.
pub fn safe_name(declared: &str) -> (r: String)
    ensures
        r@ == safe_name_spec(declared@),
        r@.len() > 0,
        r@ != "."@ && r@ != ".."@,
        forall|i: int| 0 <= i < r@.len() ==> !is_unsafe(#[trigger] r@[i]),
{
    let s = text::chars_of(declared);
    let mut a: usize = s.len();
    while a > 0 && s[a - 1] != '/' && s[a - 1] != '\\'
        invariant
            a <= s.len(),
            forall|j: int| a <= j < s.len() ==> not_separator()(#[trigger] s@[j]),
        decreases a,
    {
        a -= 1;
    }
    proof {
        text::lemma_trailing_where_unique(s@, not_separator(), (s.len() - a) as int);
    }
    let last = text::slice_chars(&s, a, s.len());
    let kept = strip_unsafe(&last);
    let t = text::trim(&kept);
    let dot = text::chars_of(".");
    let dots = text::chars_of("..");
    proof {
        lemma_keep_safe(last@);
        lemma_trim_within(kept@);
        reveal_strlit("dump.bin");
        reveal_strlit(".");
        reveal_strlit("..");
    }
    if t.len() == 0 || text::eq_chars(&t, &dot) || text::eq_chars(&t, &dots) {
        assert("dump.bin"@.len() == 8 && "."@.len() == 1 && ".."@.len() == 2);
        assert(forall|i: int| 0 <= i < 8 ==> !is_unsafe(#[trigger] "dump.bin"@[i]));
        text::owned("dump.bin")
    } else {
        assert forall|i: int| 0 <= i < t@.len() implies !is_unsafe(#[trigger] t@[i]) by {
            let j = choose|j: int| 0 <= j < kept@.len() && t@[i] == kept@[j];
        }
        text::string_of(&t)
    }
}

} // verus!
