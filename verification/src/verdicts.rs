//! What an attachment's name alone decides, whatever its contents.

use vstd::prelude::*;
use crate::text;
use crate::parser;
use crate::parser::{AttachmentView, NoteView, ScanView};

verus! {

/// Extensions that run code when the file is opened.
pub open spec fn runs_code() -> Seq<Seq<char>> {
    seq![
        ".exe"@, ".bat"@, ".vbs"@, ".ps1"@, ".iso"@, ".scr"@, ".cmd"@, ".js"@, ".wsf"@, ".pif"@,
        ".lnk"@, ".hta"@, ".cpl"@,
    ]
}

/// Office formats from before macros were kept apart.
pub open spec fn legacy_office() -> Seq<Seq<char>> {
    seq![".doc"@, ".xls"@, ".ppt"@, ".rtf"@]
}

/// Office formats that carry macros.
pub open spec fn macro_office() -> Seq<Seq<char>> {
    seq![".docm"@, ".xlsm"@, ".pptm"@]
}

/// The attachment the step recorded last.
pub open spec fn last_attachment(st: ScanView) -> AttachmentView {
    st.attachments.last()
}

proof fn lemma_ends(s: Seq<char>, p: Seq<char>)
    requires
        text::ends_with_seq(s, p),
        p.len() >= 2,
    ensures
        s.len() >= 2,
        s[s.len() - 1] == p[p.len() - 1],
        s[s.len() - 2] == p[p.len() - 2],
{
    assert(s.subrange(s.len() - p.len(), s.len() as int)[p.len() - 1] == s[s.len() - 1]);
    assert(s.subrange(s.len() - p.len(), s.len() as int)[p.len() - 2] == s[s.len() - 2]);
}

proof fn lemma_reveal_names()
    ensures
        ".exe"@ == seq!['.', 'e', 'x', 'e'],
        ".bat"@ == seq!['.', 'b', 'a', 't'],
        ".vbs"@ == seq!['.', 'v', 'b', 's'],
        ".ps1"@ == seq!['.', 'p', 's', '1'],
        ".iso"@ == seq!['.', 'i', 's', 'o'],
        ".scr"@ == seq!['.', 's', 'c', 'r'],
        ".cmd"@ == seq!['.', 'c', 'm', 'd'],
        ".js"@ == seq!['.', 'j', 's'],
        ".wsf"@ == seq!['.', 'w', 's', 'f'],
        ".pif"@ == seq!['.', 'p', 'i', 'f'],
        ".lnk"@ == seq!['.', 'l', 'n', 'k'],
        ".hta"@ == seq!['.', 'h', 't', 'a'],
        ".cpl"@ == seq!['.', 'c', 'p', 'l'],
        ".doc"@ == seq!['.', 'd', 'o', 'c'],
        ".xls"@ == seq!['.', 'x', 'l', 's'],
        ".ppt"@ == seq!['.', 'p', 'p', 't'],
        ".rtf"@ == seq!['.', 'r', 't', 'f'],
        ".docm"@ == seq!['.', 'd', 'o', 'c', 'm'],
        ".xlsm"@ == seq!['.', 'x', 'l', 's', 'm'],
        ".pptm"@ == seq!['.', 'p', 'p', 't', 'm'],
        "m"@ == seq!['m'],
{
    reveal_strlit(".exe");
    reveal_strlit(".bat");
    reveal_strlit(".vbs");
    reveal_strlit(".ps1");
    reveal_strlit(".iso");
    reveal_strlit(".scr");
    reveal_strlit(".cmd");
    reveal_strlit(".js");
    reveal_strlit(".wsf");
    reveal_strlit(".pif");
    reveal_strlit(".lnk");
    reveal_strlit(".hta");
    reveal_strlit(".cpl");
    reveal_strlit(".doc");
    reveal_strlit(".xls");
    reveal_strlit(".ppt");
    reveal_strlit(".rtf");
    reveal_strlit(".docm");
    reveal_strlit(".xlsm");
    reveal_strlit(".pptm");
    reveal_strlit("m");
    assert(".exe"@ =~= seq!['.', 'e', 'x', 'e']);
    assert(".bat"@ =~= seq!['.', 'b', 'a', 't']);
    assert(".vbs"@ =~= seq!['.', 'v', 'b', 's']);
    assert(".ps1"@ =~= seq!['.', 'p', 's', '1']);
    assert(".iso"@ =~= seq!['.', 'i', 's', 'o']);
    assert(".scr"@ =~= seq!['.', 's', 'c', 'r']);
    assert(".cmd"@ =~= seq!['.', 'c', 'm', 'd']);
    assert(".js"@ =~= seq!['.', 'j', 's']);
    assert(".wsf"@ =~= seq!['.', 'w', 's', 'f']);
    assert(".pif"@ =~= seq!['.', 'p', 'i', 'f']);
    assert(".lnk"@ =~= seq!['.', 'l', 'n', 'k']);
    assert(".hta"@ =~= seq!['.', 'h', 't', 'a']);
    assert(".cpl"@ =~= seq!['.', 'c', 'p', 'l']);
    assert(".doc"@ =~= seq!['.', 'd', 'o', 'c']);
    assert(".xls"@ =~= seq!['.', 'x', 'l', 's']);
    assert(".ppt"@ =~= seq!['.', 'p', 'p', 't']);
    assert(".rtf"@ =~= seq!['.', 'r', 't', 'f']);
    assert(".docm"@ =~= seq!['.', 'd', 'o', 'c', 'm']);
    assert(".xlsm"@ =~= seq!['.', 'x', 'l', 's', 'm']);
    assert(".pptm"@ =~= seq!['.', 'p', 'p', 't', 'm']);
    assert("m"@ =~= seq!['m']);
}

/// An office name is no executable name: their last two characters differ.
proof fn lemma_office_runs_nothing(lower: Seq<char>)
    requires
        text::ends_with_any(lower, legacy_office()) || text::ends_with_any(lower, macro_office()),
    ensures
        !text::ends_with_any(lower, parser::dangerous_exts()),
{
    lemma_reveal_names();
    let o = if text::ends_with_any(lower, legacy_office()) {
        legacy_office()
    } else {
        macro_office()
    };
    let i = choose|i: int| 0 <= i < o.len() && text::ends_with_seq(lower, #[trigger] o[i]);
    lemma_ends(lower, o[i]);
    if text::ends_with_any(lower, parser::dangerous_exts()) {
        let d = parser::dangerous_exts();
        let k = choose|k: int| 0 <= k < d.len() && text::ends_with_seq(lower, #[trigger] d[k]);
        lemma_ends(lower, d[k]);
        assert(false);
    }
}

/// A file whose name ends in an extension that runs code is a bad attachment:
/// the count of bad attachments goes up by one, the note says it is an
/// executable, or a double extension where the name has more than one dot
/// (which then also marks the message as having one).
pub proof fn law_an_executable_is_a_bad_attachment(name: Seq<char>, body: Seq<u8>, st: ScanView)
    requires
        text::ends_with_any(text::unicode_lowercase(name), runs_code()),
        st.bad_attachments < usize::MAX,
    ensures
        ({
            let r = parser::attachment_step(name, body, st);
            let double = text::count_char(text::unicode_lowercase(name), '.') > 1;
            &&& r.bad_attachments == st.bad_attachments + 1
            &&& r.attachments.len() == st.attachments.len() + 1
            &&& last_attachment(r).filename == name
            &&& last_attachment(r).note == (NoteView {
                key: if double {
                    "notes.double_ext"@
                } else {
                    "notes.exe"@
                },
                arg: None,
            })
            &&& r.has_double_ext == (st.has_double_ext || double)
        }),
{
    assert(runs_code() == parser::dangerous_exts());
}

/// An Office document of the older formats (`.doc`, `.xls`, `.ppt`, `.rtf`)
/// is a bad attachment: the count goes up by one and the note says so.
pub proof fn law_a_legacy_office_file_is_a_bad_attachment(name: Seq<char>, body: Seq<u8>, st: ScanView)
    requires
        text::ends_with_any(text::unicode_lowercase(name), legacy_office()),
        st.bad_attachments < usize::MAX,
    ensures
        ({
            let r = parser::attachment_step(name, body, st);
            &&& r.bad_attachments == st.bad_attachments + 1
            &&& r.attachments.len() == st.attachments.len() + 1
            &&& last_attachment(r).filename == name
            &&& last_attachment(r).note == (NoteView { key: "notes.legacy_office"@, arg: None })
            &&& r.has_macro == st.has_macro
        }),
{
    let lower = text::unicode_lowercase(name);
    lemma_office_runs_nothing(lower);
    lemma_reveal_names();
    let o = legacy_office();
    let i = choose|i: int| 0 <= i < o.len() && text::ends_with_seq(lower, #[trigger] o[i]);
    lemma_ends(lower, o[i]);
    assert(parser::office_exts()[i + if i == 3 { 3int } else { 0int }] == o[i]);
    assert(text::ends_with_any(lower, parser::office_exts()));
    if text::ends_with_seq(lower, "m"@) {
        assert(lower.subrange(lower.len() - 1, lower.len() as int)[0] == lower[lower.len() - 1]);
        assert(false);
    }
}

/// A macro-enabled Office document (`.docm`, `.xlsm`, `.pptm`) is a bad
/// attachment that marks the message as carrying macros.
pub proof fn law_a_macro_office_file_is_a_bad_attachment(name: Seq<char>, body: Seq<u8>, st: ScanView)
    requires
        text::ends_with_any(text::unicode_lowercase(name), macro_office()),
        st.bad_attachments < usize::MAX,
    ensures
        ({
            let r = parser::attachment_step(name, body, st);
            &&& r.bad_attachments == st.bad_attachments + 1
            &&& r.attachments.len() == st.attachments.len() + 1
            &&& last_attachment(r).filename == name
            &&& last_attachment(r).note == (NoteView { key: "notes.macro_format"@, arg: None })
            &&& r.has_macro
        }),
{
    let lower = text::unicode_lowercase(name);
    lemma_office_runs_nothing(lower);
    lemma_reveal_names();
    let o = macro_office();
    let i = choose|i: int| 0 <= i < o.len() && text::ends_with_seq(lower, #[trigger] o[i]);
    lemma_ends(lower, o[i]);
    assert(parser::office_exts()[i + 3] == o[i]);
    assert(text::ends_with_any(lower, parser::office_exts()));
    assert(lower.subrange(lower.len() - 1, lower.len() as int) =~= "m"@);
    assert(text::ends_with_seq(lower, "m"@));
}

} // verus!
