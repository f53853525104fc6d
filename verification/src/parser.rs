//! Reading a message: its parts, its attachments, its text, and the signals
//! the score is made of.

use vstd::prelude::*;
use crate::text;
use crate::mime::MailPart;
use crate::headers::{HeaderData, HeaderView};
use crate::scoring;
use crate::scoring::{Scoring, Signals};

verus! {

// ---------------------------------------------------------------------------
// Strings in binary data
// ---------------------------------------------------------------------------

/// A byte that `extract_strings` keeps: ASCII graphic, space or tab.
pub open spec fn is_printable(b: u8) -> bool {
    (0x21 <= b && b <= 0x7E) || b == 0x20 || b == 0x09
}

/// The runs of printable bytes finished so far, and the one in progress, after
/// reading `bs` left to right; a run shorter than five is dropped when it ends.
pub open spec fn runs(bs: Seq<u8>) -> (Seq<Seq<char>>, Seq<char>)
    decreases bs.len(),
{
    if bs.len() == 0 {
        (Seq::empty(), Seq::empty())
    } else {
        let (done, cur) = runs(bs.drop_last());
        let b = bs.last();
        if is_printable(b) {
            (done, cur.push(b as char))
        } else if cur.len() >= 5 {
            (done.push(cur), Seq::empty())
        } else {
            (done, Seq::empty())
        }
    }
}

/// Every run of at least five printable bytes, in order.
pub open spec fn strings_spec(bs: Seq<u8>) -> Seq<Seq<char>> {
    let (done, cur) = runs(bs);
    if cur.len() >= 5 {
        done.push(cur)
    } else {
        done
    }
}

fn strings_chars(body: &[u8]) -> (r: Vec<Vec<char>>)
    ensures
        text::views(r@) == strings_spec(body@),
{
    let mut done: Vec<Vec<char>> = Vec::new();
    let mut cur: Vec<char> = Vec::new();
    let mut i: usize = 0;
    while i < body.len()
        invariant
            i <= body.len(),
            (text::views(done@), cur@) == runs(body@.take(i as int)),
        decreases body.len() - i,
    {
        assert(body@.take(i + 1).drop_last() =~= body@.take(i as int));
        assert(body@.take(i + 1).last() == body@[i as int]);
        let b = body[i];
        if (0x21 <= b && b <= 0x7E) || b == 0x20 || b == 0x09 {
            cur.push(b as char);
        } else {
            if cur.len() >= 5 {
                let ghost before = done@;
                let ghost c = cur@;
                done.push(cur);
                assert(text::views(done@) =~= text::views(before).push(c));
            }
            cur = Vec::new();
        }
        i += 1;
    }
    assert(body@.take(i as int) =~= body@);
    if cur.len() >= 5 {
        let ghost before = done@;
        let ghost c = cur@;
        done.push(cur);
        assert(text::views(done@) =~= text::views(before).push(c));
    }
    done
}

/// The printable runs of five bytes or more in a binary blob, in order — what
/// `strings(1)` would show.
pub fn extract_strings(body: &[u8]) -> (r: Vec<String>)
    ensures
        text::string_views(r@) == strings_spec(body@),
{
    let cs = strings_chars(body);
    let mut r: Vec<String> = Vec::new();
    let mut k: usize = 0;
    while k < cs.len()
        invariant
            k <= cs.len(),
            text::string_views(r@) == text::views(cs@).take(k as int),
        decreases cs.len() - k,
    {
        let ghost old_r = r@;
        r.push(text::string_of(&cs[k]));
        assert(text::string_views(r@) =~= text::string_views(old_r).push(cs@[k as int]@));
        assert(text::views(cs@).take(k + 1) =~= text::views(cs@).take(k as int).push(cs@[k as int]@));
        k += 1;
    }
    assert(text::views(cs@).take(cs.len() as int) =~= text::views(cs@));
    r
}

// ---------------------------------------------------------------------------
// A link to a payload
// ---------------------------------------------------------------------------

/// Extensions of what a link may serve that is an archive or runs code.
pub open spec fn payload_exts() -> Seq<Seq<char>> {
    seq![
        ".zip"@, ".rar"@, ".7z"@, ".exe"@, ".iso"@, ".msi"@, ".cab"@, ".lnk"@, ".bat"@, ".vbs"@,
        ".ps1"@,
    ]
}

fn payload_ext_list() -> (r: [&'static str; 11])
    ensures
        r@.map_values(|w: &str| w@) == payload_exts(),
{
    let r = [".zip", ".rar", ".7z", ".exe", ".iso", ".msi", ".cab", ".lnk", ".bat", ".vbs", ".ps1"];
    assert(r@.map_values(|w: &str| w@) =~= payload_exts());
    r
}

/// Where a URL written in running text ends: whitespace, `)`, `>` or a quote.
pub open spec fn url_stop() -> spec_fn(char) -> bool {
    |c: char| text::is_ws(c) || c == ')' || c == '>' || c == '"' || c == '\''
}

/// The URL that starts at `i`: up to whitespace, `)`, `>` or a quote.
pub open spec fn url_at(h: Seq<char>, i: int) -> Seq<char> {
    let t = h.subrange(i, h.len() as int);
    t.subrange(0, text::first_where(t, url_stop()))
}

/// A URL whose path (before any `?` or `#`) ends in a payload extension.
pub open spec fn serves_payload(url: Seq<char>) -> bool {
    let path = url.subrange(0, text::first_where(url, crate::links::query_mark()));
    text::ends_with_any(path, payload_exts())
}

/// The first URL at or after `i` that starts with `http` and serves a payload.
pub open spec fn linked_from(h: Seq<char>, i: int) -> Option<Seq<char>>
    decreases h.len() - i,
{
    if i < 0 || i >= h.len() {
        None
    } else if text::occurs_at(h, "http"@, i) && serves_payload(url_at(h, i)) {
        Some(url_at(h, i))
    } else {
        linked_from(h, i + 1)
    }
}

fn find_url_stop(s: &Vec<char>) -> (r: usize)
    ensures
        r == text::first_where(s@, url_stop()),
{
    let mut i: usize = 0;
    while i < s.len() && !text::is_whitespace(s[i]) && s[i] != ')' && s[i] != '>' && s[i] != '"' && s[i] != '\''
        invariant
            i <= s.len(),
            forall|j: int| 0 <= j < i ==> !url_stop()(#[trigger] s@[j]),
        decreases s.len() - i,
    {
        i += 1;
    }
    proof {
        text::lemma_first_where_unique(s@, url_stop(), i as int);
    }
    i
}

fn find_query_start(s: &Vec<char>) -> (r: usize)
    ensures
        r == text::first_where(s@, crate::links::query_mark()),
{
    let mut i: usize = 0;
    while i < s.len() && s[i] != '?' && s[i] != '#'
        invariant
            i <= s.len(),
            forall|j: int| 0 <= j < i ==> !crate::links::query_mark()(#[trigger] s@[j]),
        decreases s.len() - i,
    {
        i += 1;
    }
    proof {
        text::lemma_first_where_unique(s@, crate::links::query_mark(), i as int);
    }
    i
}

/// The first URL in `haystack` that points at something executable or packed,
/// judged by the end of its path with the query and fragment cut off: a
/// detached signature (`v1.zip.sig`) or a query that merely names a file
/// (`a.pdf?attachment=payload.zip`) is not the link serving it.
pub fn linked_payload(haystack: &Vec<char>) -> (r: Option<Vec<char>>)
    ensures
        r is None <==> linked_from(haystack@, 0) is None,
        r matches Some(u) ==> linked_from(haystack@, 0) == Some(u@),
{
    let http = text::chars_of("http");
    let exts = payload_ext_list();
    let mut i: usize = 0;
    while i < haystack.len()
        invariant
            i <= haystack.len(),
            http@ == "http"@,
            exts@.map_values(|w: &str| w@) == payload_exts(),
            linked_from(haystack@, 0) == linked_from(haystack@, i as int),
        decreases haystack.len() - i,
    {
        if http.len() <= haystack.len() - i && text::matches_at(haystack, &http, i) {
            let t = text::slice_chars(haystack, i, haystack.len());
            let end = find_url_stop(&t);
            proof {
                text::lemma_first_where(t@, url_stop());
            }
            let url = text::slice_chars(&t, 0, end);
            let q = find_query_start(&url);
            proof {
                text::lemma_first_where(url@, crate::links::query_mark());
            }
            let path = text::slice_chars(&url, 0, q);
            if text::ends_with_any_of(&path, &exts) {
                return Some(url);
            }
        }
        i += 1;
    }
    None
}


// ---------------------------------------------------------------------------
// Attachments
// ---------------------------------------------------------------------------

/// What the analyst is told about an attachment: a catalog key, and what it
/// refers to where there is something to name.
pub struct Note {
    pub key: String,
    pub arg: Option<String>,
}

/// A note as plain values.
pub struct NoteView {
    pub key: Seq<char>,
    pub arg: Option<Seq<char>>,
}

impl View for Note {
    type V = NoteView;

    open spec fn view(&self) -> NoteView {
        NoteView {
            key: self.key@,
            arg: match self.arg {
                Some(a) => Some(a@),
                None => None,
            },
        }
    }
}

/// A note with no argument.
pub open spec fn note_of(key: Seq<char>) -> NoteView {
    NoteView { key, arg: None }
}

/// A note naming `arg`.
pub open spec fn note_with(key: Seq<char>, arg: Seq<char>) -> NoteView {
    NoteView { key, arg: Some(arg) }
}

fn new_note(key: &str) -> (r: Note)
    ensures
        r@ == note_of(key@),
{
    Note { key: text::owned(key), arg: None }
}

fn new_note_with(key: &str, arg: &Vec<char>) -> (r: Note)
    ensures
        r@ == note_with(key@, arg@),
{
    Note { key: text::owned(key), arg: Some(text::string_of(arg)) }
}

/// One attachment as the analyst sees it.
pub struct Attachment {
    pub filename: String,
    pub size: usize,
    /// MD5 of the decoded body, in lower-case hexadecimal.
    pub hash: String,
    pub note: Note,
    /// The decoded body, base64-encoded again for transport.
    pub body_b64: String,
}

/// An attachment as plain values.
pub struct AttachmentView {
    pub filename: Seq<char>,
    pub size: int,
    pub hash: Seq<char>,
    pub note: NoteView,
    pub body_b64: Seq<char>,
}

impl View for Attachment {
    type V = AttachmentView;

    open spec fn view(&self) -> AttachmentView {
        AttachmentView {
            filename: self.filename@,
            size: self.size as int,
            hash: self.hash@,
            note: self.note@,
            body_b64: self.body_b64@,
        }
    }
}

/// Extensions of files that run code when opened.
pub open spec fn dangerous_exts() -> Seq<Seq<char>> {
    seq![
        ".exe"@, ".bat"@, ".vbs"@, ".ps1"@, ".iso"@, ".scr"@, ".cmd"@, ".js"@, ".wsf"@, ".pif"@,
        ".lnk"@, ".hta"@, ".cpl"@,
    ]
}

fn dangerous_ext_list() -> (r: [&'static str; 13])
    ensures
        r@.map_values(|w: &str| w@) == dangerous_exts(),
{
    let r = [
        ".exe", ".bat", ".vbs", ".ps1", ".iso", ".scr", ".cmd", ".js", ".wsf", ".pif", ".lnk",
        ".hta", ".cpl",
    ];
    assert(r@.map_values(|w: &str| w@) =~= dangerous_exts());
    r
}

/// Office formats, old and macro-enabled.
pub open spec fn office_exts() -> Seq<Seq<char>> {
    seq![".doc"@, ".xls"@, ".ppt"@, ".docm"@, ".xlsm"@, ".pptm"@, ".rtf"@]
}

fn office_ext_list() -> (r: [&'static str; 7])
    ensures
        r@.map_values(|w: &str| w@) == office_exts(),
{
    let r = [".doc", ".xls", ".ppt", ".docm", ".xlsm", ".pptm", ".rtf"];
    assert(r@.map_values(|w: &str| w@) =~= office_exts());
    r
}

/// Zip containers, Office's own formats among them.
pub open spec fn zip_exts() -> Seq<Seq<char>> {
    seq![".zip"@, ".docx"@, ".xlsx"@, ".docm"@, ".xlsm"@]
}

fn zip_ext_list() -> (r: [&'static str; 5])
    ensures
        r@.map_values(|w: &str| w@) == zip_exts(),
{
    let r = [".zip", ".docx", ".xlsx", ".docm", ".xlsm"];
    assert(r@.map_values(|w: &str| w@) =~= zip_exts());
    r
}

/// Tar archives, compressed or not.
pub open spec fn tar_exts() -> Seq<Seq<char>> {
    seq![".tar"@, ".gz"@, ".tgz"@]
}

fn tar_ext_list() -> (r: [&'static str; 3])
    ensures
        r@.map_values(|w: &str| w@) == tar_exts(),
{
    let r = [".tar", ".gz", ".tgz"];
    assert(r@.map_values(|w: &str| w@) =~= tar_exts());
    r
}

/// Names that hide an executable behind a document's extension.
pub open spec fn hidden_markers() -> Seq<Seq<char>> {
    seq![".pdf.lnk"@, ".doc.lnk"@, ".pdf.exe"@, "..exe"@]
}

fn hidden_marker_list() -> (r: [&'static str; 4])
    ensures
        r@.map_values(|w: &str| w@) == hidden_markers(),
{
    let r = [".pdf.lnk", ".doc.lnk", ".pdf.exe", "..exe"];
    assert(r@.map_values(|w: &str| w@) =~= hidden_markers());
    r
}

/// `l` ends with `ext`, or holds it followed by a space — or, where quotes
/// count, by a quote.
pub open spec fn ext_hit(l: Seq<char>, ext: Seq<char>, quotes: bool) -> bool {
    ||| text::ends_with_seq(l, ext)
    ||| text::contains_seq(l, ext + seq![' '])
    ||| (quotes && text::contains_seq(l, ext + seq!['"']))
}

/// Some dangerous extension is hit in `l`.
pub open spec fn dangerous_hit(l: Seq<char>, quotes: bool) -> bool {
    exists|k: int| 0 <= k < dangerous_exts().len() && ext_hit(l, #[trigger] dangerous_exts()[k], quotes)
}

fn with_char(v: &Vec<char>, c: char) -> (r: Vec<char>)
    ensures
        r@ == v@ + seq![c],
{
    let mut r = text::slice_chars(v, 0, v.len());
    assert(v@.subrange(0, v@.len() as int) =~= v@);
    r.push(c);
    assert(r@ =~= v@ + seq![c]);
    r
}

fn has_dangerous_hit(l: &Vec<char>, quotes: bool) -> (r: bool)
    ensures
        r == dangerous_hit(l@, quotes),
{
    let exts = dangerous_ext_list();
    let ghost ws = exts@.map_values(|w: &str| w@);
    let mut k: usize = 0;
    while k < exts.len()
        invariant
            k <= exts.len(),
            ws == exts@.map_values(|w: &str| w@),
            ws == dangerous_exts(),
            forall|j: int| 0 <= j < k ==> !ext_hit(l@, #[trigger] dangerous_exts()[j], quotes),
        decreases exts.len() - k,
    {
        let e = text::chars_of(exts[k]);
        let hit = text::ends_with(l, exts[k]) || text::contains(l, &with_char(&e, ' ')) || (quotes
            && text::contains(l, &with_char(&e, '"')));
        if hit {
            assert(ext_hit(l@, dangerous_exts()[k as int], quotes));
            return true;
        }
        k += 1;
    }
    false
}

/// Saturating increment, as the counters use.
pub open spec fn bump(n: int) -> int {
    if n < usize::MAX {
        n + 1
    } else {
        n
    }
}

/// What an entry name inside a zip gives away: `Some(true)` for a VBA
/// project (macros), `Some(false)` for an executable hidden inside.
pub open spec fn entry_finding(name: Seq<char>) -> Option<bool> {
    let l = text::unicode_lowercase(name);
    if text::contains_seq(l, "vbaproject.bin"@) {
        Some(true)
    } else if dangerous_hit(l, false) {
        Some(false)
    } else {
        None
    }
}

/// The first readable entry from `i` on that gives something away, with its
/// name and what it gives away.
pub open spec fn zip_scan(names: Seq<Option<Seq<char>>>, i: int) -> Option<(Seq<char>, bool)>
    decreases names.len() - i,
{
    if i < 0 || i >= names.len() {
        None
    } else if names[i] is Some && entry_finding(names[i]->0) is Some {
        Some((names[i]->0, entry_finding(names[i]->0)->0))
    } else {
        zip_scan(names, i + 1)
    }
}

/// What the entries of the zip in `body` give away, if it is a zip.
pub open spec fn zip_finding(body: Seq<u8>) -> Option<(Seq<char>, bool)> {
    match crate::archive::zip_listing(body) {
        None => None,
        Some(names) => zip_scan(names, 0),
    }
}

#[verifier::loop_isolation(false)]
fn inspect_zip(body: &[u8]) -> (r: Option<(String, bool)>)
    ensures
        r is None <==> zip_finding(body@) is None,
        r matches Some(f) ==> zip_finding(body@) == Some((f.0@, f.1)),
{
    let mut a = match crate::archive::open_archive(body) {
        Some(a) => a,
        None => return None,
    };
    let ghost names = crate::archive::zip_entries(a);
    let n = crate::archive::entry_count(&a);
    let mut i: usize = 0;
    while i < n
        invariant
            i <= n,
            n == names.len(),
            crate::archive::zip_entries(a) == names,
            zip_finding(body@) == zip_scan(names, i as int),
        decreases n - i,
    {
        if let Some(name) = crate::archive::entry_name(&mut a, i) {
            let l = text::lower_chars(name.as_str());
            if text::contains_str(&l, "vbaproject.bin") {
                return Some((name, true));
            }
            if has_dangerous_hit(&l, false) {
                return Some((name, false));
            }
        }
        i += 1;
    }
    None
}

/// What the strings of a body have shown so far: the note, the number of bad
/// attachments, and whether a hidden extension was seen.
pub struct StringScan {
    pub note: NoteView,
    pub bad: int,
    pub double_ext: bool,
}

/// Reading one string of an attachment's body: the new findings, and whether
/// to stop reading.
pub open spec fn scan_string(s: Seq<char>, acc: StringScan, has_archive: bool, is_pdf: bool) -> (StringScan, bool) {
    let sl = text::unicode_lowercase(s);
    if text::contains_any(sl, hidden_markers()) {
        (StringScan { note: note_with("notes.hidden"@, s), bad: bump(acc.bad), double_ext: true }, true)
    } else {
        let in_archive = has_archive && dangerous_hit(sl, true);
        let acc1 = if in_archive {
            StringScan { note: note_with("notes.in_archive"@, s), bad: bump(acc.bad), double_ext: true }
        } else {
            acc
        };
        let link = if is_pdf && text::contains_seq(sl, "/uri"@) && text::contains_seq(sl, "http"@) {
            linked_from(sl, 0)
        } else {
            None
        };
        let acc2 = match link {
            Some(u) => StringScan { note: note_with("notes.pdf_link"@, u), bad: bump(acc1.bad), double_ext: acc1.double_ext },
            None => acc1,
        };
        (acc2, in_archive || link is Some || acc2.bad > 0)
    }
}

/// Reading the strings from `i` on, until one says to stop.
pub open spec fn scan_strings(ss: Seq<Seq<char>>, i: int, acc: StringScan, has_archive: bool, is_pdf: bool) -> StringScan
    decreases ss.len() - i,
{
    if i < 0 || i >= ss.len() {
        acc
    } else {
        let (a, stop) = scan_string(ss[i], acc, has_archive, is_pdf);
        if stop {
            a
        } else {
            scan_strings(ss, i + 1, a, has_archive, is_pdf)
        }
    }
}

fn bump_exec(n: usize) -> (r: usize)
    ensures
        r == bump(n as int),
{
    if n < usize::MAX {
        n + 1
    } else {
        n
    }
}

#[verifier::loop_isolation(false)]
fn inspect_strings(body: &[u8], note0: Note, bad0: usize, double0: bool, has_archive: bool, is_pdf: bool) -> (r: (Note, usize, bool))
    ensures
        ({
            let s = scan_strings(strings_spec(body@), 0, StringScan { note: note0@, bad: bad0 as int, double_ext: double0 }, has_archive, is_pdf);
            r.0@ == s.note && r.1 as int == s.bad && r.2 == s.double_ext
        }),
{
    let ss = extract_strings(body);
    let ghost sv = text::string_views(ss@);
    let ghost goal = scan_strings(sv, 0, StringScan { note: note0@, bad: bad0 as int, double_ext: double0 }, has_archive, is_pdf);
    let markers = hidden_marker_list();
    let mut note = note0;
    let mut bad = bad0;
    let mut double = double0;
    let mut i: usize = 0;
    while i < ss.len()
        invariant
            i <= ss.len(),
            sv == text::string_views(ss@),
            markers@.map_values(|w: &str| w@) == hidden_markers(),
            goal == scan_strings(sv, i as int, StringScan { note: note@, bad: bad as int, double_ext: double }, has_archive, is_pdf),
        decreases ss.len() - i,
    {
        let s = text::chars_of(ss[i].as_str());
        let sl = text::lower_chars(ss[i].as_str());
        assert(sv[i as int] == s@);
        if text::contains_any_of(&sl, &markers) {
            return (new_note_with("notes.hidden", &s), bump_exec(bad), true);
        }
        let in_archive = has_archive && has_dangerous_hit(&sl, true);
        if in_archive {
            note = new_note_with("notes.in_archive", &s);
            bad = bump_exec(bad);
            double = true;
        }
        let mut linked = false;
        if is_pdf && text::contains_str(&sl, "/uri") && text::contains_str(&sl, "http") {
            if let Some(url) = linked_payload(&sl) {
                note = new_note_with("notes.pdf_link", &url);
                bad = bump_exec(bad);
                linked = true;
            }
        }
        if in_archive || linked || bad > 0 {
            return (note, bad, double);
        }
        i += 1;
    }
    (note, bad, double)
}

// ---------------------------------------------------------------------------
// The state of a reading
// ---------------------------------------------------------------------------

/// What has been found so far, part by part.
pub struct ScanState {
    pub attachments: Vec<Attachment>,
    pub iocs: Vec<String>,
    /// Who the message was sent to, as a bare address.
    pub recipient: String,
    /// Links that hide where they go: what was written, and where it ends up.
    pub cloaked: Vec<(String, String)>,
    pub victim_in_link: bool,
    pub credential_ask: bool,
    pub has_link: bool,
    pub bad_attachments: usize,
    pub total_psycho_words: usize,
    pub html_anomalies: usize,
    pub has_pwd_keyword: bool,
    pub has_crypto: bool,
    pub has_archive: bool,
    pub is_encrypted_zip: bool,
    pub has_double_ext: bool,
    pub has_macro: bool,
    /// Everything readable in the message, each part followed by a newline.
    pub body_text: String,
}

/// The state as plain values.
pub struct ScanView {
    pub attachments: Seq<AttachmentView>,
    pub iocs: Seq<Seq<char>>,
    pub recipient: Seq<char>,
    pub cloaked: Seq<(Seq<char>, Seq<char>)>,
    pub victim_in_link: bool,
    pub credential_ask: bool,
    pub has_link: bool,
    pub bad_attachments: int,
    pub total_psycho_words: int,
    pub html_anomalies: int,
    pub has_pwd_keyword: bool,
    pub has_crypto: bool,
    pub has_archive: bool,
    pub is_encrypted_zip: bool,
    pub has_double_ext: bool,
    pub has_macro: bool,
    pub body_text: Seq<char>,
}

/// Pairs of strings as plain values.
pub open spec fn pair_views(v: Seq<(String, String)>) -> Seq<(Seq<char>, Seq<char>)> {
    v.map_values(|p: (String, String)| (p.0@, p.1@))
}

/// Attachments as plain values.
pub open spec fn attachment_views(v: Seq<Attachment>) -> Seq<AttachmentView> {
    v.map_values(|a: Attachment| a@)
}

impl View for ScanState {
    type V = ScanView;

    open spec fn view(&self) -> ScanView {
        ScanView {
            attachments: attachment_views(self.attachments@),
            iocs: text::string_views(self.iocs@),
            recipient: self.recipient@,
            cloaked: pair_views(self.cloaked@),
            victim_in_link: self.victim_in_link,
            credential_ask: self.credential_ask,
            has_link: self.has_link,
            bad_attachments: self.bad_attachments as int,
            total_psycho_words: self.total_psycho_words as int,
            html_anomalies: self.html_anomalies as int,
            has_pwd_keyword: self.has_pwd_keyword,
            has_crypto: self.has_crypto,
            has_archive: self.has_archive,
            is_encrypted_zip: self.is_encrypted_zip,
            has_double_ext: self.has_double_ext,
            has_macro: self.has_macro,
            body_text: self.body_text@,
        }
    }
}

/// Saturating addition, as the counters use.
pub open spec fn sat_add(a: int, b: int) -> int {
    if a + b > usize::MAX {
        usize::MAX as int
    } else {
        a + b
    }
}

/// The body begins with a zip local file header whose flags mark it encrypted.
pub open spec fn encrypted_flag(body: Seq<u8>) -> bool {
    &&& body.len() > 6
    &&& body[0] == 0x50 && body[1] == 0x4B && body[2] == 0x03 && body[3] == 0x04
    &&& body[6] % 2 == 1
}

/// An archive-shaped name marks the message as carrying an archive, and a zip
/// whose header says encrypted as carrying an encrypted zip.
pub open spec fn archive_flags(lower: Seq<char>, body: Seq<u8>, st: ScanView) -> ScanView {
    let is_zip = text::ends_with_any(lower, zip_exts());
    let is_tar = text::ends_with_any(lower, tar_exts());
    let archive_like = is_zip || text::ends_with_seq(lower, ".rar"@) || text::ends_with_seq(lower, ".7z"@) || is_tar;
    if archive_like {
        ScanView { has_archive: true, is_encrypted_zip: st.is_encrypted_zip || (is_zip && encrypted_flag(body)), ..st }
    } else {
        st
    }
}

/// What the contents say when the name said nothing: the zip's entries, or
/// else the printable strings of the body.
pub open spec fn content_verdict(lower: Seq<char>, body: Seq<u8>, st: ScanView) -> (NoteView, ScanView) {
    let zf = if text::ends_with_any(lower, zip_exts()) {
        zip_finding(body)
    } else {
        None
    };
    match zf {
        Some((_, true)) => (note_of("notes.macro"@), ScanView { bad_attachments: bump(st.bad_attachments), has_macro: true, ..st }),
        Some((n, false)) => (note_with("notes.hidden"@, n), ScanView { bad_attachments: bump(st.bad_attachments), has_double_ext: true, ..st }),
        None => {
            let sc = scan_strings(
                strings_spec(body),
                0,
                StringScan { note: note_of("notes.ok"@), bad: st.bad_attachments, double_ext: st.has_double_ext },
                st.has_archive,
                text::ends_with_seq(lower, ".pdf"@),
            );
            (sc.note, ScanView { bad_attachments: sc.bad, has_double_ext: sc.double_ext, ..st })
        },
    }
}

/// The note on an attachment, and what it adds to the counts: a double
/// extension ending in an executable one, an executable, a macro-enabled or
/// an old Office format, an encrypted zip, or what the contents say.
pub open spec fn verdict(lower: Seq<char>, body: Seq<u8>, st: ScanView) -> (NoteView, ScanView) {
    let dangerous = text::ends_with_any(lower, dangerous_exts());
    let office = text::ends_with_any(lower, office_exts());
    if text::count_char(lower, '.') > 1 && dangerous {
        (note_of("notes.double_ext"@), ScanView { bad_attachments: bump(st.bad_attachments), has_double_ext: true, ..st })
    } else if dangerous {
        (note_of("notes.exe"@), ScanView { bad_attachments: bump(st.bad_attachments), ..st })
    } else if office && text::ends_with_seq(lower, "m"@) {
        (note_of("notes.macro_format"@), ScanView { bad_attachments: bump(st.bad_attachments), has_macro: true, ..st })
    } else if office {
        (note_of("notes.legacy_office"@), ScanView { bad_attachments: bump(st.bad_attachments), ..st })
    } else if st.is_encrypted_zip {
        (note_of("notes.enc_zip"@), st)
    } else {
        content_verdict(lower, body, st)
    }
}

/// What one attachment, named `name` with body `body`, adds to the state: the
/// archive flags, then the verdict on its lower-cased name and contents, and
/// the attachment itself with its size, MD5 and base64 body.
pub open spec fn attachment_step(name: Seq<char>, body: Seq<u8>, st: ScanView) -> ScanView {
    let lower = text::unicode_lowercase(name);
    let st1 = archive_flags(lower, body, st);
    let (note, st2) = verdict(lower, body, st1);
    ScanView {
        attachments: st2.attachments.push(AttachmentView {
            filename: name,
            size: body.len() as int,
            hash: crate::encoding::hex_lower(crate::digest::md5_digest(body)),
            note,
            body_b64: crate::encoding::base64_standard_encoding(body),
        }),
        ..st2
    }
}

fn is_encrypted_zip_header(body: &[u8]) -> (r: bool)
    ensures
        r == encrypted_flag(body@),
{
    body.len() > 6 && body[0] == 0x50 && body[1] == 0x4B && body[2] == 0x03 && body[3] == 0x04 && body[6] % 2 == 1
}

fn mark_archive(lower: &Vec<char>, body: &[u8], st0: ScanState) -> (st: ScanState)
    ensures
        st@ == archive_flags(lower@, body@, st0@),
{
    let mut st = st0;
    let is_zip = text::ends_with_any_of(lower, &zip_ext_list());
    let is_tar = text::ends_with_any_of(lower, &tar_ext_list());
    if is_zip || text::ends_with(lower, ".rar") || text::ends_with(lower, ".7z") || is_tar {
        st.has_archive = true;
        if is_zip && is_encrypted_zip_header(body) {
            st.is_encrypted_zip = true;
        }
    }
    st
}

fn judge_contents(lower: &Vec<char>, body: &[u8], st0: ScanState) -> (r: (Note, ScanState))
    ensures
        (r.0@, r.1@) == content_verdict(lower@, body@, st0@),
{
    let mut st = st0;
    let finding = if text::ends_with_any_of(lower, &zip_ext_list()) {
        inspect_zip(body)
    } else {
        None
    };
    let note;
    match finding {
        Some((_, true)) => {
            note = new_note("notes.macro");
            st.bad_attachments = bump_exec(st.bad_attachments);
            st.has_macro = true;
        },
        Some((inner, false)) => {
            note = new_note_with("notes.hidden", &text::chars_of(inner.as_str()));
            st.bad_attachments = bump_exec(st.bad_attachments);
            st.has_double_ext = true;
        },
        None => {
            let is_pdf = text::ends_with(lower, ".pdf");
            let (n, bad, double) = inspect_strings(
                body,
                new_note("notes.ok"),
                st.bad_attachments,
                st.has_double_ext,
                st.has_archive,
                is_pdf,
            );
            note = n;
            st.bad_attachments = bad;
            st.has_double_ext = double;
        },
    }
    (note, st)
}

fn judge(lower: &Vec<char>, body: &[u8], st0: ScanState) -> (r: (Note, ScanState))
    ensures
        (r.0@, r.1@) == verdict(lower@, body@, st0@),
{
    let mut st = st0;
    let dangerous = text::ends_with_any_of(lower, &dangerous_ext_list());
    let office = text::ends_with_any_of(lower, &office_ext_list());
    if text::count_of(lower, '.') > 1 && dangerous {
        st.bad_attachments = bump_exec(st.bad_attachments);
        st.has_double_ext = true;
        (new_note("notes.double_ext"), st)
    } else if dangerous {
        st.bad_attachments = bump_exec(st.bad_attachments);
        (new_note("notes.exe"), st)
    } else if office && text::ends_with(lower, "m") {
        st.bad_attachments = bump_exec(st.bad_attachments);
        st.has_macro = true;
        (new_note("notes.macro_format"), st)
    } else if office {
        st.bad_attachments = bump_exec(st.bad_attachments);
        (new_note("notes.legacy_office"), st)
    } else if st.is_encrypted_zip {
        (new_note("notes.enc_zip"), st)
    } else {
        judge_contents(lower, body, st)
    }
}

/// Record one attachment.
fn examine_attachment(name: String, body: &[u8], st0: ScanState) -> (st: ScanState)
    ensures
        st@ == attachment_step(name@, body@, st0@),
{
    let lower = text::lower_chars(name.as_str());
    let st1 = mark_archive(&lower, body, st0);
    let (note, mut st) = judge(&lower, body, st1);
    let hash = crate::digest::md5_hex(body);
    let body_b64 = crate::encoding::base64_encode(body);
    let ghost before = st.attachments@;
    let att = Attachment { filename: name, size: body.len(), hash, note, body_b64 };
    st.attachments.push(att);
    assert(attachment_views(st.attachments@) =~= attachment_views(before).push(att@));
    st
}

// ---------------------------------------------------------------------------
// Text parts
// ---------------------------------------------------------------------------

/// The links among `hs` that hide where they go, each with where it ends up.
pub open spec fn cloaked_of(hs: Seq<Seq<char>>) -> Seq<(Seq<char>, Seq<char>)>
    decreases hs.len(),
{
    if hs.len() == 0 {
        Seq::empty()
    } else {
        let prev = cloaked_of(hs.drop_last());
        match crate::links::redirect_target_spec(hs.last()) {
            Some(t) => prev.push((hs.last(), t)),
            None => prev,
        }
    }
}

/// Some link among `hs` carries `address` in its fragment.
pub open spec fn carries_any(hs: Seq<Seq<char>>, address: Seq<char>) -> bool {
    exists|k: int| 0 <= k < hs.len() && crate::links::fragment_carries_spec(#[trigger] hs[k], address)
}

/// Some indicator is a cryptocurrency wallet.
pub open spec fn names_wallet(found: Seq<Seq<char>>) -> bool {
    exists|k: int|
        0 <= k < found.len() && (text::starts_with_seq(#[trigger] found[k], "BTC:"@) || text::starts_with_seq(found[k], "ETH:"@)
            || text::starts_with_seq(found[k], "XMR:"@))
}

/// What a readable text part adds to the state: its pressure words and any
/// password, its text, its links (whether there are any, which are cloaked,
/// whether one carries the recipient's address), whether it asks for
/// credentials, its HTML anomalies when it is HTML, and its indicators.
pub open spec fn text_step(t: Seq<char>, is_html: bool, st: ScanView) -> ScanView {
    let words = crate::ioc::psycho_words_spec(t);
    let hs = crate::links::hrefs_spec(t);
    let found = crate::order::sorted_list(crate::ioc::indicators(t));
    ScanView {
        total_psycho_words: sat_add(st.total_psycho_words, words.0 as int),
        has_pwd_keyword: st.has_pwd_keyword || words.1,
        body_text: st.body_text + t + seq!['\n'],
        has_link: st.has_link || hs.len() > 0,
        cloaked: st.cloaked + cloaked_of(hs),
        victim_in_link: st.victim_in_link || carries_any(hs, st.recipient),
        credential_ask: st.credential_ask || crate::links::asks_for_credentials_spec(t),
        html_anomalies: if is_html {
            sat_add(st.html_anomalies, crate::ioc::html_anomalies_spec(t))
        } else {
            st.html_anomalies
        },
        has_crypto: st.has_crypto || names_wallet(found),
        iocs: st.iocs + found,
        ..st
    }
}

fn sat_add_exec(a: usize, b: usize) -> (r: usize)
    ensures
        r == sat_add(a as int, b as int),
{
    if a > usize::MAX - b {
        usize::MAX
    } else {
        a + b
    }
}

/// `a`, then `b`, then a newline.
fn append_line(a: &String, b: &str) -> (r: String)
    ensures
        r@ == a@ + b@ + seq!['\n'],
{
    let mut v = text::chars_of(a.as_str());
    let w = text::chars_of(b);
    let mut i: usize = 0;
    let ghost start = v@;
    while i < w.len()
        invariant
            i <= w.len(),
            v@ == start + w@.take(i as int),
        decreases w.len() - i,
    {
        v.push(w[i]);
        i += 1;
        assert(v@ =~= start + w@.take(i as int));
    }
    assert(w@.take(i as int) =~= w@);
    v.push('\n');
    assert(v@ =~= a@ + b@ + seq!['\n']);
    text::string_of(&v)
}

#[verifier::loop_isolation(false)]
fn follow_links(hs: &Vec<String>, recipient: &String, cloaked0: Vec<(String, String)>) -> (r: (Vec<(String, String)>, bool))
    ensures
        pair_views(r.0@) == pair_views(cloaked0@) + cloaked_of(text::string_views(hs@)),
        r.1 == carries_any(text::string_views(hs@), recipient@),
{
    let ghost hv = text::string_views(hs@);
    let mut cloaked = cloaked0;
    let mut victim = false;
    let mut k: usize = 0;
    assert(pair_views(cloaked@) =~= pair_views(cloaked0@) + cloaked_of(hv.take(0)));
    while k < hs.len()
        invariant
            k <= hs.len(),
            hv == text::string_views(hs@),
            pair_views(cloaked@) == pair_views(cloaked0@) + cloaked_of(hv.take(k as int)),
            victim == carries_any(hv.take(k as int), recipient@),
        decreases hs.len() - k,
    {
        let ghost pre = hv.take(k as int);
        let ghost nxt = hv.take(k + 1);
        assert(nxt.drop_last() =~= pre);
        assert(nxt.last() == hv[k as int]);
        assert(hv[k as int] == hs@[k as int]@);
        let href = &hs[k];
        let ghost before = cloaked@;
        match crate::links::redirect_target(href.as_str()) {
            Some(t) => {
                let copy = text::owned(href.as_str());
                cloaked.push((copy, t));
                assert(pair_views(cloaked@) =~= pair_views(before).push((hv[k as int], t@)));
            },
            None => {},
        }
        assert(pair_views(cloaked@) =~= pair_views(cloaked0@) + cloaked_of(nxt));
        let carries = crate::links::fragment_carries(href.as_str(), recipient.as_str());
        proof {
            if carries_any(nxt, recipient@) && !carries_any(pre, recipient@) {
                let j = choose|j: int| 0 <= j < nxt.len() && crate::links::fragment_carries_spec(#[trigger] nxt[j], recipient@);
                assert(j == k);
            }
            if carries_any(pre, recipient@) {
                let j = choose|j: int| 0 <= j < pre.len() && crate::links::fragment_carries_spec(#[trigger] pre[j], recipient@);
                assert(nxt[j] == pre[j]);
            }
            if carries {
                assert(crate::links::fragment_carries_spec(nxt[k as int], recipient@));
            }
        }
        victim = victim || carries;
        k += 1;
    }
    assert(hv.take(hs.len() as int) =~= hv);
    (cloaked, victim)
}

fn any_wallet(found: &Vec<String>) -> (r: bool)
    ensures
        r == names_wallet(text::string_views(found@)),
{
    let ghost fv = text::string_views(found@);
    let mut k: usize = 0;
    while k < found.len()
        invariant
            k <= found.len(),
            fv == text::string_views(found@),
            forall|j: int|
                0 <= j < k ==> !(text::starts_with_seq(#[trigger] fv[j], "BTC:"@) || text::starts_with_seq(fv[j], "ETH:"@)
                    || text::starts_with_seq(fv[j], "XMR:"@)),
        decreases found.len() - k,
    {
        let c = text::chars_of(found[k].as_str());
        assert(fv[k as int] == c@);
        if text::starts_with(&c, "BTC:") || text::starts_with(&c, "ETH:") || text::starts_with(&c, "XMR:") {
            return true;
        }
        k += 1;
    }
    false
}

/// Record one readable text part.
fn examine_text(t: &str, is_html: bool, st0: ScanState) -> (st: ScanState)
    ensures
        st@ == text_step(t@, is_html, st0@),
{
    let mut st = st0;
    let (sc, pwd) = crate::ioc::count_psycho_words(t);
    st.total_psycho_words = sat_add_exec(st.total_psycho_words, sc);
    if pwd {
        st.has_pwd_keyword = true;
    }
    st.body_text = append_line(&st.body_text, t);
    let hs = crate::links::hrefs(t);
    if hs.len() > 0 {
        st.has_link = true;
    }
    let (cloaked, victim) = follow_links(&hs, &st.recipient, st.cloaked);
    st.cloaked = cloaked;
    if victim {
        st.victim_in_link = true;
    }
    if crate::links::asks_for_credentials(t) {
        st.credential_ask = true;
    }
    if is_html {
        st.html_anomalies = sat_add_exec(st.html_anomalies, crate::ioc::check_html_anomalies(t));
    }
    let found = crate::ioc::extract(t);
    if any_wallet(&found) {
        st.has_crypto = true;
    }
    let ghost before = st.iocs@;
    let mut found = found;
    st.iocs.append(&mut found);
    assert(text::string_views(st.iocs@) =~= text::string_views(before) + crate::order::sorted_list(crate::ioc::indicators(t@)));
    st
}

// ---------------------------------------------------------------------------
// The part tree
// ---------------------------------------------------------------------------

/// The name a part gives itself: its Content-Disposition's `filename`, or
/// failing that its Content-Type's `name`.
pub open spec fn declared_name(p: MailPart) -> Option<Seq<char>> {
    match crate::mime::param(p.disposition_params@, "filename"@) {
        Some(f) => Some(f),
        None => crate::mime::param(p.ctype_params@, "name"@),
    }
}

/// The decoded body, or nothing where decoding failed.
pub open spec fn body_of(p: MailPart) -> Seq<u8> {
    match p.body_raw {
        Some(b) => b@,
        None => Seq::empty(),
    }
}

/// What one part adds by itself: an attachment (disposition `attachment`, or
/// a declared name) that is not a multipart is examined as a file, named
/// "unknown" if it gives no name; a `text/plain` or `text/html` part whose text
/// could be decoded is read as text; anything else adds nothing.
pub open spec fn part_step(p: MailPart, st: ScanView) -> ScanView {
    let name = declared_name(p);
    if (p.disposition_is_attachment || name is Some) && !text::starts_with_seq(p.mimetype@, "multipart/"@) {
        attachment_step(
            match name {
                Some(n) => n,
                None => "unknown"@,
            },
            body_of(p),
            st,
        )
    } else if p.mimetype@ == "text/plain"@ || p.mimetype@ == "text/html"@ {
        match p.body_text {
            Some(t) => text_step(t@, p.mimetype@ == "text/html"@, st),
            None => st,
        }
    } else {
        st
    }
}

/// A part and then all of its subparts, depth first, in order.
pub open spec fn process_spec(p: MailPart, st: ScanView) -> ScanView
    decreases p, 1int,
{
    process_seq(p.subparts@, part_step(p, st))
}

/// Each part of `ps` in turn, with all of its subparts.
pub open spec fn process_seq(ps: Seq<MailPart>, st: ScanView) -> ScanView
    decreases ps, 0int,
{
    if ps.len() == 0 {
        st
    } else {
        process_spec(ps.last(), process_seq(ps.drop_last(), st))
    }
}

fn step_part(part: &MailPart, st0: ScanState) -> (st: ScanState)
    ensures
        st@ == part_step(*part, st0@),
{
    let name = match crate::mime::param_value(&part.disposition_params, "filename") {
        Some(f) => Some(f),
        None => crate::mime::param_value(&part.ctype_params, "name"),
    };
    let mime = text::chars_of(part.mimetype.as_str());
    let named = name.is_some();
    if (part.disposition_is_attachment || named) && !text::starts_with(&mime, "multipart/") {
        let n = match name {
            Some(n) => n,
            None => text::owned("unknown"),
        };
        let empty: Vec<u8> = Vec::new();
        let body: &Vec<u8> = match &part.body_raw {
            Some(b) => b,
            None => &empty,
        };
        examine_attachment(n, body.as_slice(), st0)
    } else {
        let plain = text::chars_of("text/plain");
        let html = text::chars_of("text/html");
        let is_html = text::eq_chars(&mime, &html);
        if text::eq_chars(&mime, &plain) || is_html {
            match &part.body_text {
                Some(t) => examine_text(t.as_str(), is_html, st0),
                None => st0,
            }
        } else {
            st0
        }
    }
}

/// Read a part and everything inside it.
fn process_part(part: &MailPart, st0: ScanState) -> (st: ScanState)
    ensures
        st@ == process_spec(*part, st0@),
    decreases part,
{
    let st1 = step_part(part, st0);
    let ghost s1 = st1@;
    let mut st = st1;
    let mut i: usize = 0;
    assert(part.subparts@.take(0) =~= Seq::<MailPart>::empty());
    while i < part.subparts.len()
        invariant
            i <= part.subparts.len(),
            st@ == process_seq(part.subparts@.take(i as int), s1),
        decreases part.subparts.len() - i,
    {
        let ghost pre = part.subparts@.take(i as int);
        let ghost nxt = part.subparts@.take(i + 1);
        assert(nxt.drop_last() =~= pre);
        assert(nxt.last() == part.subparts@[i as int]);
        st = process_part(&part.subparts[i], st);
        i += 1;
    }
    assert(part.subparts@.take(i as int) =~= part.subparts@);
    st
}

// ---------------------------------------------------------------------------
// The whole message
// ---------------------------------------------------------------------------

/// Everything the analysis of one message produces.
pub struct Report {
    /// MD5 of the raw message, in lower-case hexadecimal.
    pub eml_hash: String,
    pub headers: HeaderData,
    pub scoring: Scoring,
    /// Indicators, sorted, each once; cloaked links' destinations among them
    /// as `Redirect: ...`.
    pub iocs: Vec<String>,
    pub attachments: Vec<Attachment>,
}

/// Nothing found yet, with the recipient known.
pub open spec fn initial(recipient: Seq<char>) -> ScanView {
    ScanView {
        attachments: Seq::empty(),
        iocs: Seq::empty(),
        recipient,
        cloaked: Seq::empty(),
        victim_in_link: false,
        credential_ask: false,
        has_link: false,
        bad_attachments: 0,
        total_psycho_words: 0,
        html_anomalies: 0,
        has_pwd_keyword: false,
        has_crypto: false,
        has_archive: false,
        is_encrypted_zip: false,
        has_double_ext: false,
        has_macro: false,
        body_text: Seq::empty(),
    }
}

/// The reading of a whole message: the subject's pressure words and password
/// mention, then every part, the recipient being the To header's bare address.
pub open spec fn scan_message(m: MailPart, h: HeaderView) -> ScanView {
    let words = crate::ioc::psycho_words_spec(h.subject);
    let st0 = initial(crate::links::bare_address_spec(h.to));
    let st1 = ScanView { total_psycho_words: words.0 as int, has_pwd_keyword: words.1, ..st0 };
    process_spec(m, st1)
}

/// The message talks about the recipient's own mail domain (in its text or its
/// subject, lower-cased) while coming from another organisation.
pub open spec fn impersonation_spec(h: HeaderView, st: ScanView) -> bool {
    let rd = crate::links::domain_of_spec(st.recipient);
    let fd = crate::links::domain_of_spec(crate::links::bare_address_spec(h.from));
    let names = rd.len() > 0 && (text::contains_seq(text::unicode_lowercase(st.body_text), rd)
        || text::contains_seq(text::unicode_lowercase(h.subject), rd));
    names && fd.len() > 0 && crate::links::registrable_spec(fd) != crate::links::registrable_spec(rd)
}

/// The signals of a reading. Asking for credentials counts only where there
/// is a link to type them into; a domain before the `@` counts in From or in
/// Reply-To.
pub open spec fn signals_spec(h: HeaderView, st: ScanView) -> Signals {
    Signals {
        bad_attachments: st.bad_attachments as usize,
        has_double_ext: st.has_double_ext,
        psycho_words: st.total_psycho_words as usize,
        html_anomalies: st.html_anomalies as usize,
        has_crypto: st.has_crypto,
        has_archive: st.has_archive,
        is_encrypted_zip: st.is_encrypted_zip,
        has_pwd_keyword: st.has_pwd_keyword,
        has_macro: st.has_macro,
        cloaked_links: st.cloaked.len() as usize,
        victim_in_link: st.victim_in_link,
        credential_ask: st.credential_ask && st.has_link,
        impersonates_recipient: impersonation_spec(h, st),
        domain_in_local_part: crate::links::domain_in_local_part_spec(h.from)
            || crate::links::domain_in_local_part_spec(h.reply_to),
    }
}

/// The indicators of a reading, and where each cloaked link ends up.
pub open spec fn indicator_elems(st: ScanView) -> Set<Seq<char>> {
    Set::new(
        |s: Seq<char>|
            st.iocs.contains(s) || exists|k: int| 0 <= k < st.cloaked.len() && s == "Redirect: "@ + (#[trigger] st.cloaked[k]).1,
    )
}

/// What `parse` owes for a message it reads: the MD5 of the raw bytes, the
/// headers' reading, the score and its reasons for the signals of the whole
/// message, the attachments in the order met, and the indicators sorted, each
/// once, with the destination of every cloaked link among them.
pub open spec fn report_spec(content: Seq<u8>, m: MailPart, r: Report) -> bool {
    let h = crate::headers::analyze_spec(m.headers@);
    let st = scan_message(m, h);
    let sig = signals_spec(h, st);
    &&& r.eml_hash@ == crate::encoding::hex_lower(crate::digest::md5_digest(content))
    &&& r.headers@ == h
    &&& scoring::triggers_view(r.scoring.triggers@) == scoring::triggers_spec(h, sig)
    &&& r.scoring.score == scoring::score_spec(h, sig)
    &&& text::string_views(r.iocs@) == crate::order::sorted_list(indicator_elems(st))
    &&& crate::order::sorted_strict(text::string_views(r.iocs@))
    &&& forall|s: Seq<char>| text::string_views(r.iocs@).contains(s) <==> indicator_elems(st).contains(s)
    &&& attachment_views(r.attachments@) == st.attachments
}

fn with_prefix(prefix: &str, v: &String) -> (r: Vec<char>)
    ensures
        r@ == prefix@ + v@,
{
    let mut r = text::chars_of(prefix);
    let w = text::chars_of(v.as_str());
    let ghost start = r@;
    let mut i: usize = 0;
    while i < w.len()
        invariant
            i <= w.len(),
            r@ == start + w@.take(i as int),
        decreases w.len() - i,
    {
        r.push(w[i]);
        i += 1;
        assert(r@ =~= start + w@.take(i as int));
    }
    assert(w@.take(i as int) =~= w@);
    r
}

fn collect_indicators(st: &ScanState) -> (r: Vec<String>)
    ensures
        crate::order::sorted_strict(text::string_views(r@)),
        forall|s: Seq<char>| text::string_views(r@).contains(s) <==> indicator_elems(st@).contains(s),
        text::string_views(r@) == crate::order::sorted_list(indicator_elems(st@)),
{
    let ghost sv = st@;
    let mut acc: Vec<Vec<char>> = Vec::new();
    assert(text::views(acc@) =~= Seq::<Seq<char>>::empty());
    let mut k: usize = 0;
    while k < st.iocs.len()
        invariant
            k <= st.iocs.len(),
            sv == st@,
            crate::order::sorted_strict(text::views(acc@)),
            forall|s: Seq<char>| #![trigger text::views(acc@).contains(s)]
                text::views(acc@).contains(s) <==> sv.iocs.take(k as int).contains(s),
        decreases st.iocs.len() - k,
    {
        let c = text::chars_of(st.iocs[k].as_str());
        assert(sv.iocs[k as int] == c@);
        let ghost before = text::views(acc@);
        crate::order::insert_sorted(&mut acc, c);
        let ghost t1 = sv.iocs.take(k + 1);
        let ghost t0 = sv.iocs.take(k as int);
        assert forall|s: Seq<char>| #![trigger text::views(acc@).contains(s)]
            text::views(acc@).contains(s) <==> t1.contains(s) by {
            assert(t1 =~= t0.push(sv.iocs[k as int]));
            assert(before.contains(s) <==> t0.contains(s));
            if t1.contains(s) && s != sv.iocs[k as int] {
                let j = choose|j: int| 0 <= j < t1.len() && t1[j] == s;
                assert(t0[j] == s);
            }
            if t0.contains(s) {
                let j = choose|j: int| 0 <= j < t0.len() && t0[j] == s;
                assert(t1[j] == s);
            }
            if s == sv.iocs[k as int] {
                assert(t1[k as int] == s);
            }
        }
        k += 1;
    }
    assert(sv.iocs.take(k as int) =~= sv.iocs);
    let mut c: usize = 0;
    while c < st.cloaked.len()
        invariant
            c <= st.cloaked.len(),
            sv == st@,
            crate::order::sorted_strict(text::views(acc@)),
            forall|s: Seq<char>| #![trigger text::views(acc@).contains(s)]
                text::views(acc@).contains(s) <==> (sv.iocs.contains(s) || exists|j: int|
                    0 <= j < c && s == "Redirect: "@ + (#[trigger] sv.cloaked[j]).1),
        decreases st.cloaked.len() - c,
    {
        let item = with_prefix("Redirect: ", &st.cloaked[c].1);
        assert(sv.cloaked[c as int].1 == st.cloaked@[c as int].1@);
        let ghost x = item@;
        let ghost before = text::views(acc@);
        crate::order::insert_sorted(&mut acc, item);
        assert forall|s: Seq<char>| #![trigger text::views(acc@).contains(s)]
            text::views(acc@).contains(s) <==> (sv.iocs.contains(s) || exists|j: int|
                0 <= j < c + 1 && s == "Redirect: "@ + (#[trigger] sv.cloaked[j]).1) by {
            assert(before.contains(s) <==> (sv.iocs.contains(s) || exists|j: int|
                0 <= j < c && s == "Redirect: "@ + (#[trigger] sv.cloaked[j]).1));
            if exists|j: int| 0 <= j < c + 1 && s == "Redirect: "@ + (#[trigger] sv.cloaked[j]).1 {
                let j = choose|j: int| 0 <= j < c + 1 && s == "Redirect: "@ + (#[trigger] sv.cloaked[j]).1;
                if j == c {
                    assert(s == x);
                }
            }
            if s == x {
                assert(s == "Redirect: "@ + sv.cloaked[c as int].1);
            }
        }
        c += 1;
    }
    assert forall|s: Seq<char>| text::views(acc@).contains(s) <==> indicator_elems(sv).contains(s) by {
        assert(text::views(acc@).contains(s) <==> (sv.iocs.contains(s) || exists|j: int|
            0 <= j < c && s == "Redirect: "@ + (#[trigger] sv.cloaked[j]).1));
    }
    let mut r: Vec<String> = Vec::new();
    let mut k: usize = 0;
    while k < acc.len()
        invariant
            k <= acc.len(),
            text::string_views(r@) == text::views(acc@).take(k as int),
        decreases acc.len() - k,
    {
        let ghost old_r = r@;
        r.push(text::string_of(&acc[k]));
        assert(text::string_views(r@) =~= text::string_views(old_r).push(acc@[k as int]@));
        assert(text::views(acc@).take(k + 1) =~= text::views(acc@).take(k as int).push(acc@[k as int]@));
        k += 1;
    }
    assert(text::views(acc@).take(acc.len() as int) =~= text::views(acc@));
    proof {
        crate::order::lemma_is_sorted_list(text::string_views(r@), indicator_elems(sv));
    }
    r
}

fn impersonates(h: &HeaderData, st: &ScanState) -> (r: bool)
    ensures
        r == impersonation_spec(h@, st@),
{
    let rd = text::chars_of(crate::links::domain_of(st.recipient.as_str()).as_str());
    let from = crate::links::bare_address(h.from.as_str());
    let fd = text::chars_of(crate::links::domain_of(from.as_str()).as_str());
    let names = rd.len() > 0 && (text::contains(&text::lower_chars(st.body_text.as_str()), &rd)
        || text::contains(&text::lower_chars(h.subject.as_str()), &rd));
    if names && fd.len() > 0 {
        let a = text::chars_of(crate::links::registrable(text::string_of(&fd).as_str()).as_str());
        let b = text::chars_of(crate::links::registrable(text::string_of(&rd).as_str()).as_str());
        !text::eq_chars(&a, &b)
    } else {
        false
    }
}

/// Read a raw message and weigh everything in it.
///
/// The message is refused only where the MIME parser refuses it (with the
/// parser's own words) or where its counts are too large for the score's
/// arithmetic.
pub fn parse(content: &[u8]) -> (r: Result<Report, String>)
    ensures
        r is Ok <==> (crate::mime::parsed_mail(content@) is Some && ({
            let m = crate::mime::parsed_mail(content@)->0;
            let h = crate::headers::analyze_spec(m.headers@);
            scoring::raw_score(h, signals_spec(h, scan_message(m, h))) <= u32::MAX
        })),
        r matches Ok(rep) ==> report_spec(content@, crate::mime::parsed_mail(content@)->0, rep),
{
    let parsed = match crate::mime::parse_mail(content) {
        Ok(p) => p,
        Err(e) => return Err(e),
    };
    let eml_hash = crate::digest::md5_hex(content);
    let headers = crate::headers::analyze(&parsed);
    let recipient = crate::links::bare_address(headers.to.as_str());
    let mut st = ScanState {
        attachments: Vec::new(),
        iocs: Vec::new(),
        recipient,
        cloaked: Vec::new(),
        victim_in_link: false,
        credential_ask: false,
        has_link: false,
        bad_attachments: 0,
        total_psycho_words: 0,
        html_anomalies: 0,
        has_pwd_keyword: false,
        has_crypto: false,
        has_archive: false,
        is_encrypted_zip: false,
        has_double_ext: false,
        has_macro: false,
        body_text: String::new(),
    };
    let (sc, pwd) = crate::ioc::count_psycho_words(headers.subject.as_str());
    st.total_psycho_words = sc;
    st.has_pwd_keyword = pwd;
    assert(attachment_views(st.attachments@) =~= Seq::<AttachmentView>::empty());
    assert(text::string_views(st.iocs@) =~= Seq::<Seq<char>>::empty());
    assert(pair_views(st.cloaked@) =~= Seq::<(Seq<char>, Seq<char>)>::empty());
    assert(st@ == ScanView {
        total_psycho_words: crate::ioc::psycho_words_spec(headers@.subject).0 as int,
        has_pwd_keyword: crate::ioc::psycho_words_spec(headers@.subject).1,
        ..initial(crate::links::bare_address_spec(headers@.to))
    });
    let st = process_part(&parsed, st);
    let impersonation = impersonates(&headers, &st);
    let iocs = collect_indicators(&st);
    let signals = Signals {
        bad_attachments: st.bad_attachments,
        has_double_ext: st.has_double_ext,
        psycho_words: st.total_psycho_words,
        html_anomalies: st.html_anomalies,
        has_crypto: st.has_crypto,
        has_archive: st.has_archive,
        is_encrypted_zip: st.is_encrypted_zip,
        has_pwd_keyword: st.has_pwd_keyword,
        has_macro: st.has_macro,
        cloaked_links: st.cloaked.len(),
        victim_in_link: st.victim_in_link,
        credential_ask: st.credential_ask && st.has_link,
        impersonates_recipient: impersonation,
        domain_in_local_part: crate::links::domain_in_local_part(headers.from.as_str())
            || crate::links::domain_in_local_part(headers.reply_to.as_str()),
    };
    assert(signals == signals_spec(headers@, st@));
    if !scoring::points_fit(&headers, &signals) {
        return Err(text::owned("the message's counts are too large to score"));
    }
    let scoring = scoring::calculate(&headers, &signals);
    Ok(Report { eml_hash, headers, scoring, iocs, attachments: st.attachments })
}

} // verus!
