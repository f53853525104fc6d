//! What a link is really for.
//!
//! A message with no files at all — one link, one sentence — is the shape most
//! credential theft takes. What is read here is where a link **goes**, what it
//! **carries**, and whether the message asks for a password in the first place.

use vstd::prelude::*;
use crate::text;
use crate::matching;

verus! {

// ---------------------------------------------------------------------------
// Word lists
// ---------------------------------------------------------------------------

/// Two-label public suffixes, where the last two labels are a registry and not
/// an organisation.
pub open spec fn two_label_suffixes() -> Seq<Seq<char>> {
    seq![
        "gov.ua"@, "com.ua"@, "co.uk"@, "org.uk"@, "gov.uk"@, "ac.uk"@, "go.id"@, "co.id"@,
        "com.br"@, "com.au"@, "co.jp"@, "com.tr"@,
    ]
}

fn two_label_list() -> (r: [&'static str; 12])
    ensures
        r@.map_values(|w: &str| w@) == two_label_suffixes(),
{
    let r = [
        "gov.ua", "com.ua", "co.uk", "org.uk", "gov.uk", "ac.uk", "go.id", "co.id", "com.br",
        "com.au", "co.jp", "com.tr",
    ];
    assert(r@.map_values(|w: &str| w@) =~= two_label_suffixes());
    r
}

/// Endings that are never anybody's name.
pub open spec fn never_a_name() -> Seq<Seq<char>> {
    seq!["com"@, "net"@, "org"@, "gov"@, "edu"@, "mil"@]
}

fn never_a_name_list() -> (r: [&'static str; 6])
    ensures
        r@.map_values(|w: &str| w@) == never_a_name(),
{
    let r = ["com", "net", "org", "gov", "edu", "mil"];
    assert(r@.map_values(|w: &str| w@) =~= never_a_name());
    r
}

/// Words of confirmation.
pub open spec fn credential_asks() -> Seq<Seq<char>> {
    seq![
        "підтверд"@, "перевірте"@, "оновіть"@, "відновіть"@, "авторизуйтеся"@, "подтверд"@,
        "проверьте"@, "обновите"@, "confirm"@, "verify"@, "validate"@, "reactivate"@,
        "re-activate"@, "sign in"@,
    ]
}

fn credential_asks_list() -> (r: [&'static str; 14])
    ensures
        r@.map_values(|w: &str| w@) == credential_asks(),
{
    let r = [
        "підтверд", "перевірте", "оновіть", "відновіть", "авторизуйтеся", "подтверд",
        "проверьте", "обновите", "confirm", "verify", "validate", "reactivate", "re-activate",
        "sign in",
    ];
    assert(r@.map_values(|w: &str| w@) =~= credential_asks());
    r
}

/// The things being confirmed.
pub open spec fn credential_objects() -> Seq<Seq<char>> {
    seq![
        "облікові дані"@, "облікових даних"@, "обліковий запис"@, "облікового запису"@,
        "пошт"@, "пароль"@, "скриньк"@, "учетн"@, "почтов"@, "account"@, "credential"@,
        "password"@, "mailbox"@, "e-mail address"@,
    ]
}

fn credential_objects_list() -> (r: [&'static str; 14])
    ensures
        r@.map_values(|w: &str| w@) == credential_objects(),
{
    let r = [
        "облікові дані", "облікових даних", "обліковий запис", "облікового запису", "пошт",
        "пароль", "скриньк", "учетн", "почтов", "account", "credential", "password", "mailbox",
        "e-mail address",
    ];
    assert(r@.map_values(|w: &str| w@) =~= credential_objects());
    r
}

// ---------------------------------------------------------------------------
// Hosts and organisations
// ---------------------------------------------------------------------------

/// The organisation a host belongs to: the last two labels, or the last three
/// where the last two are a registry (`mail.example.co.uk` → `example.co.uk`).
pub open spec fn registrable_spec(host: Seq<char>) -> Seq<char> {
    let h = text::ascii_lower(text::trim_end_char(host, '.'));
    let parts = text::split_on(h, '.');
    let n = parts.len() as int;
    if n < 2 {
        h
    } else {
        let last_two = text::join_with(parts.subrange(n - 2, n), seq!['.']);
        if n >= 3 && text::is_one_of(last_two, two_label_suffixes()) {
            text::join_with(parts.subrange(n - 3, n), seq!['.'])
        } else {
            last_two
        }
    }
}

fn registrable_chars(host: &Vec<char>) -> (r: Vec<char>)
    ensures
        r@ == registrable_spec(host@),
{
    let trimmed = text::trim_end_matches(host, '.');
    let h = text::to_ascii_lower(&trimmed);
    let parts = text::split(&h, '.');
    let n = parts.len();
    if n < 2 {
        return h;
    }
    let last_two = text::join_from(&parts, n - 2, '.');
    let suffixes = two_label_list();
    if n >= 3 && text::is_one_of_strs(&last_two, &suffixes) {
        text::join_from(&parts, n - 3, '.')
    } else {
        last_two
    }
}

/// `mail.example.co.uk` → `example.co.uk`; good enough to tell "the same
/// organisation" from "somebody else", which is all it is used for.
pub fn registrable(host: &str) -> (r: String)
    ensures
        r@ == registrable_spec(host@),
{
    let h = text::chars_of(host);
    text::string_of(&registrable_chars(&h))
}

/// The host of an `http://` or `https://` URL: what follows the scheme, up to
/// the first `/`. `None` for anything else.
pub open spec fn host_of_spec(url: Seq<char>) -> Option<Seq<char>> {
    if text::starts_with_seq(url, "http://"@) {
        Some(text::before_char(url.subrange("http://"@.len() as int, url.len() as int), '/'))
    } else if text::starts_with_seq(url, "https://"@) {
        Some(text::before_char(url.subrange("https://"@.len() as int, url.len() as int), '/'))
    } else {
        None
    }
}

fn host_of(url: &Vec<char>) -> (r: Option<Vec<char>>)
    ensures
        r is None <==> host_of_spec(url@) is None,
        r matches Some(h) ==> host_of_spec(url@) == Some(h@),
{
    let http = text::chars_of("http://");
    let https = text::chars_of("https://");
    if text::starts_with(url, "http://") {
        let rest = text::slice_chars(url, http.len(), url.len());
        Some(text::take_before(&rest, '/'))
    } else if text::starts_with(url, "https://") {
        let rest = text::slice_chars(url, https.len(), url.len());
        Some(text::take_before(&rest, '/'))
    } else {
        None
    }
}


// ---------------------------------------------------------------------------
// Percent-decoding
// ---------------------------------------------------------------------------

/// The value of an ASCII hexadecimal digit.
pub open spec fn hex_value(b: u8) -> Option<int> {
    if 48 <= b <= 57 {
        Some(b - 48)
    } else if 97 <= b <= 102 {
        Some(b - 87)
    } else if 65 <= b <= 70 {
        Some(b - 55)
    } else {
        None
    }
}

/// The byte a `%` escape stands for: two hexadecimal digits, high nibble
/// first. Anything else is no escape.
pub open spec fn escape_value(b1: u8, b2: u8) -> Option<u8> {
    match (hex_value(b1), hex_value(b2)) {
        (Some(h), Some(l)) => Some((16 * h + l) as u8),
        _ => None,
    }
}

/// `%XX` escapes replaced by the byte they stand for, once, left to right;
/// anything that is not a valid escape is kept as it is.
pub open spec fn percent_decode_bytes(b: Seq<u8>) -> Seq<u8>
    decreases b.len(),
{
    if b.len() == 0 {
        Seq::empty()
    } else if b[0] == 37 && 2 < b.len() && escape_value(b[1], b[2]) is Some {
        seq![escape_value(b[1], b[2])->0] + percent_decode_bytes(b.subrange(3, b.len() as int))
    } else {
        seq![b[0]] + percent_decode_bytes(b.drop_first())
    }
}

/// `s` with its escapes decoded, read back as UTF-8 with invalid sequences replaced.
pub open spec fn percent_decode_spec(s: Seq<char>) -> Seq<char> {
    crate::encoding::utf8_lossy(percent_decode_bytes(vstd::utf8::encode_utf8(s)))
}

fn hex_nibble(b: u8) -> (r: Option<u8>)
    ensures
        r is None <==> hex_value(b) is None,
        r matches Some(v) ==> hex_value(b) == Some(v as int),
{
    if 48 <= b && b <= 57 {
        Some(b - 48)
    } else if 97 <= b && b <= 102 {
        Some(b - 87)
    } else if 65 <= b && b <= 70 {
        Some(b - 55)
    } else {
        None
    }
}

fn escape(b1: u8, b2: u8) -> (r: Option<u8>)
    ensures
        r == escape_value(b1, b2),
{
    match (hex_nibble(b1), hex_nibble(b2)) {
        (Some(h), Some(l)) => Some(16 * h + l),
        _ => None,
    }
}

fn decode_escapes(b: &[u8]) -> (r: Vec<u8>)
    ensures
        r@ == percent_decode_bytes(b@),
{
    let mut out: Vec<u8> = Vec::new();
    let mut i: usize = 0;
    assert(b@.subrange(0, b@.len() as int) =~= b@);
    while i < b.len()
        invariant
            i <= b.len(),
            out@ + percent_decode_bytes(b@.subrange(i as int, b@.len() as int)) == percent_decode_bytes(b@),
        decreases b.len() - i,
    {
        let ghost t = b@.subrange(i as int, b@.len() as int);
        assert(t[0] == b@[i as int]);
        if b[i] == 37 && b.len() - i > 2 {
            assert(t[1] == b@[i + 1] && t[2] == b@[i + 2]);
            if let Some(v) = escape(b[i + 1], b[i + 2]) {
                assert(t.subrange(3, t.len() as int) =~= b@.subrange(i + 3, b@.len() as int));
                out.push(v);
                i += 3;
                continue;
            }
        }
        assert(t.drop_first() =~= b@.subrange(i + 1, b@.len() as int));
        out.push(b[i]);
        i += 1;
    }
    assert(out@ =~= percent_decode_bytes(b@)) by {
        assert(b@.subrange(i as int, b@.len() as int) =~= Seq::<u8>::empty());
    }
    out
}

/// `%2F` → `/`, once over the whole string. Invalid escapes are left as they
/// are: this is reading somebody's hostile input, not parsing a URL.
pub fn percent_decode(s: &str) -> (r: String)
    ensures
        r@ == percent_decode_spec(s@),
{
    let bytes = s.as_bytes();
    let out = decode_escapes(bytes);
    crate::encoding::from_utf8_lossy(out.as_slice())
}

/// `percent_decode` applied up to `n` times, stopping once it changes nothing.
pub open spec fn decode_rounds(s: Seq<char>, n: nat) -> Seq<char>
    decreases n,
{
    if n == 0 {
        s
    } else {
        let next = percent_decode_spec(s);
        if next == s {
            s
        } else {
            decode_rounds(next, (n - 1) as nat)
        }
    }
}

fn decode_repeatedly(s: String, n: usize) -> (r: String)
    ensures
        r@ == decode_rounds(s@, n as nat),
    decreases n,
{
    if n == 0 {
        return s;
    }
    let next = percent_decode(s.as_str());
    if next == s {
        s
    } else {
        decode_repeatedly(next, n - 1)
    }
}

// ---------------------------------------------------------------------------
// Where a link goes
// ---------------------------------------------------------------------------

/// The pattern of a host name inside a decoded query string; group 1 is its
/// last label.
pub open spec fn host_pattern() -> Seq<char> {
    "(?i)[a-z0-9](?:[a-z0-9-]*[a-z0-9])?(?:\\.[a-z0-9-]+)*\\.([a-z]{2,24})"@
}

fn host_pattern_str() -> (r: &'static str)
    ensures
        r@ == host_pattern(),
{
    "(?i)[a-z0-9](?:[a-z0-9-]*[a-z0-9])?(?:\\.[a-z0-9-]+)*\\.([a-z]{2,24})"
}

/// Endings that make a match a file rather than a host.
pub open spec fn not_a_tld() -> Seq<Seq<char>> {
    seq![
        "png"@, "jpg"@, "jpeg"@, "gif"@, "svg"@, "webp"@, "ico"@, "css"@, "js"@, "php"@,
        "html"@, "htm"@, "aspx"@, "jsp"@, "pdf"@, "doc"@, "docx"@, "txt"@,
    ]
}

fn not_a_tld_list() -> (r: [&'static str; 18])
    ensures
        r@.map_values(|w: &str| w@) == not_a_tld(),
{
    let r = [
        "png", "jpg", "jpeg", "gif", "svg", "webp", "ico", "css", "js", "php", "html", "htm",
        "aspx", "jsp", "pdf", "doc", "docx", "txt",
    ];
    assert(r@.map_values(|w: &str| w@) =~= not_a_tld());
    r
}

/// Where a query string starts: `?` or `#`.
pub open spec fn query_mark() -> spec_fn(char) -> bool {
    |c: char| c == '?' || c == '#'
}

/// Where a destination inside a query value ends.
pub open spec fn value_end() -> spec_fn(char) -> bool {
    |c: char| c == '&' || text::is_ws(c) || c == '"' || c == '\''
}

fn find_query_mark(s: &Vec<char>) -> (r: usize)
    ensures
        r == text::first_where(s@, query_mark()),
{
    let mut i: usize = 0;
    while i < s.len() && s[i] != '?' && s[i] != '#'
        invariant
            i <= s.len(),
            forall|j: int| 0 <= j < i ==> !query_mark()(#[trigger] s@[j]),
        decreases s.len() - i,
    {
        i += 1;
    }
    proof {
        text::lemma_first_where_unique(s@, query_mark(), i as int);
    }
    i
}

fn find_value_end(s: &Vec<char>) -> (r: usize)
    ensures
        r == text::first_where(s@, value_end()),
{
    let mut i: usize = 0;
    while i < s.len() && s[i] != '&' && !text::is_whitespace(s[i]) && s[i] != '"' && s[i] != '\''
        invariant
            i <= s.len(),
            forall|j: int| 0 <= j < i ==> !value_end()(#[trigger] s@[j]),
        decreases s.len() - i,
    {
        i += 1;
    }
    proof {
        text::lemma_first_where_unique(s@, value_end(), i as int);
    }
    i
}

/// A host found in a query string that counts as a destination: not a file
/// name, and not the link's own organisation.
pub open spec fn is_destination(m: (int, Seq<Option<Seq<char>>>), outer: Seq<char>) -> bool {
    &&& !text::is_one_of(text::ascii_lower(matching::group_text(m, 1)), not_a_tld())
    &&& registrable_spec(matching::group_text(m, 0)) != outer
}

/// The start of the last match that is a destination.
pub open spec fn last_destination(ms: Seq<(int, Seq<Option<Seq<char>>>)>, outer: Seq<char>) -> Option<int>
    decreases ms.len(),
{
    if ms.len() == 0 {
        None
    } else if is_destination(ms.last(), outer) {
        Some(ms.last().0)
    } else {
        last_destination(ms.drop_last(), outer)
    }
}

/// Where a link that carries another link in its query or fragment ends up:
/// the text from the last host there that is neither a file name nor the link's
/// own organisation, to the end of the value it sits in. The query is
/// percent-decoded up to three times first.
pub open spec fn redirect_target_spec(url: Seq<char>) -> Option<Seq<char>> {
    let q = text::first_where(url, query_mark());
    if q == url.len() {
        None
    } else {
        match host_of_spec(url.subrange(0, q)) {
            None => None,
            Some(h) => {
                let outer = registrable_spec(h);
                let decoded = decode_rounds(url.subrange(q + 1, url.len() as int), 3);
                match matching::regex_captures(host_pattern(), decoded) {
                    None => None,
                    Some(ms) => match last_destination(ms, outer) {
                        None => None,
                        Some(start) => {
                            let t = decoded.subrange(start, decoded.len() as int);
                            Some(t.subrange(0, text::first_where(t, value_end())))
                        },
                    },
                }
            },
        }
    }
}

/// Where a link that carries another link inside it actually ends up.
///
/// An open redirector is the current way past every "is this domain
/// reputable" check: the href is `tiktok.com`, and the destination is spelled
/// out in its query string, often through a second redirector and without a
/// scheme. Returns the **deepest** host found, which is the one the browser
/// stops at; `None` when the link carries no other host.
#[verifier::loop_isolation(false)]
pub fn redirect_target(url: &str) -> (r: Option<String>)
    ensures
        r is None <==> redirect_target_spec(url@) is None,
        r matches Some(t) ==> redirect_target_spec(url@) == Some(t@),
{
    let u = text::chars_of(url);
    let q = find_query_mark(&u);
    proof {
        text::lemma_first_where(u@, query_mark());
    }
    if q == u.len() {
        return None;
    }
    let head = text::slice_chars(&u, 0, q);
    let host = match host_of(&head) {
        Some(h) => h,
        None => return None,
    };
    let outer = registrable_chars(&host);
    let tail = text::slice_chars(&u, q + 1, u.len());
    let decoded = decode_repeatedly(text::string_of(&tail), 3);
    let dec = text::chars_of(decoded.as_str());
    let ms = match matching::captures(host_pattern_str(), decoded.as_str()) {
        Some(ms) => ms,
        None => return None,
    };
    let ghost mv = matching::matches_view(ms@);
    let tlds = not_a_tld_list();
    let mut deepest: Option<usize> = None;
    let mut k: usize = 0;
    while k < ms.len()
        invariant
            k <= ms.len(),
            mv == matching::matches_view(ms@),
            deepest is None <==> last_destination(mv.take(k as int), outer@) is None,
            deepest matches Some(s) ==> last_destination(mv.take(k as int), outer@) == Some(
                s as int,
            ) && s <= dec.len(),
        decreases ms.len() - k,
    {
        assert(mv.take(k + 1).drop_last() =~= mv.take(k as int));
        assert(mv.take(k + 1).last() == mv[k as int]);
        let m = &ms[k];
        assert(matching::well_placed(matching::match_view(ms[k as int]), dec@));
        let label = matching::group(m, 1);
        let label_lower = text::to_ascii_lower(&label);
        if !text::is_one_of_strs(&label_lower, &tlds) {
            let whole = matching::group(m, 0);
            let org = registrable_chars(&whole);
            if !text::eq_chars(&org, &outer) {
                deepest = Some(m.start);
            }
        }
        k += 1;
    }
    assert(mv.take(ms.len() as int) =~= mv);
    let start = match deepest {
        Some(s) => s,
        None => return None,
    };
    let t = text::slice_chars(&dec, start, dec.len());
    let end = find_value_end(&t);
    proof {
        text::lemma_first_where(t@, value_end());
    }
    Some(text::string_of(&text::slice_chars(&t, 0, end)))
}

// ---------------------------------------------------------------------------
// What a link carries
// ---------------------------------------------------------------------------

/// Anything base64-shaped, in either alphabet, padded or not.
pub open spec fn base64_pattern() -> Seq<char> {
    "[A-Za-z0-9+/_-]{12,}={0,2}"@
}

fn base64_pattern_str() -> (r: &'static str)
    ensures
        r@ == base64_pattern(),
{
    "[A-Za-z0-9+/_-]{12,}={0,2}"
}

/// Decoded bytes, read as lossy UTF-8 and ASCII-lowercased, hold `address`.
pub open spec fn decoded_holds(decoded: Option<Seq<u8>>, address: Seq<char>) -> bool {
    match decoded {
        Some(b) => text::contains_seq(text::ascii_lower(crate::encoding::utf8_lossy(b)), address),
        None => false,
    }
}

/// A base64-shaped token, its `=` padding dropped, decodes (in the standard or
/// the URL-safe alphabet) to text holding `address`.
pub open spec fn token_carries(token: Seq<char>, address: Seq<char>) -> bool {
    let t = text::trim_end_char(token, '=');
    decoded_holds(crate::encoding::base64_standard_no_pad_decoding(t), address) || decoded_holds(
        crate::encoding::base64_url_safe_no_pad_decoding(t),
        address,
    )
}

/// The link's fragment (after the first `#`), percent-decoded, holds the
/// address plainly or in a base64-shaped token; an empty address is never carried.
pub open spec fn fragment_carries_spec(url: Seq<char>, address: Seq<char>) -> bool {
    if address.len() == 0 {
        false
    } else {
        let h = text::first_where(url, text::is_char('#'));
        if h == url.len() {
            false
        } else {
            let a = text::ascii_lower(address);
            let fragment = percent_decode_spec(url.subrange(h + 1, url.len() as int));
            if text::contains_seq(text::ascii_lower(fragment), a) {
                true
            } else {
                match matching::regex_captures(base64_pattern(), fragment) {
                    None => false,
                    Some(ms) => exists|k: int|
                        0 <= k < ms.len() && token_carries(matching::group_text(#[trigger] ms[k], 0), a),
                }
            }
        }
    }
}

fn decoded_contains(decoded: Option<Vec<u8>>, address: &Vec<char>) -> (r: bool)
    ensures
        r == decoded_holds(
            match decoded {
                Some(b) => Some(b@),
                None => None,
            },
            address@,
        ),
{
    match decoded {
        Some(bytes) => {
            let s = crate::encoding::from_utf8_lossy(bytes.as_slice());
            let c = text::chars_of(s.as_str());
            let l = text::to_ascii_lower(&c);
            text::contains(&l, address)
        },
        None => false,
    }
}

/// Whether this link carries `address` in its **fragment** — the part after
/// `#`, which never reaches the server.
///
/// A phishing kit puts the victim's address there so the login form it serves
/// opens already filled in; base64 as often as not. An unsubscribe link puts
/// it in the query, where the server can act on it, which is why only the
/// fragment is read here.
#[verifier::loop_isolation(false)]
pub fn fragment_carries(url: &str, address: &str) -> (r: bool)
    ensures
        r == fragment_carries_spec(url@, address@),
{
    let addr = text::chars_of(address);
    if addr.len() == 0 {
        return false;
    }
    let u = text::chars_of(url);
    let h = text::find_char(&u, '#');
    proof {
        text::lemma_first_where(u@, text::is_char('#'));
    }
    if h == u.len() {
        return false;
    }
    let a = text::to_ascii_lower(&addr);
    let raw_fragment = text::slice_chars(&u, h + 1, u.len());
    let fragment = percent_decode(text::string_of(&raw_fragment).as_str());
    let fc = text::chars_of(fragment.as_str());
    let fl = text::to_ascii_lower(&fc);
    if text::contains(&fl, &a) {
        return true;
    }
    let ms = match matching::captures(base64_pattern_str(), fragment.as_str()) {
        Some(ms) => ms,
        None => return false,
    };
    let ghost mv = matching::matches_view(ms@);
    let mut k: usize = 0;
    while k < ms.len()
        invariant
            k <= ms.len(),
            mv == matching::matches_view(ms@),
            forall|j: int| 0 <= j < k ==> !token_carries(matching::group_text(#[trigger] mv[j], 0), a@),
        decreases ms.len() - k,
    {
        let token = matching::group(&ms[k], 0);
        let trimmed = text::string_of(&text::trim_end_matches(&token, '='));
        if decoded_contains(crate::encoding::base64_decode_standard(trimmed.as_str()), &a)
            || decoded_contains(crate::encoding::base64_decode_url_safe(trimmed.as_str()), &a) {
            assert(token_carries(matching::group_text(mv[k as int], 0), a@));
            return true;
        }
        k += 1;
    }
    false
}

// ---------------------------------------------------------------------------
// The links in a message
// ---------------------------------------------------------------------------

/// An `href` attribute, case-insensitively, with its quoted value as group 1.
pub open spec fn href_pattern() -> Seq<char> {
    "(?i)href\\s*=\\s*[\"']([^\"']+)[\"']"@
}

fn href_pattern_str() -> (r: &'static str)
    ensures
        r@ == href_pattern(),
{
    "(?i)href\\s*=\\s*[\"']([^\"']+)[\"']"
}

/// The trimmed group-1 value of each match, in order.
pub open spec fn href_values(ms: Seq<(int, Seq<Option<Seq<char>>>)>) -> Seq<Seq<char>> {
    ms.map_values(|m: (int, Seq<Option<Seq<char>>>)| text::trim_seq(matching::group_text(m, 1)))
}

/// Every `href` in a chunk of HTML, trimmed, in order.
pub open spec fn hrefs_spec(html: Seq<char>) -> Seq<Seq<char>> {
    match matching::regex_captures(href_pattern(), html) {
        None => Seq::empty(),
        Some(ms) => href_values(ms),
    }
}

/// Every `href` in a chunk of HTML, in the order they appear.
pub fn hrefs(html: &str) -> (r: Vec<String>)
    ensures
        text::string_views(r@) == hrefs_spec(html@),
        r.len() == match matching::regex_captures("(?i)href\\s*=\\s*[\"']([^\"']+)[\"']"@, html@) {
            None => 0,
            Some(ms) => ms.len(),
        },
        forall|k: int|
            0 <= k < r.len() ==> #[trigger] r@[k]@ == text::trim_seq(
                matching::group_text(
                    matching::regex_captures("(?i)href\\s*=\\s*[\"']([^\"']+)[\"']"@, html@)->0[k],
                    1,
                ),
            ),
{
    let ms = match matching::captures(href_pattern_str(), html) {
        Some(ms) => ms,
        None => {
            let r: Vec<String> = Vec::new();
            assert(text::string_views(r@) =~= Seq::<Seq<char>>::empty());
            return r;
        },
    };
    let ghost mv = matching::matches_view(ms@);
    let mut r: Vec<String> = Vec::new();
    let mut k: usize = 0;
    assert(text::string_views(r@) =~= href_values(mv.take(0)));
    while k < ms.len()
        invariant
            k <= ms.len(),
            mv == matching::matches_view(ms@),
            text::string_views(r@) == href_values(mv.take(k as int)),
        decreases ms.len() - k,
    {
        assert(href_values(mv.take(k + 1)) =~= href_values(mv.take(k as int)).push(
            text::trim_seq(matching::group_text(mv[k as int], 1)),
        ));
        let g = matching::group(&ms[k], 1);
        let u = text::trim(&g);
        let ghost old_r = r@;
        r.push(text::string_of(&u));
        assert(text::string_views(r@) =~= text::string_views(old_r).push(u@));
        k += 1;
    }
    assert(mv.take(ms.len() as int) =~= mv);
    assert forall|k: int| 0 <= k < r.len() implies #[trigger] r@[k]@ == text::trim_seq(
        matching::group_text(mv[k], 1),
    ) by {
        assert(text::string_views(r@)[k] == r@[k]@);
    }
    r
}

// ---------------------------------------------------------------------------
// Addresses
// ---------------------------------------------------------------------------

/// The address in a header as a bare, lower-case `user@host`: what stands
/// between `<` and `>` when both are there in that order, else the whole value.
pub open spec fn bare_address_spec(header: Seq<char>) -> Seq<char> {
    let a = text::first_where(header, text::is_char('<'));
    let b = text::first_where(header, text::is_char('>'));
    let inner = if a < header.len() && b < header.len() && b > a {
        header.subrange(a + 1, b)
    } else {
        header
    };
    text::ascii_lower(text::trim_seq(inner))
}

fn bare_address_chars(header: &Vec<char>) -> (r: Vec<char>)
    ensures
        r@ == bare_address_spec(header@),
{
    let a = text::find_char(header, '<');
    let b = text::find_char(header, '>');
    proof {
        text::lemma_first_where(header@, text::is_char('<'));
        text::lemma_first_where(header@, text::is_char('>'));
    }
    let inner = if a < header.len() && b < header.len() && b > a {
        text::slice_chars(header, a + 1, b)
    } else {
        text::slice_chars(header, 0, header.len())
    };
    assert(header@.subrange(0, header.len() as int) =~= header@);
    let t = text::trim(&inner);
    text::to_ascii_lower(&t)
}

/// The address a message was sent to, as a bare `user@host`.
pub fn bare_address(header: &str) -> (r: String)
    ensures
        r@ == bare_address_spec(header@),
{
    let h = text::chars_of(header);
    text::string_of(&bare_address_chars(&h))
}

/// The domain part of an address (what follows the first `@`), or "" if there
/// is none.
pub open spec fn domain_of_spec(address: Seq<char>) -> Seq<char> {
    let at = text::first_where(address, text::is_char('@'));
    if at < address.len() {
        address.subrange(at + 1, address.len() as int)
    } else {
        Seq::empty()
    }
}

fn domain_of_chars(address: &Vec<char>) -> (r: Vec<char>)
    ensures
        r@ == domain_of_spec(address@),
{
    let at = text::find_char(address, '@');
    if at < address.len() {
        text::slice_chars(address, at + 1, address.len())
    } else {
        Vec::new()
    }
}

/// The domain part of an address, or "" if there is none.
pub fn domain_of(address: &str) -> (r: String)
    ensures
        r@ == domain_of_spec(address@),
{
    let a = text::chars_of(address);
    text::string_of(&domain_of_chars(&a))
}

/// Whether an address hides a domain in the part **before** the `@`: a label
/// after the first that is never a name (`com`, `net`, `org`, `gov`, `edu`,
/// `mil`), or a local part of three labels or more ending in a two-label
/// public suffix.
pub open spec fn domain_in_local_part_spec(address: Seq<char>) -> bool {
    let b = bare_address_spec(address);
    let at = text::first_where(b, text::is_char('@'));
    if at == b.len() {
        false
    } else {
        let local = text::ascii_lower(b.subrange(0, at));
        if text::first_where(local, text::is_char('.')) == local.len() {
            false
        } else {
            let labels = text::split_on(local, '.');
            let n = labels.len() as int;
            (exists|k: int| 1 <= k < n && text::is_one_of(#[trigger] labels[k], never_a_name())) || (n
                > 2 && text::is_one_of(text::join_with(labels.subrange(n - 2, n), seq!['.']), two_label_suffixes()))
        }
    }
}

/// Whether an address hides a domain in the part **before** the `@`.
///
/// `cert.gov.ua@notify-secure.example` reads, at a glance and in a narrow
/// column, as `cert.gov.ua`. Only the endings that are never anybody's name
/// count, or a full two-label suffix: `van.de.berg` and `o.brien` are surnames.
#[verifier::loop_isolation(false)]
pub fn domain_in_local_part(address: &str) -> (r: bool)
    ensures
        r == domain_in_local_part_spec(address@),
{
    let a = text::chars_of(address);
    let b = bare_address_chars(&a);
    let at = text::find_char(&b, '@');
    proof {
        text::lemma_first_where(b@, text::is_char('@'));
    }
    if at == b.len() {
        return false;
    }
    let l = text::slice_chars(&b, 0, at);
    let local = text::to_ascii_lower(&l);
    if text::find_char(&local, '.') == local.len() {
        return false;
    }
    let labels = text::split(&local, '.');
    let ghost lv = text::views(labels@);
    let names = never_a_name_list();
    let mut k: usize = 1;
    while k < labels.len()
        invariant
            1 <= k <= labels.len(),
            lv == text::views(labels@),
            names@.map_values(|w: &str| w@) == never_a_name(),
            forall|j: int| 1 <= j < k ==> !text::is_one_of(#[trigger] lv[j], never_a_name()),
        decreases labels.len() - k,
    {
        if text::is_one_of_strs(&labels[k], &names) {
            assert(text::is_one_of(lv[k as int], never_a_name()));
            return true;
        }
        k += 1;
    }
    let n = labels.len();
    if n > 2 {
        let last_two = text::join_from(&labels, n - 2, '.');
        let suffixes = two_label_list();
        text::is_one_of_strs(&last_two, &suffixes)
    } else {
        false
    }
}

// ---------------------------------------------------------------------------
// Asking for credentials
// ---------------------------------------------------------------------------

/// The lower-cased text holds a word of confirmation and a thing being confirmed.
pub open spec fn asks_for_credentials_spec(text: Seq<char>) -> bool {
    let lower = text::unicode_lowercase(text);
    text::contains_any(lower, credential_asks()) && text::contains_any(lower, credential_objects())
}

/// Whether the message is asking the reader to hand over an account.
///
/// Both halves are required — a word of confirmation *and* the thing being
/// confirmed — because either alone is ordinary.
pub fn asks_for_credentials(text: &str) -> (r: bool)
    ensures
        r == asks_for_credentials_spec(text@),
{
    let lower = text::lower_chars(text);
    let asks = credential_asks_list();
    let objects = credential_objects_list();
    text::contains_any_of(&lower, &asks) && text::contains_any_of(&lower, &objects)
}

} // verus!
