//! What is pulled out of a message body: addresses to pivot on, the pressure
//! the message applies, and HTML that hides or misleads.

use vstd::prelude::*;
use crate::text;
use crate::order;
use crate::matching;

verus! {

// ---------------------------------------------------------------------------
// Indicators
// ---------------------------------------------------------------------------

/// IPv4-shaped addresses.
pub open spec fn ip_pattern() -> Seq<char> {
    r"\b(?:\d{1,3}\.){3}\d{1,3}\b"@
}

/// Web URLs; a quote ends one, so a URL lifted out of an attribute does not
/// keep the quote that closed it.
pub open spec fn url_pattern() -> Seq<char> {
    r#"https?://[^\s/$.?#"'][^"'\n][^\s"']*"#@
}

/// Mail addresses.
pub open spec fn email_pattern() -> Seq<char> {
    r"\b[A-Za-z0-9._%+-]+@[A-Za-z0-9.-]+\.[A-Z|a-z]{2,}\b"@
}

/// Bitcoin addresses.
pub open spec fn btc_pattern() -> Seq<char> {
    r"\b(?:bc1|[13])[a-zA-HJ-NP-Z0-9]{25,39}\b"@
}

/// Ethereum addresses.
pub open spec fn eth_pattern() -> Seq<char> {
    r"\b0x[a-fA-F0-9]{40}\b"@
}

/// Monero addresses.
pub open spec fn xmr_pattern() -> Seq<char> {
    r"\b(?:4|8)[0-9a-zA-Z]{94}\b"@
}

/// Each match of `pattern` in `text`, behind `label`.
pub open spec fn labelled(label: Seq<char>, pattern: Seq<char>, text: Seq<char>) -> Set<Seq<char>> {
    match matching::regex_captures(pattern, text) {
        None => Set::empty(),
        Some(ms) => Set::new(
            |s: Seq<char>|
                exists|k: int| 0 <= k < ms.len() && s == label + matching::group_text(#[trigger] ms[k], 0),
        ),
    }
}

/// Every labelled indicator in `text`: `IP: `, `URL: `, `Email: `, `BTC: `,
/// `ETH: ` and `XMR: ` followed by what was found.
pub open spec fn indicators(text: Seq<char>) -> Set<Seq<char>> {
    labelled("IP: "@, ip_pattern(), text).union(labelled("URL: "@, url_pattern(), text)).union(
        labelled("Email: "@, email_pattern(), text),
    ).union(labelled("BTC: "@, btc_pattern(), text)).union(labelled("ETH: "@, eth_pattern(), text)).union(
        labelled("XMR: "@, xmr_pattern(), text),
    )
}

/// The first `n` matches, each behind `label`.
pub open spec fn labelled_prefix(label: Seq<char>, ms: Seq<(int, Seq<Option<Seq<char>>>)>, n: int) -> Set<Seq<char>> {
    Set::new(|s: Seq<char>| exists|k: int| 0 <= k < n && s == label + matching::group_text(#[trigger] ms[k], 0))
}

fn add_labelled(acc0: Vec<Vec<char>>, label: &str, pattern: &str, text: &str) -> (acc: Vec<Vec<char>>)
    requires
        order::sorted_strict(text::views(acc0@)),
    ensures
        order::sorted_strict(text::views(acc@)),
        forall|s: Seq<char>|
            text::views(acc@).contains(s) <==> (text::views(acc0@).contains(s)
                || labelled(label@, pattern@, text@).contains(s)),
{
    let mut acc = acc0;
    let ms = match matching::captures(pattern, text) {
        Some(ms) => ms,
        None => return acc,
    };
    let ghost mv = matching::matches_view(ms@);
    let ghost start = text::views(acc@);
    let lab = text::chars_of(label);
    let mut k: usize = 0;
    while k < ms.len()
        invariant
            k <= ms.len(),
            mv == matching::matches_view(ms@),
            lab@ == label@,
            start == text::views(acc0@),
            order::sorted_strict(text::views(acc@)),
            forall|s: Seq<char>|
                #![trigger text::views(acc@).contains(s)]
                text::views(acc@).contains(s) <==> (start.contains(s) || labelled_prefix(label@, mv, k as int).contains(s)),
        decreases ms.len() - k,
    {
        let g = matching::group(&ms[k], 0);
        let mut item = text::slice_chars(&lab, 0, lab.len());
        let mut i: usize = 0;
        assert(lab@.subrange(0, lab.len() as int) =~= lab@);
        while i < g.len()
            invariant
                i <= g.len(),
                item@ == lab@ + g@.take(i as int),
            decreases g.len() - i,
        {
            item.push(g[i]);
            i += 1;
            assert(item@ =~= lab@ + g@.take(i as int));
        }
        assert(g@.take(i as int) =~= g@);
        let ghost x = item@;
        let ghost before = text::views(acc@);
        assert(mv[k as int] == matching::match_view(ms@[k as int]));
        assert(x == label@ + matching::group_text(mv[k as int], 0));
        order::insert_sorted(&mut acc, item);
        assert forall|s: Seq<char>|
            #![trigger text::views(acc@).contains(s)]
            text::views(acc@).contains(s) <==> (start.contains(s) || labelled_prefix(label@, mv, k + 1).contains(s)) by {
            assert(before.contains(s) <==> (start.contains(s) || labelled_prefix(label@, mv, k as int).contains(s)));
            if labelled_prefix(label@, mv, k + 1).contains(s) {
                let j = choose|j: int| 0 <= j < k + 1 && s == label@ + matching::group_text(#[trigger] mv[j], 0);
                if j < k {
                    assert(labelled_prefix(label@, mv, k as int).contains(s));
                } else {
                    assert(s == x);
                }
            }
            if labelled_prefix(label@, mv, k as int).contains(s) {
                let j = choose|j: int| 0 <= j < k && s == label@ + matching::group_text(#[trigger] mv[j], 0);
                assert(labelled_prefix(label@, mv, k + 1).contains(s));
            }
            if s == x {
                assert(labelled_prefix(label@, mv, k + 1).contains(s));
            }
        }
        k += 1;
    }
    assert(mv.len() == ms.len());
    assert(labelled(label@, pattern@, text@) =~= labelled_prefix(label@, mv, mv.len() as int));
    acc
}

/// Every match of `pattern` in `text` is in `found`, behind `label`.
pub open spec fn lists_every_match(found: Set<Seq<char>>, label: Seq<char>, pattern: Seq<char>, text: Seq<char>) -> bool {
    match matching::regex_captures(pattern, text) {
        None => true,
        Some(ms) => forall|k: int| 0 <= k < ms.len() ==> found.contains(label + matching::group_text(#[trigger] ms[k], 0)),
    }
}

/// Whatever the six patterns find is among the indicators: each IPv4 address,
/// URL, mail address and BTC, ETH or XMR wallet, behind its label.
pub proof fn lemma_every_match_is_an_indicator(text: Seq<char>)
    ensures
        lists_every_match(indicators(text), "IP: "@, r"\b(?:\d{1,3}\.){3}\d{1,3}\b"@, text),
        lists_every_match(indicators(text), "URL: "@, r#"https?://[^\s/$.?#"'][^"'\n][^\s"']*"#@, text),
        lists_every_match(
            indicators(text),
            "Email: "@,
            r"\b[A-Za-z0-9._%+-]+@[A-Za-z0-9.-]+\.[A-Z|a-z]{2,}\b"@,
            text,
        ),
        lists_every_match(indicators(text), "BTC: "@, r"\b(?:bc1|[13])[a-zA-HJ-NP-Z0-9]{25,39}\b"@, text),
        lists_every_match(indicators(text), "ETH: "@, r"\b0x[a-fA-F0-9]{40}\b"@, text),
        lists_every_match(indicators(text), "XMR: "@, r"\b(?:4|8)[0-9a-zA-Z]{94}\b"@, text),
{
    lemma_labelled_listed(indicators(text), "IP: "@, ip_pattern(), text);
    lemma_labelled_listed(indicators(text), "URL: "@, url_pattern(), text);
    lemma_labelled_listed(indicators(text), "Email: "@, email_pattern(), text);
    lemma_labelled_listed(indicators(text), "BTC: "@, btc_pattern(), text);
    lemma_labelled_listed(indicators(text), "ETH: "@, eth_pattern(), text);
    lemma_labelled_listed(indicators(text), "XMR: "@, xmr_pattern(), text);
}

/// `s` is a match of `pattern` in `text`, behind `label`.
pub open spec fn is_labelled_match(s: Seq<char>, label: Seq<char>, pattern: Seq<char>, text: Seq<char>) -> bool {
    match matching::regex_captures(pattern, text) {
        None => false,
        Some(ms) => exists|k: int| 0 <= k < ms.len() && s == label + matching::group_text(#[trigger] ms[k], 0),
    }
}

/// Nothing but what the six patterns find is an indicator.
pub proof fn lemma_every_indicator_is_a_match(text: Seq<char>, s: Seq<char>)
    requires
        indicators(text).contains(s),
    ensures
        is_labelled_match(s, "IP: "@, r"\b(?:\d{1,3}\.){3}\d{1,3}\b"@, text) || is_labelled_match(
            s,
            "URL: "@,
            r#"https?://[^\s/$.?#"'][^"'\n][^\s"']*"#@,
            text,
        ) || is_labelled_match(s, "Email: "@, r"\b[A-Za-z0-9._%+-]+@[A-Za-z0-9.-]+\.[A-Z|a-z]{2,}\b"@, text)
            || is_labelled_match(s, "BTC: "@, r"\b(?:bc1|[13])[a-zA-HJ-NP-Z0-9]{25,39}\b"@, text)
            || is_labelled_match(s, "ETH: "@, r"\b0x[a-fA-F0-9]{40}\b"@, text) || is_labelled_match(
            s,
            "XMR: "@,
            r"\b(?:4|8)[0-9a-zA-Z]{94}\b"@,
            text,
        ),
{
}

proof fn lemma_labelled_listed(found: Set<Seq<char>>, label: Seq<char>, pattern: Seq<char>, text: Seq<char>)
    requires
        labelled(label, pattern, text).subset_of(found),
    ensures
        lists_every_match(found, label, pattern, text),
{
    if let Some(ms) = matching::regex_captures(pattern, text) {
        assert forall|k: int| 0 <= k < ms.len() implies found.contains(label + matching::group_text(#[trigger] ms[k], 0)) by {
            assert(labelled(label, pattern, text).contains(label + matching::group_text(ms[k], 0)));
        }
    }
}

/// Every indicator in `text`, labelled by kind, sorted, each once.
pub fn extract(text: &str) -> (r: Vec<String>)
    ensures
        order::sorted_strict(text::string_views(r@)),
        forall|s: Seq<char>| text::string_views(r@).contains(s) <==> indicators(text@).contains(s),
        text::string_views(r@) == order::sorted_list(indicators(text@)),
        lists_every_match(
            Set::new(|s: Seq<char>| text::string_views(r@).contains(s)),
            "IP: "@,
            r"\b(?:\d{1,3}\.){3}\d{1,3}\b"@,
            text@,
        ),
        lists_every_match(
            Set::new(|s: Seq<char>| text::string_views(r@).contains(s)),
            "URL: "@,
            r#"https?://[^\s/$.?#"'][^"'\n][^\s"']*"#@,
            text@,
        ),
        lists_every_match(
            Set::new(|s: Seq<char>| text::string_views(r@).contains(s)),
            "Email: "@,
            r"\b[A-Za-z0-9._%+-]+@[A-Za-z0-9.-]+\.[A-Z|a-z]{2,}\b"@,
            text@,
        ),
        lists_every_match(
            Set::new(|s: Seq<char>| text::string_views(r@).contains(s)),
            "BTC: "@,
            r"\b(?:bc1|[13])[a-zA-HJ-NP-Z0-9]{25,39}\b"@,
            text@,
        ),
        lists_every_match(
            Set::new(|s: Seq<char>| text::string_views(r@).contains(s)),
            "ETH: "@,
            r"\b0x[a-fA-F0-9]{40}\b"@,
            text@,
        ),
        lists_every_match(
            Set::new(|s: Seq<char>| text::string_views(r@).contains(s)),
            "XMR: "@,
            r"\b(?:4|8)[0-9a-zA-Z]{94}\b"@,
            text@,
        ),
        forall|k: int|
            0 <= k < r.len() ==> is_labelled_match(
                #[trigger] r@[k]@,
                "IP: "@,
                r"\b(?:\d{1,3}\.){3}\d{1,3}\b"@,
                text@,
            ) || is_labelled_match(r@[k]@, "URL: "@, r#"https?://[^\s/$.?#"'][^"'\n][^\s"']*"#@, text@)
                || is_labelled_match(
                r@[k]@,
                "Email: "@,
                r"\b[A-Za-z0-9._%+-]+@[A-Za-z0-9.-]+\.[A-Z|a-z]{2,}\b"@,
                text@,
            ) || is_labelled_match(r@[k]@, "BTC: "@, r"\b(?:bc1|[13])[a-zA-HJ-NP-Z0-9]{25,39}\b"@, text@)
                || is_labelled_match(r@[k]@, "ETH: "@, r"\b0x[a-fA-F0-9]{40}\b"@, text@) || is_labelled_match(
                r@[k]@,
                "XMR: "@,
                r"\b(?:4|8)[0-9a-zA-Z]{94}\b"@,
                text@,
            ),
{
    let mut acc: Vec<Vec<char>> = Vec::new();
    assert(text::views(acc@) =~= Seq::<Seq<char>>::empty());
    acc = add_labelled(acc, "IP: ", r"\b(?:\d{1,3}\.){3}\d{1,3}\b", text);
    acc = add_labelled(acc, "URL: ", r#"https?://[^\s/$.?#"'][^"'\n][^\s"']*"#, text);
    acc = add_labelled(acc, "Email: ", r"\b[A-Za-z0-9._%+-]+@[A-Za-z0-9.-]+\.[A-Z|a-z]{2,}\b", text);
    acc = add_labelled(acc, "BTC: ", r"\b(?:bc1|[13])[a-zA-HJ-NP-Z0-9]{25,39}\b", text);
    acc = add_labelled(acc, "ETH: ", r"\b0x[a-fA-F0-9]{40}\b", text);
    acc = add_labelled(acc, "XMR: ", r"\b(?:4|8)[0-9a-zA-Z]{94}\b", text);
    let mut r: Vec<String> = Vec::new();
    let mut k: usize = 0;
    while k < acc.len()
        invariant
            k <= acc.len(),
            text::string_views(r@) == text::views(acc@).take(k as int),
        decreases acc.len() - k,
    {
        let ghost old_r = r@;
        r.push(text::string_of(&acc[k]));
        assert(text::string_views(r@) =~= text::string_views(old_r).push(acc@[k as int]@));
        assert(text::views(acc@).take(k + 1) =~= text::views(acc@).take(k as int).push(acc@[k as int]@));
        k += 1;
    }
    assert(text::views(acc@).take(acc.len() as int) =~= text::views(acc@));
    proof {
        order::lemma_is_sorted_list(text::string_views(r@), indicators(text@));
        lemma_every_match_is_an_indicator(text@);
        assert(Set::new(|s: Seq<char>| text::string_views(r@).contains(s)) =~= indicators(text@));
        assert forall|k: int| 0 <= k < r.len() implies indicators(text@).contains(#[trigger] r@[k]@) by {
            assert(text::string_views(r@)[k] == r@[k]@);
        }
        assert forall|k: int| 0 <= k < r.len() implies is_labelled_match(
            #[trigger] r@[k]@,
            "IP: "@,
            r"\b(?:\d{1,3}\.){3}\d{1,3}\b"@,
            text@,
        ) || is_labelled_match(r@[k]@, "URL: "@, r#"https?://[^\s/$.?#"'][^"'\n][^\s"']*"#@, text@)
            || is_labelled_match(
            r@[k]@,
            "Email: "@,
            r"\b[A-Za-z0-9._%+-]+@[A-Za-z0-9.-]+\.[A-Z|a-z]{2,}\b"@,
            text@,
        ) || is_labelled_match(r@[k]@, "BTC: "@, r"\b(?:bc1|[13])[a-zA-HJ-NP-Z0-9]{25,39}\b"@, text@)
            || is_labelled_match(r@[k]@, "ETH: "@, r"\b0x[a-fA-F0-9]{40}\b"@, text@) || is_labelled_match(
            r@[k]@,
            "XMR: "@,
            r"\b(?:4|8)[0-9a-zA-Z]{94}\b"@,
            text@,
        ) by {
            lemma_every_indicator_is_a_match(text@, r@[k]@);
        }
    }
    r
}

// ---------------------------------------------------------------------------
// Pressure words
// ---------------------------------------------------------------------------

/// Words of urgency, threat and authority.
pub open spec fn pressure_words() -> Seq<Seq<char>> {
    seq![
        "терміново"@, "невідкладно"@, "швидко"@, "увага"@, "блокування"@, "штраф"@, "срочно"@,
        "внимание"@, "заборгованість"@, "розпорядження"@, "наказ"@, "повістка"@, "мобілізація"@,
        "доповідь"@, "акт звірки"@, "рахунок"@, "оплата"@, "квитанція"@, "тцк"@, "сп"@,
        "реєстр"@, "військовозобов"@, "працівник"@, "звітність"@,
    ]
}

fn pressure_word_list() -> (r: [&'static str; 24])
    ensures
        r@.map_values(|w: &str| w@) == pressure_words(),
{
    let r = [
        "терміново", "невідкладно", "швидко", "увага", "блокування", "штраф", "срочно",
        "внимание", "заборгованість", "розпорядження", "наказ", "повістка", "мобілізація",
        "доповідь", "акт звірки", "рахунок", "оплата", "квитанція", "тцк", "сп", "реєстр",
        "військовозобов", "працівник", "звітність",
    ];
    assert(r@.map_values(|w: &str| w@) =~= pressure_words());
    r
}

/// Words that name a password.
pub open spec fn password_words() -> Seq<Seq<char>> {
    seq!["пароль"@, "password"@, "код доступу"@, "шифр"@]
}

fn password_word_list() -> (r: [&'static str; 4])
    ensures
        r@.map_values(|w: &str| w@) == password_words(),
{
    let r = ["пароль", "password", "код доступу", "шифр"];
    assert(r@.map_values(|w: &str| w@) =~= password_words());
    r
}

/// How many of `words` occur in `s` (each counted once).
pub open spec fn count_found(s: Seq<char>, words: Seq<Seq<char>>) -> nat
    decreases words.len(),
{
    if words.len() == 0 {
        0
    } else {
        count_found(s, words.drop_last()) + if text::contains_seq(s, words.last()) {
            1nat
        } else {
            0nat
        }
    }
}

/// How many pressure words the lower-cased text holds, and whether it names a password.
pub open spec fn psycho_words_spec(text: Seq<char>) -> (nat, bool) {
    let lower = text::unicode_lowercase(text);
    (count_found(lower, pressure_words()), text::contains_any(lower, password_words()))
}

/// How many pressure words `text` holds, and whether it mentions a password.
pub fn count_psycho_words(text: &str) -> (r: (usize, bool))
    ensures
        r.0 == psycho_words_spec(text@).0,
        r.1 == psycho_words_spec(text@).1,
{
    let lower = text::lower_chars(text);
    let words = pressure_word_list();
    let ghost ws = words@.map_values(|w: &str| w@);
    let mut count: usize = 0;
    let mut k: usize = 0;
    while k < words.len()
        invariant
            k <= words.len(),
            ws == words@.map_values(|w: &str| w@),
            count == count_found(lower@, ws.take(k as int)),
            count <= k,
        decreases words.len() - k,
    {
        assert(ws.take(k + 1).drop_last() =~= ws.take(k as int));
        if text::contains_str(&lower, words[k]) {
            count += 1;
        }
        k += 1;
    }
    assert(ws.take(24) =~= ws);
    let pwd = password_word_list();
    (count, text::contains_any_of(&lower, &pwd))
}

// ---------------------------------------------------------------------------
// HTML anomalies
// ---------------------------------------------------------------------------

/// Styles that hide text from the reader.
pub open spec fn hiding_styles() -> Seq<Seq<char>> {
    seq![
        "font-size: 0"@, "font-size:0"@, "color: transparent"@, "color:transparent"@,
        "display: none"@, "display:none"@,
    ]
}

fn hiding_style_list() -> (r: [&'static str; 6])
    ensures
        r@.map_values(|w: &str| w@) == hiding_styles(),
{
    let r = [
        "font-size: 0", "font-size:0", "color: transparent", "color:transparent",
        "display: none", "display:none",
    ];
    assert(r@.map_values(|w: &str| w@) =~= hiding_styles());
    r
}

/// A link whose visible text is itself a URL: group 1 is the `href`, group 2
/// the text.
pub open spec fn lying_link_pattern() -> Seq<char> {
    r#"<a[^>]+href\s*=\s*["'](https?://[^"']+)["'][^>]*>(https?://[^<]+)</a>"#@
}

/// The host part of a URL: without its `http://` or `https://`, up to the first `/`.
pub open spec fn url_host(url: Seq<char>) -> Seq<char> {
    let rest = if text::starts_with_seq(url, "http://"@) {
        url.subrange("http://"@.len() as int, url.len() as int)
    } else if text::starts_with_seq(url, "https://"@) {
        url.subrange("https://"@.len() as int, url.len() as int)
    } else {
        url
    };
    text::before_char(rest, '/')
}

fn extract_domain(url: &Vec<char>) -> (r: Vec<char>)
    ensures
        r@ == url_host(url@),
{
    let http = text::chars_of("http://");
    let https = text::chars_of("https://");
    let rest = if text::starts_with(url, "http://") {
        text::slice_chars(url, http.len(), url.len())
    } else if text::starts_with(url, "https://") {
        text::slice_chars(url, https.len(), url.len())
    } else {
        text::slice_chars(url, 0, url.len())
    };
    assert(url@.subrange(0, url@.len() as int) =~= url@);
    text::take_before(&rest, '/')
}

/// How many of the links say one host and go to another.
pub open spec fn lying_links(ms: Seq<(int, Seq<Option<Seq<char>>>)>) -> nat
    decreases ms.len(),
{
    if ms.len() == 0 {
        0
    } else {
        lying_links(ms.drop_last()) + if url_host(matching::group_text(ms.last(), 1)) != url_host(
            matching::group_text(ms.last(), 2),
        ) {
            1nat
        } else {
            0nat
        }
    }
}

/// One for hidden text, plus one for each link whose text names a different
/// host than the one it goes to; both read off the lower-cased HTML. The count
/// stops at `usize::MAX`.
pub open spec fn html_anomalies_spec(html: Seq<char>) -> int {
    let lower = text::unicode_lowercase(html);
    let hidden: int = if text::contains_any(lower, hiding_styles()) {
        1
    } else {
        0
    };
    let lies: int = match matching::regex_captures(lying_link_pattern(), lower) {
        None => 0,
        Some(ms) => lying_links(ms) as int,
    };
    if hidden + lies > usize::MAX {
        usize::MAX as int
    } else {
        hidden + lies
    }
}

/// How many ways the HTML hides text or misleads about where a link goes.
pub fn check_html_anomalies(html: &str) -> (r: usize)
    ensures
        r == html_anomalies_spec(html@),
{
    let lower = text::to_lowercase(html);
    let lc = text::chars_of(lower.as_str());
    let styles = hiding_style_list();
    let hidden: usize = if text::contains_any_of(&lc, &styles) {
        1
    } else {
        0
    };
    let ms = match matching::captures(
        r#"<a[^>]+href\s*=\s*["'](https?://[^"']+)["'][^>]*>(https?://[^<]+)</a>"#,
        lower.as_str(),
    ) {
        Some(ms) => ms,
        None => return hidden,
    };
    let ghost mv = matching::matches_view(ms@);
    let mut lies: usize = 0;
    let mut k: usize = 0;
    while k < ms.len()
        invariant
            k <= ms.len(),
            mv == matching::matches_view(ms@),
            lies == lying_links(mv.take(k as int)),
            lies <= k,
        decreases ms.len() - k,
    {
        assert(mv.take(k + 1).drop_last() =~= mv.take(k as int));
        assert(mv.take(k + 1).last() == mv[k as int]);
        let href = matching::group(&ms[k], 1);
        let shown = matching::group(&ms[k], 2);
        let a = extract_domain(&href);
        let b = extract_domain(&shown);
        if !text::eq_chars(&a, &b) {
            lies += 1;
        }
        k += 1;
    }
    assert(mv.take(ms.len() as int) =~= mv);
    if lies == usize::MAX {
        lies
    } else {
        hidden + lies
    }
}

// ---------------------------------------------------------------------------
// What holds of the counts
// ---------------------------------------------------------------------------

proof fn lemma_count_found_bounds(s: Seq<char>, words: Seq<Seq<char>>, k: int)
    requires
        0 <= k < words.len(),
        text::contains_seq(s, words[k]),
    ensures
        1 <= count_found(s, words) <= words.len(),
    decreases words.len(),
{
    if k < words.len() - 1 {
        assert(words.drop_last()[k] == words[k]);
        lemma_count_found_bounds(s, words.drop_last(), k);
    } else {
        lemma_count_found_at_most(s, words.drop_last());
    }
}

proof fn lemma_count_found_at_most(s: Seq<char>, words: Seq<Seq<char>>)
    ensures
        count_found(s, words) <= words.len(),
    decreases words.len(),
{
    if words.len() > 0 {
        lemma_count_found_at_most(s, words.drop_last());
    }
}

/// Each word of urgency, threat or authority in the text (read lower-cased)
/// counts, and no more words are counted than there are on the list; a word
/// naming a password is noticed.
pub proof fn law_pressure_and_passwords_are_noticed(text: Seq<char>)
    ensures
        psycho_words_spec(text).0 <= 24,
        (exists|w: Seq<char>|
            #![trigger text::contains_seq(text::unicode_lowercase(text), w)]
            seq![
                "терміново"@, "невідкладно"@, "швидко"@, "увага"@, "блокування"@, "штраф"@, "срочно"@,
                "внимание"@, "заборгованість"@, "розпорядження"@, "наказ"@, "повістка"@, "мобілізація"@,
                "доповідь"@, "акт звірки"@, "рахунок"@, "оплата"@, "квитанція"@, "тцк"@, "сп"@,
                "реєстр"@, "військовозобов"@, "працівник"@, "звітність"@,
            ].contains(w) && text::contains_seq(text::unicode_lowercase(text), w)) ==> psycho_words_spec(text).0 >= 1,
        (exists|w: Seq<char>|
            #![trigger text::contains_seq(text::unicode_lowercase(text), w)]
            seq!["пароль"@, "password"@, "код доступу"@, "шифр"@].contains(w) && text::contains_seq(
                text::unicode_lowercase(text),
                w,
            )) ==> psycho_words_spec(text).1,
{
    let lower = text::unicode_lowercase(text);
    lemma_count_found_at_most(lower, pressure_words());
    if exists|w: Seq<char>|
        #![trigger text::contains_seq(lower, w)]
        pressure_words().contains(w) && text::contains_seq(lower, w) {
        let w = choose|w: Seq<char>|
            #![trigger text::contains_seq(lower, w)]
            pressure_words().contains(w) && text::contains_seq(lower, w);
        let k = choose|k: int| 0 <= k < pressure_words().len() && pressure_words()[k] == w;
        lemma_count_found_bounds(lower, pressure_words(), k);
    }
    if exists|w: Seq<char>|
        #![trigger text::contains_seq(lower, w)]
        password_words().contains(w) && text::contains_seq(lower, w) {
        let w = choose|w: Seq<char>|
            #![trigger text::contains_seq(lower, w)]
            password_words().contains(w) && text::contains_seq(lower, w);
        let k = choose|k: int| 0 <= k < password_words().len() && password_words()[k] == w;
        assert(text::contains_seq(lower, password_words()[k]));
    }
}

/// Text styled out of sight counts as an anomaly: HTML whose lower-cased form
/// holds a zero font size, a transparent colour or `display: none` has at
/// least one.
pub proof fn law_hidden_text_is_an_anomaly(html: Seq<char>)
    requires
        exists|w: Seq<char>|
            #![trigger text::contains_seq(text::unicode_lowercase(html), w)]
            seq![
                "font-size: 0"@, "font-size:0"@, "color: transparent"@, "color:transparent"@,
                "display: none"@, "display:none"@,
            ].contains(w) && text::contains_seq(text::unicode_lowercase(html), w),
    ensures
        html_anomalies_spec(html) >= 1,
{
    let lower = text::unicode_lowercase(html);
    let w = choose|w: Seq<char>|
        #![trigger text::contains_seq(lower, w)]
        hiding_styles().contains(w) && text::contains_seq(lower, w);
    let k = choose|k: int| 0 <= k < hiding_styles().len() && hiding_styles()[k] == w;
    assert(text::contains_seq(lower, hiding_styles()[k]));
}

} // verus!
