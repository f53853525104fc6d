//! What holds of the analysis as a whole, for every input.

use vstd::prelude::*;
use crate::text;
use crate::scoring;
use crate::scoring::Signals;
use crate::headers::HeaderView;
use crate::mime::MailPart;
use crate::parser::ScanView;

verus! {

// ---------------------------------------------------------------------------
// The score
// ---------------------------------------------------------------------------

/// The points a weighed condition adds: its points if it holds, else none.
pub open spec fn contribution(w: (bool, Seq<char>, int)) -> int {
    if w.0 {
        w.2
    } else {
        0
    }
}

proof fn lemma_weights_nonnegative(h: HeaderView, s: Signals)
    ensures
        scoring::nonnegative(scoring::weights(h, s)),
{
    let ws = scoring::weights(h, s);
    assert forall|k: int| 0 <= k < ws.len() implies (#[trigger] ws[k]).2 >= 0 by {}
}

pub proof fn lemma_kept_total(ws: Seq<(bool, Seq<char>, int)>)
    ensures
        scoring::total(scoring::kept(ws)) == if ws.len() == 0 {
            0
        } else {
            scoring::total(scoring::kept(ws.drop_last())) + contribution(ws.last())
        },
{
    if ws.len() > 0 && ws.last().0 {
        assert(scoring::kept(ws).drop_last() =~= scoring::kept(ws.drop_last()));
    }
}

/// A condition that holds adds at least its own points.
proof fn lemma_kept_at_least(ws: Seq<(bool, Seq<char>, int)>, k: int)
    requires
        0 <= k < ws.len(),
        scoring::nonnegative(ws),
    ensures
        scoring::total(scoring::kept(ws)) >= contribution(ws[k]),
    decreases ws.len(),
{
    lemma_kept_total(ws);
    let d = ws.drop_last();
    assert(scoring::nonnegative(d));
    if k < ws.len() - 1 {
        assert(ws[k] == d[k]);
        lemma_kept_at_least(d, k);
    } else {
        scoring::lemma_kept_nonneg(d);
    }
}

/// Weighing more of every condition never gives fewer points.
proof fn lemma_kept_monotone(a: Seq<(bool, Seq<char>, int)>, b: Seq<(bool, Seq<char>, int)>)
    requires
        a.len() == b.len(),
        forall|k: int| 0 <= k < a.len() ==> contribution(#[trigger] a[k]) <= contribution(b[k]),
    ensures
        scoring::total(scoring::kept(a)) <= scoring::total(scoring::kept(b)),
    decreases a.len(),
{
    lemma_kept_total(a);
    lemma_kept_total(b);
    if a.len() > 0 {
        let da = a.drop_last();
        let db = b.drop_last();
        assert forall|k: int| 0 <= k < da.len() implies contribution(#[trigger] da[k]) <= contribution(db[k]) by {
            assert(da[k] == a[k] && db[k] == b[k]);
        }
        lemma_kept_monotone(da, db);
        assert(contribution(a.last()) <= contribution(b.last())) by {
            assert(a.last() == a[a.len() - 1]);
        }
    }
}

/// The score is a percentage, not a tally: never more than 100, never less
/// than 0, and exactly the points of its reasons when those stay within 100.
pub proof fn law_score_is_a_percentage(h: HeaderView, s: Signals)
    ensures
        0 <= scoring::score_spec(h, s) <= 100,
        scoring::score_spec(h, s) == if scoring::total(scoring::triggers_spec(h, s)) > 100 {
            100
        } else {
            scoring::total(scoring::triggers_spec(h, s))
        },
{
    lemma_weights_nonnegative(h, s);
    scoring::lemma_kept_nonneg(scoring::weights(h, s));
}

/// A double extension, a macro, or an archive together with its password is
/// worth the whole score on its own.
pub proof fn law_decisive_reasons(h: HeaderView, s: Signals)
    requires
        s.has_double_ext || s.has_macro || ((s.is_encrypted_zip || s.has_archive) && s.has_pwd_keyword),
    ensures
        scoring::score_spec(h, s) == 100,
{
    let ws = scoring::weights(h, s);
    lemma_weights_nonnegative(h, s);
    if s.has_double_ext {
        lemma_kept_at_least(ws, 9);
    } else if s.has_macro {
        lemma_kept_at_least(ws, 10);
    } else {
        lemma_kept_at_least(ws, 8);
    }
}

/// A message that passes SPF and DKIM, has no redirected reply, and in which
/// nothing was noticed scores nothing and names no reason.
pub proof fn law_quiet_message_scores_nothing(h: HeaderView, s: Signals)
    requires
        h.spf_pass,
        h.dkim_pass,
        !h.spoofed,
        s.bad_attachments == 0,
        s.psycho_words == 0,
        s.html_anomalies == 0,
        s.cloaked_links == 0,
        !s.has_double_ext,
        !s.has_crypto,
        !s.has_archive,
        !s.is_encrypted_zip,
        !s.has_macro,
        !s.victim_in_link,
        !s.credential_ask,
        !s.impersonates_recipient,
        !s.domain_in_local_part,
    ensures
        scoring::triggers_spec(h, s).len() == 0,
        scoring::score_spec(h, s) == 0,
{
    let ws = scoring::weights(h, s);
    assert(forall|k: int| 0 <= k < ws.len() ==> !(#[trigger] ws[k]).0);
    lemma_none_kept(ws);
}

proof fn lemma_none_kept(ws: Seq<(bool, Seq<char>, int)>)
    requires
        forall|k: int| 0 <= k < ws.len() ==> !(#[trigger] ws[k]).0,
    ensures
        scoring::kept(ws).len() == 0,
    decreases ws.len(),
{
    if ws.len() > 0 {
        let d = ws.drop_last();
        assert forall|k: int| 0 <= k < d.len() implies !(#[trigger] d[k]).0 by {
            assert(d[k] == ws[k]);
        }
        assert(!ws[ws.len() - 1].0);
        lemma_none_kept(d);
    }
}

/// More of what was noticed never lowers the score: with every count at least
/// as large (and within 32 bits, the width the score counts in) and every
/// finding still there, the points and the score do not go down.
#[verifier::rlimit(60)]
pub proof fn law_more_signals_never_lower(h: HeaderView, s: Signals, t: Signals)
    requires
        s.bad_attachments <= t.bad_attachments < 0x1_0000_0000,
        s.psycho_words <= t.psycho_words < 0x1_0000_0000,
        s.html_anomalies <= t.html_anomalies < 0x1_0000_0000,
        s.cloaked_links <= t.cloaked_links < 0x1_0000_0000,
        s.has_double_ext ==> t.has_double_ext,
        s.has_crypto ==> t.has_crypto,
        s.has_archive ==> t.has_archive,
        s.is_encrypted_zip ==> t.is_encrypted_zip,
        s.has_pwd_keyword ==> t.has_pwd_keyword,
        s.has_macro ==> t.has_macro,
        s.victim_in_link ==> t.victim_in_link,
        s.credential_ask ==> t.credential_ask,
        s.impersonates_recipient ==> t.impersonates_recipient,
        s.domain_in_local_part ==> t.domain_in_local_part,
    ensures
        scoring::raw_score(h, s) <= scoring::raw_score(h, t),
        scoring::score_spec(h, s) <= scoring::score_spec(h, t),
{
    let a = scoring::weights(h, s);
    let b = scoring::weights(h, t);
    assert(scoring::as32(s.bad_attachments) <= scoring::as32(t.bad_attachments));
    assert(scoring::as32(s.psycho_words) <= scoring::as32(t.psycho_words));
    assert(scoring::as32(s.html_anomalies) <= scoring::as32(t.html_anomalies));
    assert(scoring::as32(s.cloaked_links) <= scoring::as32(t.cloaked_links));
    assert(a.len() == 16 && b.len() == 16);
    assert forall|k: int| 0 <= k < a.len() implies contribution(#[trigger] a[k]) <= contribution(b[k]) by {}
    lemma_kept_monotone(a, b);
}

// ---------------------------------------------------------------------------
// Links
// ---------------------------------------------------------------------------

/// A link with neither a query nor a fragment goes where it says.
pub proof fn law_plain_link_is_not_cloaked(url: Seq<char>)
    requires
        forall|i: int| 0 <= i < url.len() ==> #[trigger] url[i] != '?' && url[i] != '#',
    ensures
        crate::links::redirect_target_spec(url) is None,
{
    text::lemma_first_where(url, crate::links::query_mark());
    if text::first_where(url, crate::links::query_mark()) < url.len() {
        let q = text::first_where(url, crate::links::query_mark());
        assert(url[q] != '?' && url[q] != '#');
    }
}

/// Only the fragment counts: a link without a `#` never carries an address,
/// and an empty address is never carried.
pub proof fn law_only_the_fragment_carries(url: Seq<char>, address: Seq<char>)
    requires
        address.len() == 0 || forall|i: int| 0 <= i < url.len() ==> #[trigger] url[i] != '#',
    ensures
        !crate::links::fragment_carries_spec(url, address),
{
    text::lemma_first_where(url, text::is_char('#'));
    if address.len() > 0 && text::first_where(url, text::is_char('#')) < url.len() {
        let h = text::first_where(url, text::is_char('#'));
        assert(url[h] != '#');
    }
}

/// `s` percent-decoded `n` times over.
pub open spec fn decoded_times(s: Seq<char>, n: nat) -> Seq<char>
    decreases n,
{
    if n == 0 {
        s
    } else {
        crate::links::percent_decode_spec(decoded_times(s, (n - 1) as nat))
    }
}

/// What follows the first `?` or `#` of a link.
pub open spec fn query_of(url: Seq<char>) -> Seq<char> {
    url.subrange(text::first_where(url, crate::links::query_mark()) + 1, url.len() as int)
}

/// A destination is read however deeply it was percent-encoded, up to three
/// times: a link goes where the same link goes with its query already fully
/// decoded.
pub proof fn law_the_query_is_decoded_to_the_end(url: Seq<char>)
    requires
        text::first_where(url, crate::links::query_mark()) < url.len(),
        crate::links::percent_decode_spec(decoded_times(query_of(url), 3)) == decoded_times(query_of(url), 3),
    ensures
        crate::links::redirect_target_spec(url) == crate::links::redirect_target_spec(
            url.subrange(0, text::first_where(url, crate::links::query_mark()) + 1) + decoded_times(query_of(url), 3),
        ),
{
    let q = text::first_where(url, crate::links::query_mark());
    let d3 = decoded_times(query_of(url), 3);
    let url2 = url.subrange(0, q + 1) + d3;
    text::lemma_first_where(url, crate::links::query_mark());
    assert forall|j: int| 0 <= j < q implies !crate::links::query_mark()(#[trigger] url2[j]) by {
        assert(url2[j] == url[j]);
    }
    assert(url2[q] == url[q]);
    text::lemma_first_where_unique(url2, crate::links::query_mark(), q);
    assert(url2.subrange(0, q) =~= url.subrange(0, q));
    assert(url2.subrange(q + 1, url2.len() as int) =~= d3);
    reveal_with_fuel(decoded_times, 4);
    reveal_with_fuel(crate::links::decode_rounds, 4);
    assert(crate::links::decode_rounds(query_of(url), 3) == d3);
    assert(crate::links::decode_rounds(d3, 3) == d3);
}

/// The fragment is read percent-decoded: where the decoded fragment holds the
/// address (ignoring ASCII case), the link carries it.
pub proof fn law_the_fragment_is_read_decoded(before: Seq<char>, fragment: Seq<char>, address: Seq<char>)
    requires
        forall|i: int| 0 <= i < before.len() ==> before[i] != '#',
        address.len() > 0,
        text::contains_seq(
            text::ascii_lower(crate::links::percent_decode_spec(fragment)),
            text::ascii_lower(address),
        ),
    ensures
        crate::links::fragment_carries_spec(before + seq!['#'] + fragment, address),
{
    lemma_fragment_split(before, fragment);
}

/// Decoding a fragment once more, where that changes nothing further, does
/// not change whether the link carries the address.
pub proof fn law_a_decoded_fragment_carries_alike(before: Seq<char>, fragment: Seq<char>, address: Seq<char>)
    requires
        forall|i: int| 0 <= i < before.len() ==> before[i] != '#',
        crate::links::percent_decode_spec(crate::links::percent_decode_spec(fragment))
            == crate::links::percent_decode_spec(fragment),
    ensures
        crate::links::fragment_carries_spec(before + seq!['#'] + fragment, address)
            == crate::links::fragment_carries_spec(
            before + seq!['#'] + crate::links::percent_decode_spec(fragment),
            address,
        ),
{
    lemma_fragment_split(before, fragment);
    lemma_fragment_split(before, crate::links::percent_decode_spec(fragment));
}

proof fn lemma_fragment_split(before: Seq<char>, fragment: Seq<char>)
    requires
        forall|i: int| 0 <= i < before.len() ==> before[i] != '#',
    ensures
        ({
            let url = before + seq!['#'] + fragment;
            &&& text::first_where(url, text::is_char('#')) == before.len()
            &&& url.subrange(before.len() as int + 1, url.len() as int) == fragment
        }),
{
    let url = before + seq!['#'] + fragment;
    assert forall|j: int| 0 <= j < before.len() implies !text::is_char('#')(#[trigger] url[j]) by {
        assert(url[j] == before[j]);
    }
    assert(url[before.len() as int] == '#');
    text::lemma_first_where_unique(url, text::is_char('#'), before.len() as int);
    assert(url.subrange(before.len() as int + 1, url.len() as int) =~= fragment);
}

// ---------------------------------------------------------------------------
// The reading of a message
// ---------------------------------------------------------------------------

/// Asking for credentials is scored only where there is a link to give them to.
pub proof fn law_credential_needs_a_link(h: HeaderView, st: crate::parser::ScanView)
    requires
        !st.has_link,
    ensures
        !crate::parser::signals_spec(h, st).credential_ask,
{
}

/// Mail from the recipient's own organisation is never impersonating it.
pub proof fn law_own_domain_is_no_impersonation(h: HeaderView, st: crate::parser::ScanView)
    requires
        crate::links::registrable_spec(crate::links::domain_of_spec(crate::links::bare_address_spec(h.from)))
            == crate::links::registrable_spec(crate::links::domain_of_spec(st.recipient)),
    ensures
        !crate::parser::impersonation_spec(h, st),
{
}

/// Every string pulled out of a binary body is at least five characters
/// long, and every character in it is a printable byte.
pub proof fn law_strings_are_long_and_printable(bs: Seq<u8>)
    ensures
        forall|k: int| 0 <= k < crate::parser::strings_spec(bs).len() ==> (#[trigger] crate::parser::strings_spec(bs)[k]).len() >= 5,
        forall|k: int, i: int|
            0 <= k < crate::parser::strings_spec(bs).len() && 0 <= i < crate::parser::strings_spec(bs)[k].len()
                ==> printable_char(#[trigger] crate::parser::strings_spec(bs)[k][i]),
{
    lemma_runs(bs);
}

/// A character that stands for a printable byte.
pub open spec fn printable_char(c: char) -> bool {
    exists|b: u8| crate::parser::is_printable(b) && c == b as char
}

proof fn lemma_runs(bs: Seq<u8>)
    ensures
        ({
            let (done, cur) = crate::parser::runs(bs);
            &&& forall|k: int| 0 <= k < done.len() ==> (#[trigger] done[k]).len() >= 5
            &&& forall|k: int, i: int| 0 <= k < done.len() && 0 <= i < done[k].len() ==> printable_char(#[trigger] done[k][i])
            &&& forall|i: int| 0 <= i < cur.len() ==> printable_char(#[trigger] cur[i])
        }),
    decreases bs.len(),
{
    if bs.len() > 0 {
        lemma_runs(bs.drop_last());
        let (done0, cur0) = crate::parser::runs(bs.drop_last());
        let (done, cur) = crate::parser::runs(bs);
        let b = bs.last();
        if crate::parser::is_printable(b) {
            assert forall|i: int| 0 <= i < cur.len() implies printable_char(#[trigger] cur[i]) by {
                if i == cur.len() - 1 {
                    assert(crate::parser::is_printable(b) && cur[i] == b as char);
                } else {
                    assert(cur[i] == cur0[i]);
                }
            }
        } else if cur0.len() >= 5 {
            assert forall|k: int| 0 <= k < done.len() implies (#[trigger] done[k]).len() >= 5 by {
                if k < done0.len() {
                    assert(done[k] == done0[k]);
                }
            }
            assert forall|k: int, i: int| 0 <= k < done.len() && 0 <= i < done[k].len() implies printable_char(
                #[trigger] done[k][i],
            ) by {
                if k < done0.len() {
                    assert(done[k] == done0[k]);
                } else {
                    assert(done[k] == cur0);
                }
            }
        }
    }
}


// ---------------------------------------------------------------------------
// Where cloaked links end up
// ---------------------------------------------------------------------------

/// `q` is `m` or one of the parts nested in it, at any depth.
pub open spec fn part_in(q: MailPart, m: MailPart) -> bool
    decreases m, 1int,
{
    q == m || part_in_any(q, m.subparts@)
}

/// `q` is one of the parts in `ps`, or nested in one of them.
pub open spec fn part_in_any(q: MailPart, ps: Seq<MailPart>) -> bool
    decreases ps, 0int,
{
    ps.len() > 0 && (part_in(q, ps.last()) || part_in_any(q, ps.drop_last()))
}

/// A part that the reading treats as text: neither an attachment nor named,
/// `text/plain` or `text/html`, with text that could be decoded.
pub open spec fn read_as_text(p: MailPart) -> bool {
    &&& !p.disposition_is_attachment
    &&& crate::parser::declared_name(p) is None
    &&& (p.mimetype@ == "text/plain"@ || p.mimetype@ == "text/html"@)
    &&& p.body_text is Some
}

proof fn lemma_cloaked_of(hs: Seq<Seq<char>>, i: int)
    requires
        0 <= i < hs.len(),
        crate::links::redirect_target_spec(hs[i]) is Some,
    ensures
        crate::parser::cloaked_of(hs).contains((hs[i], crate::links::redirect_target_spec(hs[i])->0)),
    decreases hs.len(),
{
    let x = (hs[i], crate::links::redirect_target_spec(hs[i])->0);
    let prev = crate::parser::cloaked_of(hs.drop_last());
    let cur = crate::parser::cloaked_of(hs);
    if i == hs.len() - 1 {
        assert(cur == prev.push(x));
        assert(cur[prev.len() as int] == x);
    } else {
        assert(hs.drop_last()[i] == hs[i]);
        lemma_cloaked_of(hs.drop_last(), i);
        let j = choose|j: int| 0 <= j < prev.len() && prev[j] == x;
        assert(cur[j] == x);
    }
}

proof fn lemma_extend_keeps(a: Seq<(Seq<char>, Seq<char>)>, b: Seq<(Seq<char>, Seq<char>)>)
    ensures
        forall|x: (Seq<char>, Seq<char>)| a.contains(x) ==> (a + b).contains(x),
{
    assert forall|x: (Seq<char>, Seq<char>)| a.contains(x) implies (a + b).contains(x) by {
        let j = choose|j: int| 0 <= j < a.len() && a[j] == x;
        assert((a + b)[j] == x);
    }
}

proof fn lemma_step_keeps(p: MailPart, st: ScanView)
    ensures
        forall|x: (Seq<char>, Seq<char>)| st.cloaked.contains(x) ==> crate::parser::part_step(p, st).cloaked.contains(x),
{
    let r = crate::parser::part_step(p, st);
    let name = crate::parser::declared_name(p);
    if (p.disposition_is_attachment || name is Some) && !text::starts_with_seq(p.mimetype@, "multipart/"@) {
        assert(r.cloaked == st.cloaked);
    } else if p.mimetype@ == "text/plain"@ || p.mimetype@ == "text/html"@ {
        if let Some(t) = p.body_text {
            lemma_extend_keeps(st.cloaked, crate::parser::cloaked_of(crate::links::hrefs_spec(t@)));
        }
    }
}

proof fn lemma_process_keeps(p: MailPart, st: ScanView)
    ensures
        forall|x: (Seq<char>, Seq<char>)| st.cloaked.contains(x) ==> crate::parser::process_spec(p, st).cloaked.contains(x),
    decreases p, 1int,
{
    lemma_step_keeps(p, st);
    lemma_seq_keeps(p.subparts@, crate::parser::part_step(p, st));
}

proof fn lemma_seq_keeps(ps: Seq<MailPart>, st: ScanView)
    ensures
        forall|x: (Seq<char>, Seq<char>)| st.cloaked.contains(x) ==> crate::parser::process_seq(ps, st).cloaked.contains(x),
    decreases ps, 0int,
{
    if ps.len() > 0 {
        lemma_seq_keeps(ps.drop_last(), st);
        lemma_process_keeps(ps.last(), crate::parser::process_seq(ps.drop_last(), st));
    }
}

proof fn lemma_text_part_cloaks(q: MailPart, st: ScanView, h: Seq<char>)
    requires
        read_as_text(q),
        crate::links::hrefs_spec(q.body_text->0@).contains(h),
        crate::links::redirect_target_spec(h) is Some,
    ensures
        crate::parser::part_step(q, st).cloaked.contains((h, crate::links::redirect_target_spec(h)->0)),
{
    let t = q.body_text->0@;
    let hs = crate::links::hrefs_spec(t);
    let i = choose|i: int| 0 <= i < hs.len() && hs[i] == h;
    lemma_cloaked_of(hs, i);
    let c = crate::parser::cloaked_of(hs);
    let x = (h, crate::links::redirect_target_spec(h)->0);
    let j = choose|j: int| 0 <= j < c.len() && c[j] == x;
    assert(crate::parser::part_step(q, st).cloaked == st.cloaked + c);
    assert((st.cloaked + c)[st.cloaked.len() + j] == x);
}

proof fn lemma_process_reaches(q: MailPart, m: MailPart, st: ScanView, h: Seq<char>)
    requires
        part_in(q, m),
        read_as_text(q),
        crate::links::hrefs_spec(q.body_text->0@).contains(h),
        crate::links::redirect_target_spec(h) is Some,
    ensures
        crate::parser::process_spec(m, st).cloaked.contains((h, crate::links::redirect_target_spec(h)->0)),
    decreases m, 1int,
{
    let s1 = crate::parser::part_step(m, st);
    if q == m {
        lemma_text_part_cloaks(q, st, h);
        lemma_seq_keeps(m.subparts@, s1);
    } else {
        lemma_seq_reaches(q, m.subparts@, s1, h);
    }
}

proof fn lemma_seq_reaches(q: MailPart, ps: Seq<MailPart>, st: ScanView, h: Seq<char>)
    requires
        part_in_any(q, ps),
        read_as_text(q),
        crate::links::hrefs_spec(q.body_text->0@).contains(h),
        crate::links::redirect_target_spec(h) is Some,
    ensures
        crate::parser::process_seq(ps, st).cloaked.contains((h, crate::links::redirect_target_spec(h)->0)),
    decreases ps, 0int,
{
    let before = crate::parser::process_seq(ps.drop_last(), st);
    if part_in(q, ps.last()) {
        lemma_process_reaches(q, ps.last(), before, h);
    } else {
        lemma_seq_reaches(q, ps.drop_last(), st, h);
        lemma_process_keeps(ps.last(), before);
    }
}

/// Where a cloaked link ends up is always reported: for every link in every
/// part of the message that is read as text, if it carries another
/// destination, `Redirect: ` and that destination is among the report's
/// indicators.
pub proof fn law_every_cloaked_link_is_reported(
    content: Seq<u8>,
    m: MailPart,
    r: crate::parser::Report,
    q: MailPart,
    h: Seq<char>,
)
    requires
        crate::parser::report_spec(content, m, r),
        part_in(q, m),
        read_as_text(q),
        crate::links::hrefs_spec(q.body_text->0@).contains(h),
        crate::links::redirect_target_spec(h) is Some,
    ensures
        text::string_views(r.iocs@).contains("Redirect: "@ + crate::links::redirect_target_spec(h)->0),
{
    let hv = crate::headers::analyze_spec(m.headers@);
    let st = crate::parser::scan_message(m, hv);
    let words = crate::ioc::psycho_words_spec(hv.subject);
    let st0 = crate::parser::initial(crate::links::bare_address_spec(hv.to));
    let st1 = ScanView { total_psycho_words: words.0 as int, has_pwd_keyword: words.1, ..st0 };
    lemma_process_reaches(q, m, st1, h);
    let x = (h, crate::links::redirect_target_spec(h)->0);
    let k = choose|k: int| 0 <= k < st.cloaked.len() && st.cloaked[k] == x;
    assert(crate::parser::indicator_elems(st).contains("Redirect: "@ + st.cloaked[k].1));
}


// ---------------------------------------------------------------------------
// Organisations
// ---------------------------------------------------------------------------

/// A character that ASCII lower-casing would change.
pub open spec fn ascii_upper(c: char) -> bool {
    'A' <= c && c <= 'Z'
}

proof fn lemma_trim_none(s: Seq<char>, c: char)
    requires
        s.len() == 0 || s.last() != c,
    ensures
        text::trim_end_char(s, c) == s,
{
    assert(s.subrange(0, s.len() as int) =~= s);
}

proof fn lemma_trim_ends(s: Seq<char>, c: char)
    ensures
        text::trim_end_char(s, c).len() == 0 || text::trim_end_char(s, c).last() != c,
{
    text::lemma_trailing_where(s, text::is_char(c));
}

proof fn lemma_lower_fixed(s: Seq<char>)
    requires
        forall|i: int| 0 <= i < s.len() ==> !ascii_upper(#[trigger] s[i]),
    ensures
        text::ascii_lower(s) == s,
{
    assert(text::ascii_lower(s) =~= s);
}

/// The normalised host that `registrable_spec` splits: lower-cased, without
/// trailing dots.
pub open spec fn normal_host(host: Seq<char>) -> Seq<char> {
    text::ascii_lower(text::trim_end_char(host, '.'))
}

proof fn lemma_normal_host(host: Seq<char>)
    ensures
        forall|i: int| 0 <= i < normal_host(host).len() ==> !ascii_upper(#[trigger] normal_host(host)[i]),
        normal_host(host).len() == 0 || normal_host(host).last() != '.',
{
    let t = text::trim_end_char(host, '.');
    lemma_trim_ends(host, '.');
    let h = normal_host(host);
    assert forall|i: int| 0 <= i < h.len() implies !ascii_upper(#[trigger] h[i]) by {
        assert(h[i] == text::lower_ascii_char(t[i]));
    }
    if h.len() > 0 {
        assert(h.last() == text::lower_ascii_char(t.last()));
    }
}

/// The result of `registrable_spec` is a suffix of the normalised host made of
/// whole labels: the last `k` of them.
proof fn lemma_registrable_tail(host: Seq<char>)
    ensures
        ({
            let h = normal_host(host);
            let ps = text::split_on(h, '.');
            let n = ps.len() as int;
            let r = crate::links::registrable_spec(host);
            &&& n >= 1
            &&& (n < 2 ==> r == h)
            &&& (n >= 2 ==> exists|k: int|
                (k == 2 || k == 3) && k <= n && r == text::join_with(#[trigger] ps.subrange(n - k, n), seq!['.']))
            &&& r.len() <= h.len()
            &&& h.subrange(h.len() - r.len(), h.len() as int) == r
        }),
{
    let h = normal_host(host);
    let ps = text::split_on(h, '.');
    let n = ps.len() as int;
    let r = crate::links::registrable_spec(host);
    text::lemma_split_on_len(h, '.');
    text::lemma_split_join(h, '.');
    if n < 2 {
        assert(h.subrange(0, h.len() as int) =~= h);
    } else {
        let last_two = text::join_with(ps.subrange(n - 2, n), seq!['.']);
        let k: int = if n >= 3 && text::is_one_of(last_two, crate::links::two_label_suffixes()) {
            3
        } else {
            2
        };
        assert(r == text::join_with(ps.subrange(n - k, n), seq!['.']));
        if k == n {
            assert(ps.subrange(0, n) =~= ps);
            assert(h.subrange(0, h.len() as int) =~= h);
        } else {
            text::lemma_join_tail(ps, n - k, seq!['.']);
            let a = text::join_with(ps.subrange(0, n - k), seq!['.']);
            assert(h == a + seq!['.'] + r);
            assert(h.subrange(h.len() - r.len(), h.len() as int) =~= r);
        }
    }
}

/// A host's organisation is an organisation: asked again, it is itself; it is
/// lower-case, never ends in a dot, and is the tail of the host (lower-cased,
/// without trailing dots).
pub proof fn law_registrable_is_an_organisation(host: Seq<char>)
    ensures
        crate::links::registrable_spec(crate::links::registrable_spec(host)) == crate::links::registrable_spec(host),
        forall|i: int|
            0 <= i < crate::links::registrable_spec(host).len() ==> !ascii_upper(
                #[trigger] crate::links::registrable_spec(host)[i],
            ),
        crate::links::registrable_spec(host).len() == 0 || crate::links::registrable_spec(host).last() != '.',
        crate::links::registrable_spec(host).len() <= normal_host(host).len(),
        normal_host(host).subrange(
            normal_host(host).len() - crate::links::registrable_spec(host).len(),
            normal_host(host).len() as int,
        ) == crate::links::registrable_spec(host),
{
    let h = normal_host(host);
    let r = crate::links::registrable_spec(host);
    lemma_normal_host(host);
    lemma_registrable_tail(host);
    let off = h.len() - r.len();
    assert forall|i: int| 0 <= i < r.len() implies !ascii_upper(#[trigger] r[i]) by {
        assert(r[i] == h[off + i]);
    }
    if r.len() > 0 {
        assert(r.last() == h[h.len() - 1]);
    }
    // Asking again: the host is already normal.
    lemma_trim_none(r, '.');
    lemma_lower_fixed(r);
    assert(normal_host(r) == r);
    let ps = text::split_on(h, '.');
    let n = ps.len() as int;
    if n >= 2 {
        let last_two = text::join_with(ps.subrange(n - 2, n), seq!['.']);
        let listed = n >= 3 && text::is_one_of(last_two, crate::links::two_label_suffixes());
        let k: int = if listed {
            3
        } else {
            2
        };
        assert(r == text::join_with(ps.subrange(n - k, n), seq!['.']));
        let q = ps.subrange(n - k, n);
        text::lemma_split_parts(h, '.');
        assert forall|j: int, i: int| 0 <= j < q.len() && 0 <= i < q[j].len() implies #[trigger] q[j][i] != '.' by {
            assert(q[j] == ps[n - k + j]);
        }
        text::lemma_join_split(q, '.');
        assert(text::split_on(r, '.') == q);
        assert(q.subrange(k - 2, k) =~= ps.subrange(n - 2, n));
        assert(q.subrange(0, k) =~= q);
    }
}

proof fn lemma_trim_prefix(a: Seq<char>, b: Seq<char>, c: char)
    requires
        text::trim_end_char(b, c).len() > 0,
    ensures
        text::trim_end_char(a + b, c) == a + text::trim_end_char(b, c),
{
    let t = text::trailing_where(b, text::is_char(c));
    text::lemma_trailing_where(b, text::is_char(c));
    let s = a + b;
    assert forall|j: int| s.len() - t <= j < s.len() implies text::is_char(c)(#[trigger] s[j]) by {
        assert(s[j] == b[j - a.len()]);
    }
    assert(s[s.len() - t - 1] == b[b.len() - t - 1]);
    text::lemma_trailing_where_unique(s, text::is_char(c), t);
    assert(s.subrange(0, s.len() - t) =~= a + b.subrange(0, b.len() - t));
}

/// A subdomain is the same organisation: a label (with no dot in it) put in
/// front of a host leaves its organisation as it was, when the host has three
/// labels or more, or two that are not a registry such as `gov.ua`.
pub proof fn law_subdomain_is_the_same_organisation(label: Seq<char>, host: Seq<char>)
    requires
        forall|i: int| 0 <= i < label.len() ==> label[i] != '.',
        text::split_on(normal_host(host), '.').len() >= 3 || (text::split_on(normal_host(host), '.').len() == 2
            && !text::is_one_of(
            text::join_with(text::split_on(normal_host(host), '.'), seq!['.']),
            crate::links::two_label_suffixes(),
        )),
    ensures
        crate::links::registrable_spec(label + seq!['.'] + host) == crate::links::registrable_spec(host),
{
    let t = text::trim_end_char(host, '.');
    let h = normal_host(host);
    let ps = text::split_on(h, '.');
    let n = ps.len() as int;
    if t.len() == 0 {
        assert(h =~= Seq::<char>::empty());
        assert(false);
    }
    lemma_trim_prefix(label + seq!['.'], host, '.');
    assert(label + seq!['.'] + host =~= (label + seq!['.']) + host);
    let ll = text::ascii_lower(label);
    assert(normal_host(label + seq!['.'] + host) =~= ll + seq!['.'] + h);
    assert forall|i: int| 0 <= i < ll.len() implies ll[i] != '.' by {
        assert(ll[i] == text::lower_ascii_char(label[i]));
    }
    text::lemma_split_concat(ll, h, '.');
    text::lemma_split_no_sep(ll, '.');
    let fs = text::split_on(ll + seq!['.'] + h, '.');
    assert(fs =~= seq![ll] + ps);
    let m = fs.len() as int;
    assert(m == n + 1);
    assert(fs.subrange(m - 2, m) =~= ps.subrange(n - 2, n));
    if n == 2 {
        assert(ps.subrange(0, 2) =~= ps);
    } else {
        assert(fs.subrange(m - 3, m) =~= ps.subrange(n - 3, n));
    }
}

} // verus!
