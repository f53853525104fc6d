//! How the points of the score are made up: each reason with its own points,
//! and what one more finding adds.

use vstd::prelude::*;
use crate::scoring;
use crate::scoring::Signals;
use crate::headers::HeaderView;
use crate::laws::contribution;

verus! {

/// The points of the first `n` weighed conditions that hold, added up.
pub open spec fn points(ws: Seq<(bool, Seq<char>, int)>, n: int) -> int
    decreases n,
{
    if n <= 0 {
        0
    } else {
        points(ws, n - 1) + contribution(ws[n - 1])
    }
}

proof fn lemma_total_points(ws: Seq<(bool, Seq<char>, int)>, n: int)
    requires
        0 <= n <= ws.len(),
    ensures
        scoring::total(scoring::kept(ws.take(n))) == points(ws, n),
    decreases n,
{
    let t = ws.take(n);
    crate::laws::lemma_kept_total(t);
    if n > 0 {
        assert(t.drop_last() =~= ws.take(n - 1));
        assert(t.last() == ws[n - 1]);
        lemma_total_points(ws, n - 1);
    }
}

/// The raw points are the sum of the sixteen weighed conditions.
proof fn lemma_raw_score_sum(h: HeaderView, s: Signals)
    ensures
        ({
            let w = scoring::weights(h, s);
            scoring::raw_score(h, s) == contribution(w[0]) + contribution(w[1]) + contribution(w[2])
                + contribution(w[3]) + contribution(w[4]) + contribution(w[5]) + contribution(w[6])
                + contribution(w[7]) + contribution(w[8]) + contribution(w[9]) + contribution(w[10])
                + contribution(w[11]) + contribution(w[12]) + contribution(w[13]) + contribution(w[14])
                + contribution(w[15])
        }),
{
    let w = scoring::weights(h, s);
    lemma_total_points(w, 16);
    assert(w.take(16) =~= w);
    reveal_with_fuel(points, 17);
}

proof fn lemma_kept_contains(ws: Seq<(bool, Seq<char>, int)>, k: int)
    requires
        0 <= k < ws.len(),
        ws[k].0,
    ensures
        scoring::kept(ws).contains((ws[k].1, ws[k].2)),
    decreases ws.len(),
{
    let x = (ws[k].1, ws[k].2);
    let d = ws.drop_last();
    let prev = scoring::kept(d);
    if k == ws.len() - 1 {
        assert(scoring::kept(ws)[prev.len() as int] == x);
    } else {
        assert(d[k] == ws[k]);
        lemma_kept_contains(d, k);
        let j = choose|j: int| 0 <= j < prev.len() && prev[j] == x;
        if ws.last().0 {
            assert(scoring::kept(ws)[j] == x);
        }
    }
}

/// Each reason is named, with its points, exactly when its condition holds:
/// 15 for failed SPF, 15 for failed DKIM, 30 for a spoofed reply, 40 per bad
/// attachment, 2 per pressure word, 20 per HTML anomaly, 50 for a wallet, 20
/// for an encrypted zip, 100 for an archive with its password, 100 for a
/// double extension, 100 for a macro, 40 per cloaked link, 50 for the
/// recipient in a link, 30 for a request for credentials, 40 for
/// impersonation and 40 for a domain before the `@`. Counts are read within
/// 32 bits.
#[verifier::rlimit(60)]
#[verifier::spinoff_prover]
pub proof fn law_each_reason_carries_its_points(h: HeaderView, s: Signals)
    requires
        s.bad_attachments < 0x1_0000_0000,
        s.psycho_words < 0x1_0000_0000,
        s.html_anomalies < 0x1_0000_0000,
        s.cloaked_links < 0x1_0000_0000,
    ensures
        !h.spf_pass ==> scoring::triggers_spec(h, s).contains(("reasons.spf"@, 15)),
        !h.dkim_pass ==> scoring::triggers_spec(h, s).contains(("reasons.dkim"@, 15)),
        h.spoofed ==> scoring::triggers_spec(h, s).contains(("reasons.spoof"@, 30)),
        s.bad_attachments > 0 ==> scoring::triggers_spec(h, s).contains(("reasons.atts"@, 40 * s.bad_attachments)),
        s.psycho_words > 0 ==> scoring::triggers_spec(h, s).contains(("reasons.psycho"@, 2 * s.psycho_words)),
        s.html_anomalies > 0 ==> scoring::triggers_spec(h, s).contains(("reasons.html"@, 20 * s.html_anomalies)),
        s.has_crypto ==> scoring::triggers_spec(h, s).contains(("reasons.crypto"@, 50)),
        s.is_encrypted_zip ==> scoring::triggers_spec(h, s).contains(("reasons.enc_zip"@, 20)),
        (s.is_encrypted_zip || s.has_archive) && s.has_pwd_keyword ==> scoring::triggers_spec(h, s).contains(
            ("reasons.pwd_arc"@, 100),
        ),
        s.has_double_ext ==> scoring::triggers_spec(h, s).contains(("reasons.double_ext"@, 100)),
        s.has_macro ==> scoring::triggers_spec(h, s).contains(("reasons.macro"@, 100)),
        s.cloaked_links > 0 ==> scoring::triggers_spec(h, s).contains(("reasons.cloaked"@, 40 * s.cloaked_links)),
        s.victim_in_link ==> scoring::triggers_spec(h, s).contains(("reasons.victim_link"@, 50)),
        s.credential_ask ==> scoring::triggers_spec(h, s).contains(("reasons.credential"@, 30)),
        s.impersonates_recipient ==> scoring::triggers_spec(h, s).contains(("reasons.impersonation"@, 40)),
        s.domain_in_local_part ==> scoring::triggers_spec(h, s).contains(("reasons.local_part_domain"@, 40)),
{
    let w = scoring::weights(h, s);
    assert forall|k: int| 0 <= k < 16 && (#[trigger] w[k]).0 implies scoring::kept(w).contains((w[k].1, w[k].2)) by {
        lemma_kept_contains(w, k);
    }
    assert(w[0].0 ==> scoring::kept(w).contains((w[0].1, w[0].2)));
    assert(w[1].0 ==> scoring::kept(w).contains((w[1].1, w[1].2)));
    assert(w[2].0 ==> scoring::kept(w).contains((w[2].1, w[2].2)));
    assert(w[3].0 ==> scoring::kept(w).contains((w[3].1, w[3].2)));
    assert(w[4].0 ==> scoring::kept(w).contains((w[4].1, w[4].2)));
    assert(w[5].0 ==> scoring::kept(w).contains((w[5].1, w[5].2)));
    assert(w[6].0 ==> scoring::kept(w).contains((w[6].1, w[6].2)));
    assert(w[7].0 ==> scoring::kept(w).contains((w[7].1, w[7].2)));
    assert(w[8].0 ==> scoring::kept(w).contains((w[8].1, w[8].2)));
    assert(w[9].0 ==> scoring::kept(w).contains((w[9].1, w[9].2)));
    assert(w[10].0 ==> scoring::kept(w).contains((w[10].1, w[10].2)));
    assert(w[11].0 ==> scoring::kept(w).contains((w[11].1, w[11].2)));
    assert(w[12].0 ==> scoring::kept(w).contains((w[12].1, w[12].2)));
    assert(w[13].0 ==> scoring::kept(w).contains((w[13].1, w[13].2)));
    assert(w[14].0 ==> scoring::kept(w).contains((w[14].1, w[14].2)));
    assert(w[15].0 ==> scoring::kept(w).contains((w[15].1, w[15].2)));
}

/// The raw points written out term by term.
spec fn points_written_out(h: HeaderView, s: Signals) -> int {
    (if !h.spf_pass { 15int } else { 0int }) + (if !h.dkim_pass { 15int } else { 0int }) + (if h.spoofed {
        30int
    } else {
        0int
    }) + (if s.bad_attachments > 0 { scoring::as32(s.bad_attachments) * 40 } else { 0int }) + (
    if s.psycho_words > 0 {
        scoring::as32(s.psycho_words) * 2
    } else {
        0int
    }) + (if s.html_anomalies > 0 { scoring::as32(s.html_anomalies) * 20 } else { 0int }) + (if s.has_crypto {
        50int
    } else {
        0int
    }) + (if s.is_encrypted_zip { 20int } else { 0int }) + (if (s.is_encrypted_zip || s.has_archive)
        && s.has_pwd_keyword {
        100int
    } else {
        0int
    }) + (if s.has_double_ext { 100int } else { 0int }) + (if s.has_macro { 100int } else { 0int }) + (
    if s.cloaked_links > 0 {
        scoring::as32(s.cloaked_links) * 40
    } else {
        0int
    }) + (if s.victim_in_link { 50int } else { 0int }) + (if s.credential_ask { 30int } else { 0int }) + (
    if s.impersonates_recipient {
        40int
    } else {
        0int
    }) + (if s.domain_in_local_part { 40int } else { 0int })
}

#[verifier::rlimit(100)]
#[verifier::spinoff_prover]
proof fn lemma_written_out(h: HeaderView, s: Signals)
    ensures
        scoring::raw_score(h, s) == points_written_out(h, s),
{
    lemma_raw_score_sum(h, s);
    let w = scoring::weights(h, s);
    assert(w.len() == 16);
    assert(w[0] == (!h.spf_pass, "reasons.spf"@, 15int));
    assert(w[1] == (!h.dkim_pass, "reasons.dkim"@, 15int));
    assert(w[2] == (h.spoofed, "reasons.spoof"@, 30int));
    assert(w[3].0 == (s.bad_attachments > 0) && w[3].2 == scoring::as32(s.bad_attachments) * 40);
    assert(w[4].0 == (s.psycho_words > 0) && w[4].2 == scoring::as32(s.psycho_words) * 2);
    assert(w[5].0 == (s.html_anomalies > 0) && w[5].2 == scoring::as32(s.html_anomalies) * 20);
    assert(w[6].0 == s.has_crypto && w[6].2 == 50);
    assert(w[7].0 == s.is_encrypted_zip && w[7].2 == 20);
    assert(w[8].0 == ((s.is_encrypted_zip || s.has_archive) && s.has_pwd_keyword) && w[8].2 == 100);
    assert(w[9].0 == s.has_double_ext && w[9].2 == 100);
    assert(w[10].0 == s.has_macro && w[10].2 == 100);
    assert(w[11].0 == (s.cloaked_links > 0) && w[11].2 == scoring::as32(s.cloaked_links) * 40);
    assert(w[12].0 == s.victim_in_link && w[12].2 == 50);
    assert(w[13].0 == s.credential_ask && w[13].2 == 30);
    assert(w[14].0 == s.impersonates_recipient && w[14].2 == 40);
    assert(w[15].0 == s.domain_in_local_part && w[15].2 == 40);
}

/// A count within 32 bits reads as itself.
proof fn lemma_as32_small(n: usize)
    requires
        n < 0x1_0000_0000,
    ensures
        scoring::as32(n) == n,
{
    vstd::arithmetic::div_mod::lemma_small_mod(n as nat, 0x1_0000_0000);
}

/// One more bad attachment adds 40 points (counts within 32 bits).
#[verifier::spinoff_prover]
#[verifier::rlimit(100)]
pub proof fn law_one_more_bad_attachment_adds_forty(h: HeaderView, s: Signals)
    requires
        s.bad_attachments + 1 < 0x1_0000_0000,
    ensures
        scoring::raw_score(h, Signals { bad_attachments: (s.bad_attachments + 1) as usize, ..s })
            == scoring::raw_score(h, s) + 40,
{
    lemma_written_out(h, Signals { bad_attachments: (s.bad_attachments + 1) as usize, ..s });
    lemma_written_out(h, s);
    lemma_as32_small(s.bad_attachments);
    lemma_as32_small((s.bad_attachments + 1) as usize);
}

/// One more pressure word adds 2 points (counts within 32 bits).
#[verifier::spinoff_prover]
pub proof fn law_one_more_pressure_word_adds_two(h: HeaderView, s: Signals)
    requires
        s.psycho_words + 1 < 0x1_0000_0000,
    ensures
        scoring::raw_score(h, Signals { psycho_words: (s.psycho_words + 1) as usize, ..s })
            == scoring::raw_score(h, s) + 2,
{
    lemma_written_out(h, Signals { psycho_words: (s.psycho_words + 1) as usize, ..s });
    lemma_written_out(h, s);
    lemma_as32_small(s.psycho_words);
    lemma_as32_small((s.psycho_words + 1) as usize);
}

/// One more HTML anomaly adds 20 points (counts within 32 bits).
#[verifier::spinoff_prover]
pub proof fn law_one_more_html_anomaly_adds_twenty(h: HeaderView, s: Signals)
    requires
        s.html_anomalies + 1 < 0x1_0000_0000,
    ensures
        scoring::raw_score(h, Signals { html_anomalies: (s.html_anomalies + 1) as usize, ..s })
            == scoring::raw_score(h, s) + 20,
{
    lemma_written_out(h, Signals { html_anomalies: (s.html_anomalies + 1) as usize, ..s });
    lemma_written_out(h, s);
    lemma_as32_small(s.html_anomalies);
    lemma_as32_small((s.html_anomalies + 1) as usize);
}

/// One more cloaked link adds 40 points (counts within 32 bits).
#[verifier::spinoff_prover]
pub proof fn law_one_more_cloaked_link_adds_forty(h: HeaderView, s: Signals)
    requires
        s.cloaked_links + 1 < 0x1_0000_0000,
    ensures
        scoring::raw_score(h, Signals { cloaked_links: (s.cloaked_links + 1) as usize, ..s })
            == scoring::raw_score(h, s) + 40,
{
    lemma_written_out(h, Signals { cloaked_links: (s.cloaked_links + 1) as usize, ..s });
    lemma_written_out(h, s);
    lemma_as32_small(s.cloaked_links);
    lemma_as32_small((s.cloaked_links + 1) as usize);
}

#[verifier::spinoff_prover]
proof fn lemma_wallet_adds(h: HeaderView, s: Signals)
    ensures
        scoring::raw_score(h, Signals { has_crypto: true, ..s })
            == scoring::raw_score(h, Signals { has_crypto: false, ..s }) + 50,
{
    lemma_written_out(h, Signals { has_crypto: true, ..s });
    lemma_written_out(h, Signals { has_crypto: false, ..s });
}

#[verifier::spinoff_prover]
proof fn lemma_double_extension_adds(h: HeaderView, s: Signals)
    ensures
        scoring::raw_score(h, Signals { has_double_ext: true, ..s })
            == scoring::raw_score(h, Signals { has_double_ext: false, ..s }) + 100,
{
    lemma_written_out(h, Signals { has_double_ext: true, ..s });
    lemma_written_out(h, Signals { has_double_ext: false, ..s });
}

#[verifier::spinoff_prover]
proof fn lemma_macro_adds(h: HeaderView, s: Signals)
    ensures
        scoring::raw_score(h, Signals { has_macro: true, ..s })
            == scoring::raw_score(h, Signals { has_macro: false, ..s }) + 100,
{
    lemma_written_out(h, Signals { has_macro: true, ..s });
    lemma_written_out(h, Signals { has_macro: false, ..s });
}

#[verifier::spinoff_prover]
proof fn lemma_victim_link_adds(h: HeaderView, s: Signals)
    ensures
        scoring::raw_score(h, Signals { victim_in_link: true, ..s })
            == scoring::raw_score(h, Signals { victim_in_link: false, ..s }) + 50,
{
    lemma_written_out(h, Signals { victim_in_link: true, ..s });
    lemma_written_out(h, Signals { victim_in_link: false, ..s });
}

#[verifier::spinoff_prover]
proof fn lemma_credential_request_adds(h: HeaderView, s: Signals)
    ensures
        scoring::raw_score(h, Signals { credential_ask: true, ..s })
            == scoring::raw_score(h, Signals { credential_ask: false, ..s }) + 30,
{
    lemma_written_out(h, Signals { credential_ask: true, ..s });
    lemma_written_out(h, Signals { credential_ask: false, ..s });
}

#[verifier::spinoff_prover]
proof fn lemma_impersonation_adds(h: HeaderView, s: Signals)
    ensures
        scoring::raw_score(h, Signals { impersonates_recipient: true, ..s })
            == scoring::raw_score(h, Signals { impersonates_recipient: false, ..s }) + 40,
{
    lemma_written_out(h, Signals { impersonates_recipient: true, ..s });
    lemma_written_out(h, Signals { impersonates_recipient: false, ..s });
}

#[verifier::spinoff_prover]
proof fn lemma_hidden_domain_adds(h: HeaderView, s: Signals)
    ensures
        scoring::raw_score(h, Signals { domain_in_local_part: true, ..s })
            == scoring::raw_score(h, Signals { domain_in_local_part: false, ..s }) + 40,
{
    lemma_written_out(h, Signals { domain_in_local_part: true, ..s });
    lemma_written_out(h, Signals { domain_in_local_part: false, ..s });
}

#[verifier::spinoff_prover]
proof fn lemma_failed_spf_adds(h: HeaderView, s: Signals)
    ensures
        scoring::raw_score(HeaderView { spf_pass: false, ..h }, s)
            == scoring::raw_score(HeaderView { spf_pass: true, ..h }, s) + 15,
{
    lemma_written_out(HeaderView { spf_pass: false, ..h }, s);
    lemma_written_out(HeaderView { spf_pass: true, ..h }, s);
}

#[verifier::spinoff_prover]
proof fn lemma_failed_dkim_adds(h: HeaderView, s: Signals)
    ensures
        scoring::raw_score(HeaderView { dkim_pass: false, ..h }, s)
            == scoring::raw_score(HeaderView { dkim_pass: true, ..h }, s) + 15,
{
    lemma_written_out(HeaderView { dkim_pass: false, ..h }, s);
    lemma_written_out(HeaderView { dkim_pass: true, ..h }, s);
}

#[verifier::spinoff_prover]
proof fn lemma_spoofed_reply_adds(h: HeaderView, s: Signals)
    ensures
        scoring::raw_score(HeaderView { spoofed: true, ..h }, s)
            == scoring::raw_score(HeaderView { spoofed: false, ..h }, s) + 30,
{
    lemma_written_out(HeaderView { spoofed: true, ..h }, s);
    lemma_written_out(HeaderView { spoofed: false, ..h }, s);
}

/// Each finding that is simply there or not adds its points when it appears,
/// the others unchanged: a wallet 50, a double extension 100, a macro 100,
/// the recipient in a link 50, a request for credentials 30, impersonation
/// 40, a domain before the `@` 40; and among the headers a failed SPF 15, a
/// failed DKIM 15, a spoofed reply 30.
#[verifier::spinoff_prover]
pub proof fn law_each_finding_adds_its_points(h: HeaderView, s: Signals)
    ensures
        scoring::raw_score(h, Signals { has_crypto: true, ..s })
            == scoring::raw_score(h, Signals { has_crypto: false, ..s }) + 50,
        scoring::raw_score(h, Signals { has_double_ext: true, ..s })
            == scoring::raw_score(h, Signals { has_double_ext: false, ..s }) + 100,
        scoring::raw_score(h, Signals { has_macro: true, ..s })
            == scoring::raw_score(h, Signals { has_macro: false, ..s }) + 100,
        scoring::raw_score(h, Signals { victim_in_link: true, ..s })
            == scoring::raw_score(h, Signals { victim_in_link: false, ..s }) + 50,
        scoring::raw_score(h, Signals { credential_ask: true, ..s })
            == scoring::raw_score(h, Signals { credential_ask: false, ..s }) + 30,
        scoring::raw_score(h, Signals { impersonates_recipient: true, ..s })
            == scoring::raw_score(h, Signals { impersonates_recipient: false, ..s }) + 40,
        scoring::raw_score(h, Signals { domain_in_local_part: true, ..s })
            == scoring::raw_score(h, Signals { domain_in_local_part: false, ..s }) + 40,
        scoring::raw_score(HeaderView { spf_pass: false, ..h }, s)
            == scoring::raw_score(HeaderView { spf_pass: true, ..h }, s) + 15,
        scoring::raw_score(HeaderView { dkim_pass: false, ..h }, s)
            == scoring::raw_score(HeaderView { dkim_pass: true, ..h }, s) + 15,
        scoring::raw_score(HeaderView { spoofed: true, ..h }, s)
            == scoring::raw_score(HeaderView { spoofed: false, ..h }, s) + 30,
{
    lemma_wallet_adds(h, s);
    lemma_double_extension_adds(h, s);
    lemma_macro_adds(h, s);
    lemma_victim_link_adds(h, s);
    lemma_credential_request_adds(h, s);
    lemma_impersonation_adds(h, s);
    lemma_hidden_domain_adds(h, s);
    lemma_failed_spf_adds(h, s);
    lemma_failed_dkim_adds(h, s);
    lemma_spoofed_reply_adds(h, s);
}

} // verus!
