//! How the points add up, and what the analyst is told they were for.

use eml_analyzer::headers::HeaderData;
use eml_analyzer::scoring::{calculate, is_severe, points_fit, risk_level, RiskLevel, Scoring, Signals};

fn headers(spf: bool, dkim: bool, spoofed: bool) -> HeaderData {
    HeaderData {
        subject: String::new(),
        from: String::new(),
        reply_to: String::new(),
        to: String::new(),
        spoofed,
        spf_pass: spf,
        dkim_pass: dkim,
        dmarc_pass: false,
    }
}

/// The nine counts and findings of the original weighing, in its order.
#[allow(clippy::too_many_arguments)]
fn signals(
    bad_attachments: usize,
    has_double_ext: bool,
    psycho_words: usize,
    html_anomalies: usize,
    has_crypto: bool,
    has_archive: bool,
    is_encrypted_zip: bool,
    has_pwd_keyword: bool,
    has_macro: bool,
) -> Signals {
    Signals {
        bad_attachments,
        has_double_ext,
        psycho_words,
        html_anomalies,
        has_crypto,
        has_archive,
        is_encrypted_zip,
        has_pwd_keyword,
        has_macro,
        ..Signals::default()
    }
}

fn keys_of(v: &Scoring) -> Vec<String> {
    v.triggers.iter().map(|t| t.key.clone()).collect()
}

fn calc(h: &HeaderData) -> Scoring {
    calculate(h, &signals(0, false, 0, 0, false, false, false, false, false))
}

#[test]
fn an_authenticated_empty_message_scores_nothing() {
    let v = calc(&headers(true, true, false));
    assert_eq!(v.score, 0);
    assert!(keys_of(&v).is_empty());
}

#[test]
fn each_failed_check_carries_its_own_weight() {
    assert_eq!(calc(&headers(false, true, false)).score, 15);
    assert_eq!(calc(&headers(true, false, false)).score, 15);
    assert_eq!(calc(&headers(true, true, true)).score, 30);
    assert_eq!(calc(&headers(false, false, true)).score, 60);
}

#[test]
fn an_executable_attachment_outweighs_every_header() {
    let clean = headers(true, true, false);
    let v = calculate(&clean, &signals(1, false, 0, 0, false, false, false, false, false));
    assert_eq!(v.score, 40);
    assert_eq!(keys_of(&v), vec!["reasons.atts"]);

    let v = calculate(&clean, &signals(2, false, 0, 0, false, false, false, false, false));
    assert_eq!(v.score, 80);
}

#[test]
fn an_archive_with_its_password_is_decisive() {
    let clean = headers(true, true, false);
    let v = calculate(&clean, &signals(0, false, 0, 0, false, true, false, true, false));
    assert_eq!(v.score, 100);
    assert!(keys_of(&v).contains(&"reasons.pwd_arc".to_string()));

    let v = calculate(&clean, &signals(0, false, 0, 0, false, true, false, false, false));
    assert_eq!(v.score, 0);
}

#[test]
fn the_worst_message_still_scores_one_hundred() {
    let v = calculate(
        &headers(false, false, true),
        &signals(3, true, 10, 2, true, true, true, true, true),
    );
    assert_eq!(v.score, 100, "the score is a percentage, not a tally");
}

// ---- beyond the original's own cases --------------------------------------- //

#[test]
fn every_reason_is_named_in_the_order_it_is_weighed() {
    let all = Signals {
        bad_attachments: 1,
        has_double_ext: true,
        psycho_words: 3,
        html_anomalies: 1,
        has_crypto: true,
        has_archive: true,
        is_encrypted_zip: true,
        has_pwd_keyword: true,
        has_macro: true,
        cloaked_links: 2,
        victim_in_link: true,
        credential_ask: true,
        impersonates_recipient: true,
        domain_in_local_part: true,
    };
    let v = calculate(&headers(false, false, true), &all);
    let got: Vec<(String, u32)> = v.triggers.iter().map(|t| (t.key.clone(), t.pts)).collect();
    let want: Vec<(String, u32)> = [
        ("reasons.spf", 15),
        ("reasons.dkim", 15),
        ("reasons.spoof", 30),
        ("reasons.atts", 40),
        ("reasons.psycho", 6),
        ("reasons.html", 20),
        ("reasons.crypto", 50),
        ("reasons.enc_zip", 20),
        ("reasons.pwd_arc", 100),
        ("reasons.double_ext", 100),
        ("reasons.macro", 100),
        ("reasons.cloaked", 80),
        ("reasons.victim_link", 50),
        ("reasons.credential", 30),
        ("reasons.impersonation", 40),
        ("reasons.local_part_domain", 40),
    ]
    .iter()
    .map(|(k, p)| (k.to_string(), *p))
    .collect();
    assert_eq!(got, want);
    assert_eq!(v.score, 100);
}

#[test]
fn under_the_cap_the_score_is_the_sum_of_its_reasons() {
    let v = calculate(
        &headers(true, false, false),
        &Signals { psycho_words: 4, html_anomalies: 1, ..Signals::default() },
    );
    assert_eq!(v.score, 15 + 8 + 20);
    let sum: u32 = v.triggers.iter().map(|t| t.pts).sum();
    assert_eq!(v.score, sum);
}

#[test]
fn more_of_what_was_noticed_never_lowers_the_score() {
    let h = headers(true, true, false);
    let less = calculate(&h, &Signals { psycho_words: 2, ..Signals::default() });
    let more = calculate(&h, &Signals { psycho_words: 5, cloaked_links: 1, ..Signals::default() });
    assert!(less.score <= more.score);
    assert_eq!((less.score, more.score), (4, 50));
}

#[test]
fn the_points_fit_until_a_count_is_absurd() {
    let h = headers(true, true, false);
    assert!(points_fit(&h, &Signals::default()));
    assert!(points_fit(&h, &Signals { psycho_words: 1000, ..Signals::default() }));
    assert!(!points_fit(
        &h,
        &Signals { bad_attachments: 200_000_000, ..Signals::default() }
    ));
}

#[test]
fn the_score_reads_as_a_level_and_a_reason_as_a_severity() {
    assert!(matches!(risk_level(0), RiskLevel::Low));
    assert!(matches!(risk_level(30), RiskLevel::Low));
    assert!(matches!(risk_level(31), RiskLevel::Medium));
    assert!(matches!(risk_level(60), RiskLevel::Medium));
    assert!(matches!(risk_level(61), RiskLevel::High));
    assert!(matches!(risk_level(100), RiskLevel::High));
    assert!(is_severe(50) && is_severe(100));
    assert!(!is_severe(49) && !is_severe(15));
}
