//! What the headers admit about who sent the message.

use eml_analyzer::headers::HeaderData;
use eml_analyzer::parser::parse;

const BENIGN: &str = "\
From: Anna <anna@example.org>\r
To: analyst@example.org\r
Subject: Lunch on Thursday\r
Authentication-Results: mx.example.org; spf=pass; dkim=pass; dmarc=pass\r
Content-Type: text/plain\r
\r
See you at one. The place on 5th.\r
";

fn analyzed(raw: &str) -> HeaderData {
    parse(raw.as_bytes()).unwrap().headers
}

#[test]
fn a_passing_message_passes_all_three() {
    let h = analyzed(BENIGN);
    assert!(h.spf_pass, "spf_pass");
    assert!(h.dkim_pass, "dkim_pass");
    assert!(h.dmarc_pass, "dmarc_pass");
    assert!(!h.spoofed);
    assert_eq!(h.subject, "Lunch on Thursday");
}

#[test]
fn no_auth_header_is_not_a_pass() {
    let h = analyzed("From: a@b.c\r\nSubject: x\r\n\r\nbody\r\n");
    assert!(!h.spf_pass, "spf_pass");
    assert!(!h.dkim_pass, "dkim_pass");
    assert!(!h.dmarc_pass, "dmarc_pass");
}

#[test]
fn a_failing_result_is_read_as_failing() {
    let raw = "From: a@b.c\r\nAuthentication-Results: mx; spf=fail; dkim=none; dmarc=fail\r\n\r\nx\r\n";
    let h = analyzed(raw);
    assert!(!h.spf_pass, "spf_pass");
    assert!(!h.dkim_pass, "dkim_pass");
    assert!(!h.dmarc_pass, "dmarc_pass");
}

#[test]
fn a_reply_to_elsewhere_is_spoofing() {
    let raw = "From: Billing <billing@bank.example>\r\nReply-To: collector@evil.test\r\n\r\nx\r\n";
    assert!(analyzed(raw).spoofed);
}

#[test]
fn a_reply_to_the_sender_is_not() {
    let raw = "From: Billing <billing@bank.example>\r\nReply-To: billing@bank.example\r\n\r\nx\r\n";
    assert!(!analyzed(raw).spoofed);
    assert!(!analyzed(BENIGN).spoofed);
}

#[test]
fn the_verdicts_are_read_whatever_their_case_and_a_missing_header_is_empty() {
    let raw = "from: a@b.c\r\nAUTHENTICATION-RESULTS: mx; SPF=Pass; DKIM=PASS\r\n\r\nx\r\n";
    let h = analyzed(raw);
    assert!(h.spf_pass && h.dkim_pass && !h.dmarc_pass);
    assert_eq!(h.from, "a@b.c");
    assert_eq!(h.to, "");
    assert_eq!(h.reply_to, "");
    assert_eq!(h.subject, "");
}
