//! Credential phishing: a message with no attachment at all.

use eml_analyzer::links;
use eml_analyzer::parser::{parse, Report};

const BENIGN: &str = "\
From: Anna <anna@example.org>\r
To: analyst@example.org\r
Subject: Lunch on Thursday\r
Authentication-Results: mx.example.org; spf=pass; dkim=pass; dmarc=pass\r
Content-Type: text/plain\r
\r
See you at one. The place on 5th.\r
";

fn parsed(content: &str) -> Report {
    parse(content.as_bytes()).unwrap()
}

fn trigger_keys(r: &Report) -> String {
    r.scoring
        .triggers
        .iter()
        .map(|t| t.key.clone())
        .collect::<Vec<String>>()
        .join(",")
}

/// The link out of that message: a reputable outer host, the real destination
/// percent-encoded in its query through a second redirector, and the
/// recipient's address base64 in the fragment. `dHJpYWdlQGV4YW1wbGUub3Jn` is
/// `triage@example.org`.
const CLOAKED: &str = "https://www.tiktok.com/link/v2?aid=1988&scene=bio_url\
&target=mail.qiye.example.cn%2Fapi%2Fj%2Fre%3Fc%3D%2F%2Fportal.example.br/senex/\
#dHJpYWdlQGV4YW1wbGUub3Jn";

/// The message as it arrived: HTML only, no attachment, no authentication
/// results, one button.
fn phish(link: &str) -> String {
    format!(
        "From: ict_access_Mk <poskothr@ministry.example.id>\r\n\
         To: triage@example.org\r\n\
         Subject: Potribne pidtverdzhennia elektronnoi poshty\r\n\
         MIME-Version: 1.0\r\n\
         Content-Type: text/html; charset=utf-8\r\n\
         \r\n\
         <div>Користувач: info, Ми виявили помилку у вашій поштовій скриньці \
         triage@example.org. Щоб забезпечити подальше надсилання та отримання \
         електронних листів, будь ласка, підтвердьте свої облікові дані. \
         <a href=\"{link}\">Підтвердити зараз</a></div>\r\n"
    )
}

#[test]
fn the_message_with_no_attachment_is_not_low_risk() {
    let v = parsed(&phish(CLOAKED));
    assert_eq!(v.attachments.len(), 0, "nothing is attached");

    let score = v.scoring.score;
    assert_eq!(score, 100, "it is a credential page, and it scored {score}");

    let triggers = trigger_keys(&v);
    for key in [
        "reasons.cloaked",
        "reasons.victim_link",
        "reasons.credential",
        "reasons.impersonation",
    ] {
        assert!(triggers.contains(key), "{key} is missing from {triggers}");
    }
}

#[test]
fn the_real_destination_is_reported() {
    let v = parsed(&phish(CLOAKED));
    let iocs = v.iocs.join(",");
    assert!(
        iocs.contains("Redirect: portal.example.br/senex/"),
        "the last hop is what the browser lands on: {iocs}"
    );
}

#[test]
fn an_indicator_is_the_url_and_not_its_quote() {
    let v = parsed(&phish("https://example.org/one"));
    let url = v
        .iocs
        .iter()
        .find(|s| s.starts_with("URL: "))
        .expect("the link is an indicator");
    assert_eq!(url, "URL: https://example.org/one", "a quote is not part of a URL");
}

#[test]
fn a_redirector_is_followed_to_its_last_hop() {
    assert_eq!(
        links::redirect_target(CLOAKED).as_deref(),
        Some("portal.example.br/senex/#dHJpYWdlQGV4YW1wbGUub3Jn"),
        "two hops, both percent-encoded, no scheme on either"
    );
    assert_eq!(
        links::redirect_target("https://r.example.com/c?url=https%3A%2F%2Fevil.example.net/login")
            .as_deref(),
        Some("evil.example.net/login")
    );
}

#[test]
fn an_ordinary_link_is_not_a_redirector() {
    for url in [
        "https://example.org/news/2026/report",
        "https://example.org/a?utm_source=newsletter&utm_campaign=autumn",
        "https://click.mailer.example/ss/c/u001.9dKJa7Fj2/3c/xyz",
        "https://example.org/d?file=invoice.pdf",
        "https://cdn.example.org/assets/logo.png?v=2",
        "https://example.org/go?to=mail.example.org/inbox",
    ] {
        assert_eq!(links::redirect_target(url), None, "{url} was read as a redirector");
    }
}

#[test]
fn only_the_fragment_counts_as_carrying_the_address() {
    let me = "triage@example.org";
    assert!(links::fragment_carries(CLOAKED, me), "base64 in the fragment");
    assert!(
        links::fragment_carries("https://example.org/login#triage@example.org", me),
        "plain in the fragment"
    );
    assert!(
        links::fragment_carries("https://example.org/l#u=dHJpYWdlQGV4YW1wbGUub3Jn", me),
        "base64 inside a fragment parameter"
    );
    assert!(!links::fragment_carries(
        "https://example.org/unsubscribe?email=triage%40example.org",
        me
    ));
    assert!(!links::fragment_carries("https://example.org/login#section-2", me));
    assert!(!links::fragment_carries("https://example.org/l#other@example.org", me));
}

#[test]
fn asking_for_credentials_takes_a_verb_and_an_object() {
    for text in [
        "будь ласка, підтвердьте свої облікові дані",
        "Потрібне підтвердження електронної пошти",
        "Please confirm your account to continue",
        "Verify your mailbox password",
    ] {
        assert!(links::asks_for_credentials(text), "{text}");
    }
    for text in [
        "Please confirm you can attend on Thursday",
        "Підтвердьте, будь ласка, отримання документів",
        "Your account was charged 12.00 EUR this morning",
        "See you at one. The place on 5th.",
    ] {
        assert!(!links::asks_for_credentials(text), "{text} is ordinary mail");
    }
}

#[test]
fn a_notice_about_your_mailbox_comes_from_your_own_domain() {
    let v = parsed(&phish(CLOAKED));
    assert!(trigger_keys(&v).contains("reasons.impersonation"));

    let internal = phish(CLOAKED).replace("ministry.example.id", "example.org");
    let v = parsed(&internal);
    assert!(
        !trigger_keys(&v).contains("reasons.impersonation"),
        "mail from your own domain about your own mailbox is not impersonation"
    );
}

#[test]
fn a_benign_message_is_untouched_by_any_of_it() {
    let v = parsed(BENIGN);
    assert!(v.scoring.score <= 30);
    let triggers = trigger_keys(&v);
    for key in ["cloaked", "victim_link", "credential", "impersonation"] {
        assert!(!triggers.contains(key), "{key} fired on a benign message");
    }
}

#[test]
fn credential_wording_alone_is_not_scored() {
    let text = BENIGN.replace(
        "See you at one. The place on 5th.",
        "Your mailbox password was changed. Confirm your account if this was not you.",
    );
    let v = parsed(&text);
    assert!(
        !trigger_keys(&v).contains("reasons.credential"),
        "there is nowhere to type it"
    );
}

#[test]
fn the_same_organisation_is_recognised_across_subdomains() {
    assert_eq!(links::registrable("mail.example.org"), "example.org");
    assert_eq!(links::registrable("mx1.mk.gov.ua"), "mk.gov.ua");
    assert_eq!(links::registrable("zmta4.kemnaker.go.id"), "kemnaker.go.id");
    assert_eq!(links::registrable("portal.example.co.uk"), "example.co.uk");
    assert_ne!(links::registrable("mk.gov.ua"), links::registrable("kemnaker.go.id"));
}

#[test]
fn a_domain_before_the_at_sign_is_not_a_name() {
    for address in [
        "cert.gov.ua@notify-secure.example",
        "mk.gov.ua@gmail.example",
        "\"Support\" <support.microsoft.com@mail.example.ru>",
        "billing.com@invoices.example",
        "privat24.com.ua@secure-login.example",
    ] {
        assert!(links::domain_in_local_part(address), "{address}");
    }
}

#[test]
fn an_ordinary_name_with_a_dot_is_left_alone() {
    for address in [
        "john.smith@example.org",
        "Anna Boyko <anna.boyko@example.org>",
        "o.brien@example.org",
        "van.de.berg@example.nl",
        "anna.it@example.org",
        "v.petrenko@example.ua",
        "info.desk@example.org",
        "no-reply@example.org",
        "cert@cert.gov.ua",
        "gov@example.org",
    ] {
        assert!(!links::domain_in_local_part(address), "{address} is an ordinary address");
    }
}

#[test]
fn the_hidden_domain_is_scored_from_the_headers() {
    let msg = String::from(
        "From: \"CERT-UA\" <cert.gov.ua@notify-secure.example>\r\n\
         To: triage@example.org\r\n\
         Subject: Notice\r\n\
         Authentication-Results: mx.example.org; spf=pass; dkim=pass; dmarc=pass\r\n\
         Content-Type: text/plain\r\n\
         \r\n\
         Please read the attached notice.\r\n",
    );
    let v = parsed(&msg);
    let triggers = trigger_keys(&v);
    assert!(triggers.contains("reasons.local_part_domain"), "{triggers}");

    let clean = msg.replace("cert.gov.ua@notify-secure.example", "cert@cert.gov.ua");
    let v = parsed(&clean);
    assert!(
        !trigger_keys(&v).contains("local_part_domain"),
        "an ordinary address was flagged"
    );
    assert_eq!(v.scoring.score, 0, "and it scores nothing at all");
}

// ---- the pieces, on values of their own ------------------------------------ //

#[test]
fn the_address_is_read_out_of_its_angle_brackets() {
    assert_eq!(links::bare_address("Anna <Anna@Example.org>"), "anna@example.org");
    assert_eq!(links::bare_address("  x@y.z "), "x@y.z");
    assert_eq!(links::domain_of("anna@example.org"), "example.org");
    assert_eq!(links::domain_of("no-at-sign"), "");
}

#[test]
fn a_percent_escape_is_decoded_and_a_bad_one_kept() {
    assert_eq!(links::percent_decode("a%2Fb%3a"), "a/b:");
    assert_eq!(links::percent_decode("100%"), "100%");
    assert_eq!(links::percent_decode("%zz"), "%zz");
    assert_eq!(links::percent_decode("%252F"), "%2F", "one pass only");
    assert_eq!(links::percent_decode("%4"), "%4");
    assert_eq!(links::percent_decode("%+1"), "%+1", "a sign is no hex digit");
}

#[test]
fn every_href_is_read_out_of_its_attribute_trimmed_and_in_order() {
    let html = "<a href=\"https://a.example/1\">x</a> <a HREF='mailto:x@y.example'>m</a> \
                <a href=\" http://b.example/2 \">y</a>";
    assert_eq!(
        links::hrefs(html),
        vec![
            "https://a.example/1".to_string(),
            "mailto:x@y.example".to_string(),
            "http://b.example/2".to_string(),
        ]
    );
}

#[test]
fn a_subdomain_and_a_second_asking_give_the_same_organisation() {
    assert_eq!(links::registrable("x.mail.example.org"), links::registrable("mail.example.org"));
    assert_eq!(links::registrable("a.mx1.mk.gov.ua"), links::registrable("mx1.mk.gov.ua"));
    let r = links::registrable("Mail.Example.ORG.");
    assert_eq!(r, "example.org");
    assert_eq!(links::registrable(&r), r);
}

#[test]
fn every_cloaked_link_of_a_message_is_reported() {
    let v = parsed(&phish("https://r.example.com/c?url=https%3A%2F%2Fevil.example.net/login"));
    assert!(v.iocs.contains(&"Redirect: evil.example.net/login".to_string()), "{:?}", v.iocs);
}
