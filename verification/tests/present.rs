//! What the analyst is shown of a finding.

use eml_analyzer::present::{indicator_value, strings_listing};

#[test]
fn the_value_is_what_follows_the_label() {
    assert_eq!(indicator_value("URL: http://a.test/"), "http://a.test/");
    assert_eq!(indicator_value("IP: 10.0.0.7"), "10.0.0.7");
    assert_eq!(indicator_value("no label here"), "no label here");
    // Only the piece between the first and the second separator.
    assert_eq!(indicator_value("Redirect: a.test/x: y"), "a.test/x");
    assert_eq!(indicator_value("Email: "), "");
}

#[test]
fn the_strings_of_a_body_are_listed_one_per_line() {
    let blob = b"\x00\x01hello world\xff\xfe\x00tiny\x00another string";
    assert_eq!(strings_listing(blob), "hello world\nanother string");
    assert_eq!(strings_listing(b"\x00\x01\x02"), "");
}

#[test]
fn no_more_than_a_thousand_strings_are_listed() {
    let mut blob = Vec::new();
    for _ in 0..1500 {
        blob.extend_from_slice(b"abcdef\x00");
    }
    let listing = strings_listing(&blob);
    assert_eq!(listing.lines().count(), 1000);
    assert!(listing.lines().all(|l| l == "abcdef"));
}

#[test]
fn an_attachment_body_comes_back_from_its_base64() {
    assert_eq!(eml_analyzer::present::attachment_bytes("TVouLi4=").unwrap(), b"MZ...".to_vec());
    assert!(eml_analyzer::present::attachment_bytes("not base64!").is_err());
}
