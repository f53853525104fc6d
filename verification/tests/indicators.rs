//! What is pulled out of the body: addresses to pivot on, and the pressure
//! the message applies.

use eml_analyzer::ioc;

#[test]
fn every_kind_of_indicator_is_labelled() {
    let text = "call 10.0.0.7 or visit http://evil.test/pay now, mail us at \
                collector@evil.test, pay to 1BvBMSEYstWetqTFn5Au4m4GFg7xJaNVN2";
    let found = ioc::extract(text);
    assert!(found.contains(&"IP: 10.0.0.7".to_string()), "{found:?}");
    assert!(found.contains(&"URL: http://evil.test/pay".to_string()), "{found:?}");
    assert!(found.contains(&"Email: collector@evil.test".to_string()), "{found:?}");
    assert!(
        found.iter().any(|i| i.starts_with("BTC: 1BvBMSEYstWetqTFn5Au4m4GFg7xJaNVN2")),
        "{found:?}"
    );
}

/// The same address twice is one indicator. An analyst pivots on each once.
#[test]
fn repeats_collapse_and_the_list_is_ordered() {
    let found = ioc::extract("10.0.0.7 and 10.0.0.7 and 10.0.0.7");
    assert_eq!(found, vec!["IP: 10.0.0.7".to_string()]);

    let mut sorted = ioc::extract("zz@b.com http://a.test 10.0.0.7");
    let expected = sorted.clone();
    sorted.sort();
    assert_eq!(sorted, expected, "extract must return them sorted");
}

#[test]
fn ordinary_prose_yields_nothing() {
    assert!(ioc::extract("See you at one. The place on 5th.").is_empty());
}

#[test]
fn urgency_is_counted_and_a_password_is_noticed() {
    let (count, pwd) = ioc::count_psycho_words("ТЕРМІНОВО: штраф за заборгованість");
    assert!(count >= 3, "counted {count}");
    assert!(!pwd);

    let (_, pwd) = ioc::count_psycho_words("архів, пароль: 1234");
    assert!(pwd, "a password in the body is what makes an archive worth 100");

    let (count, pwd) = ioc::count_psycho_words("See you at one.");
    assert_eq!((count, pwd), (0, false));
}

#[test]
fn text_hidden_from_the_reader_is_an_anomaly() {
    assert_eq!(ioc::check_html_anomalies("<p style=\"display:none\">x</p>"), 1);
    assert_eq!(ioc::check_html_anomalies("<span style=\"font-size: 0\">x</span>"), 1);
    assert_eq!(ioc::check_html_anomalies("<p>an ordinary paragraph</p>"), 0);
}

/// A link that reads as one place and goes to another is the whole mechanism
/// of a phishing message.
#[test]
fn a_link_that_lies_about_where_it_goes_is_an_anomaly() {
    let lying = "<a href=\"http://evil.test/x\">http://bank.example/login</a>";
    assert_eq!(ioc::check_html_anomalies(lying), 1);

    let honest = "<a href=\"http://bank.example/login\">http://bank.example/login</a>";
    assert_eq!(ioc::check_html_anomalies(honest), 0);
}

#[test]
fn every_indicator_kind_has_its_own_label() {
    let found = ioc::extract("mail x@y.org or see https://a.test/p, host 192.168.1.1");
    assert_eq!(
        found,
        vec![
            "Email: x@y.org".to_string(),
            "IP: 192.168.1.1".to_string(),
            "URL: https://a.test/p,".to_string(),
        ]
    );
}

#[test]
fn each_pressure_word_counts_once_however_often_it_appears() {
    let (count, pwd) = ioc::count_psycho_words("Терміново! ТЕРМІНОВО, терміново: штраф");
    assert_eq!((count, pwd), (2, false));
    let (count, pwd) = ioc::count_psycho_words("Your PASSWORD");
    assert_eq!((count, pwd), (0, true));
}

#[test]
fn hidden_text_counts_once_and_each_lying_link_once_more() {
    let html = "<p style=\"display:none\">a</p><div style=\"font-size:0\">b</div>\
                <a href=\"http://evil.test/x\">http://bank.example/login</a>\
                <a href=\"http://evil.test/y\">http://shop.example/cart</a>";
    assert_eq!(ioc::check_html_anomalies(html), 3);
    // The same host spelled in another case is the same host.
    let upper = "<a href=\"http://BANK.example/a\">http://bank.example/b</a>";
    assert_eq!(ioc::check_html_anomalies(upper), 0);
}
