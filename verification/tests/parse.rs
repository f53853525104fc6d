//! Reading a message: what comes back, and what refuses to.

use base64::engine::general_purpose::STANDARD;
use base64::Engine;
use eml_analyzer::parser::{extract_strings, parse, Report};

const BENIGN: &str = "\
From: Anna <anna@example.org>\r
To: analyst@example.org\r
Subject: Lunch on Thursday\r
Authentication-Results: mx.example.org; spf=pass; dkim=pass; dmarc=pass\r
Content-Type: text/plain\r
\r
See you at one. The place on 5th.\r
";

/// A multipart message with one attachment, base64 as a real mail would carry
/// it. `name` is what the message *claims* the file is called.
fn with_attachment(name: &str, bytes: &[u8], auth: &str) -> String {
    format!(
        "From: Billing <billing@exarnple.com>\r\n\
         Reply-To: collector@evil.test\r\n\
         To: analyst@example.org\r\n\
         Subject: Invoice\r\n\
         Authentication-Results: mx.example.org; {auth}\r\n\
         MIME-Version: 1.0\r\n\
         Content-Type: multipart/mixed; boundary=\"B\"\r\n\
         \r\n\
         --B\r\n\
         Content-Type: text/plain\r\n\
         \r\n\
         Please see the attached.\r\n\
         --B\r\n\
         Content-Type: application/octet-stream; name=\"{name}\"\r\n\
         Content-Transfer-Encoding: base64\r\n\
         Content-Disposition: attachment; filename=\"{name}\"\r\n\
         \r\n\
         {}\r\n\
         --B--\r\n",
        STANDARD.encode(bytes)
    )
}

/// The first bytes of a zip, with the "encrypted" bit set in the general
/// purpose flags.
fn encrypted_zip() -> Vec<u8> {
    let mut b = vec![0x50, 0x4B, 0x03, 0x04, 0x14, 0x00, 0x01, 0x00];
    b.extend_from_slice(b"\x08\x00rest of an archive");
    b
}

fn parsed(content: &str) -> Report {
    parse(content.as_bytes()).unwrap()
}

fn note_key(r: &Report) -> String {
    r.attachments[0].note.key.clone()
}

fn trigger_keys(r: &Report) -> String {
    r.scoring
        .triggers
        .iter()
        .map(|t| t.key.clone())
        .collect::<Vec<String>>()
        .join(",")
}

#[test]
fn a_benign_message_scores_low_and_carries_no_files() {
    let v = parsed(BENIGN);
    assert!(v.scoring.score <= 30);
    assert_eq!(v.attachments.len(), 0);
    assert_eq!(v.headers.from, "Anna <anna@example.org>");
}

#[test]
fn the_hash_identifies_the_file_itself() {
    let v = parsed(BENIGN);
    let hash = v.eml_hash.clone();
    assert_eq!(hash.len(), 32, "md5, hex");
    assert_eq!(hash, parsed(BENIGN).eml_hash);
    assert_ne!(hash, parsed(&BENIGN.replace("one.", "two.")).eml_hash);
}

#[test]
fn an_executable_attachment_is_called_out() {
    let v = parsed(&with_attachment("setup.exe", b"MZ...", "spf=pass; dkim=pass"));
    let att = &v.attachments[0];
    assert_eq!(att.filename, "setup.exe");
    assert_eq!(att.note.key, "notes.exe");
    assert!(att.note.arg.is_none());
    assert_eq!(att.size, 5);
    assert_eq!(att.hash.len(), 32);
}

#[test]
fn a_double_extension_is_worth_the_whole_score() {
    let v = parsed(&with_attachment("invoice.pdf.exe", b"MZ", "spf=pass; dkim=pass"));
    assert_eq!(note_key(&v), "notes.double_ext");
    assert!(v.attachments[0].note.arg.is_none());
    assert_eq!(v.scoring.score, 100);
}

#[test]
fn a_macro_enabled_document_is_not_treated_as_a_document() {
    let v = parsed(&with_attachment("report.docm", b"PK\x03\x04", "spf=pass; dkim=pass"));
    assert_eq!(note_key(&v), "notes.macro_format");
    assert!(v.attachments[0].note.arg.is_none());
}

#[test]
fn an_encrypted_archive_is_recognised_by_its_flag() {
    let v = parsed(&with_attachment("archive.zip", &encrypted_zip(), "spf=pass; dkim=pass"));
    assert_eq!(note_key(&v), "notes.enc_zip");
    assert!(v.attachments[0].note.arg.is_none());
    let triggers = trigger_keys(&v);
    assert!(triggers.contains("reasons.enc_zip"), "{triggers}");
}

#[test]
fn indicators_come_out_of_the_body() {
    let raw = BENIGN.replace("The place on 5th.", "wire it via http://evil.test/pay from 10.0.0.7");
    let iocs = parsed(&raw).iocs.join(",");
    assert!(iocs.contains("URL: http://evil.test/pay"), "{iocs}");
    assert!(iocs.contains("IP: 10.0.0.7"), "{iocs}");
}

#[test]
fn rubbish_is_read_without_panicking() {
    let v = parse("\u{0}\u{1}not a message at all\u{7}".as_bytes());
    assert!(v.is_ok(), "mailparse is deliberately tolerant");
}

#[test]
fn strings_are_pulled_out_of_bytes_that_are_not_text() {
    let blob = b"\x00\x01hello world\xff\xfe\x00tiny\x00another string";
    let found = extract_strings(blob);
    assert!(found.contains(&"hello world".to_string()), "{found:?}");
    assert!(found.contains(&"another string".to_string()), "{found:?}");
    assert!(!found.iter().any(|s| s == "tiny"), "runs under 5 are noise: {found:?}");
}

#[test]
fn a_pdf_linking_to_an_archive_is_flagged() {
    let pdf = b"%PDF-1.7\n<< /Type /Action /S /URI /URI (http://evil.test/invoice.zip) >>\ntrailer\n";
    let v = parsed(&with_attachment("invoice.pdf", pdf, "spf=pass"));
    let note = &v.attachments[0].note;
    assert_eq!(note.key, "notes.pdf_link", "note was {}", note.key);
    assert!(
        note.arg.as_deref().unwrap().contains("invoice.zip"),
        "the note has to say which link: {:?}",
        note.arg
    );
    assert_ne!(v.attachments[0].note.key, "notes.double_ext");
}

#[test]
fn an_ordinary_pdf_link_is_left_alone() {
    for url in [
        "https://cdn.example.org/release/v1.zip.sig",
        "https://example.org/a.pdf?attachment=payload.zip",
        "https://example.org/files/report.pdf",
        "https://example.org/docs/isolation-guide.html",
    ] {
        let pdf = format!("%PDF-1.7\n<< /S /URI /URI ({url}) >>\n");
        let v = parsed(&with_attachment("doc.pdf", pdf.as_bytes(), "spf=pass"));
        assert_eq!(
            v.attachments[0].note.key,
            "notes.ok",
            "{url} should not have been flagged: {:?}",
            v.attachments[0].note.arg
        );
        assert!(v.attachments[0].note.arg.is_none());
    }
}

#[test]
fn the_newer_executable_extensions_are_caught() {
    for name in ["update.lnk", "report.hta", "settings.cpl"] {
        let v = parsed(&with_attachment(name, b"whatever", "spf=pass"));
        assert_eq!(note_key(&v), "notes.exe", "{name} was not treated as executable");
        assert!(v.scoring.score >= 50, "{name} scored low");
    }
}

// ---- beyond the original's own cases --------------------------------------- //

#[test]
fn the_attachment_body_travels_as_base64() {
    let v = parsed(&with_attachment("setup.exe", b"MZ...", "spf=pass; dkim=pass"));
    assert_eq!(v.attachments[0].body_b64, "TVouLi4=");
    // md5("MZ...")
    assert_eq!(v.attachments[0].hash, "5f7b829b6c35d164df1e28a6bcd2469d");
}

#[test]
fn the_message_hash_is_the_md5_of_its_bytes() {
    let v = parsed("Subject: x\r\n\r\ny\r\n");
    assert_eq!(v.eml_hash, eml_analyzer::digest::md5_hex(b"Subject: x\r\n\r\ny\r\n"));
    assert_eq!(eml_analyzer::digest::md5_hex(b""), "d41d8cd98f00b204e9800998ecf8427e");
}

#[test]
fn an_executable_with_the_spoofed_reply_is_scored_for_both() {
    let v = parsed(&with_attachment("setup.exe", b"MZ", "spf=pass; dkim=pass"));
    assert!(v.headers.spoofed);
    let keys: Vec<(String, u32)> =
        v.scoring.triggers.iter().map(|t| (t.key.clone(), t.pts)).collect();
    assert_eq!(
        keys,
        vec![("reasons.spoof".to_string(), 30), ("reasons.atts".to_string(), 40)]
    );
    assert_eq!(v.scoring.score, 70);
}
