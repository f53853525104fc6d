//! What the headers admit about who sent the message.

use vstd::prelude::*;
use crate::text;
use crate::mime;

verus! {

/// The headers the analysis reads, and what it concludes from them.
pub struct HeaderData {
    pub subject: String,
    pub from: String,
    pub reply_to: String,
    pub to: String,
    /// There is a Reply-To, and the From header does not contain it.
    pub spoofed: bool,
    pub spf_pass: bool,
    pub dkim_pass: bool,
    pub dmarc_pass: bool,
}

/// The headers as plain values.
pub struct HeaderView {
    pub subject: Seq<char>,
    pub from: Seq<char>,
    pub reply_to: Seq<char>,
    pub to: Seq<char>,
    pub spoofed: bool,
    pub spf_pass: bool,
    pub dkim_pass: bool,
    pub dmarc_pass: bool,
}

impl View for HeaderData {
    type V = HeaderView;

    open spec fn view(&self) -> HeaderView {
        HeaderView {
            subject: self.subject@,
            from: self.from@,
            reply_to: self.reply_to@,
            to: self.to@,
            spoofed: self.spoofed,
            spf_pass: self.spf_pass,
            dkim_pass: self.dkim_pass,
            dmarc_pass: self.dmarc_pass,
        }
    }
}

/// A reply that goes somewhere other than the sender.
pub open spec fn spoofed_spec(from: Seq<char>, reply_to: Seq<char>) -> bool {
    reply_to.len() > 0 && !text::contains_seq(from, reply_to)
}

/// The lower-cased Authentication-Results header reports `method=pass`.
pub open spec fn auth_passes(auth: Seq<char>, verdict: Seq<char>) -> bool {
    text::contains_seq(text::unicode_lowercase(auth), verdict)
}

/// What `analyze` concludes from a message's headers.
pub open spec fn analyze_spec(hs: Seq<(String, String)>) -> HeaderView {
    let auth = mime::header_or_empty(hs, "Authentication-Results"@);
    let from = mime::header_or_empty(hs, "From"@);
    let reply_to = mime::header_or_empty(hs, "Reply-To"@);
    HeaderView {
        subject: mime::header_or_empty(hs, "Subject"@),
        from,
        reply_to,
        to: mime::header_or_empty(hs, "To"@),
        spoofed: spoofed_spec(from, reply_to),
        spf_pass: auth_passes(auth, "spf=pass"@),
        dkim_pass: auth_passes(auth, "dkim=pass"@),
        dmarc_pass: auth_passes(auth, "dmarc=pass"@),
    }
}

/// Subject, From, Reply-To and To as they arrived, whether the reply is
/// redirected, and whether SPF, DKIM and DMARC passed. A header that is
/// missing reads as empty, and an absent Authentication-Results is no pass.
pub fn analyze(mail: &mime::MailPart) -> (r: HeaderData)
    ensures
        r@ == analyze_spec(mail.headers@),
{
    let subject = mime::header_value(&mail.headers, "Subject");
    let from = mime::header_value(&mail.headers, "From");
    let reply_to = mime::header_value(&mail.headers, "Reply-To");
    let to = mime::header_value(&mail.headers, "To");
    let fc = text::chars_of(from.as_str());
    let rc = text::chars_of(reply_to.as_str());
    let spoofed = rc.len() > 0 && !text::contains(&fc, &rc);
    let auth = mime::header_value(&mail.headers, "Authentication-Results");
    let al = text::lower_chars(auth.as_str());
    let spf_pass = text::contains_str(&al, "spf=pass");
    let dkim_pass = text::contains_str(&al, "dkim=pass");
    let dmarc_pass = text::contains_str(&al, "dmarc=pass");
    HeaderData { subject, from, reply_to, to, spoofed, spf_pass, dkim_pass, dmarc_pass }
}

} // verus!
