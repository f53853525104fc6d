//! A parsed message as plain values, read through the `mailparse` crate.
//!
//! `mailparse` decodes the MIME structure, the transfer encodings and the
//! charsets; everything the analysis reads of the result is copied into a
//! `MailPart` tree, and the analysis works on that.

use vstd::prelude::*;
use crate::text;

verus! {

/// One part of a message (the message itself being the outermost part).
pub struct MailPart {
    /// Every header, name and value, in order.
    pub headers: Vec<(String, String)>,
    /// The Content-Type's MIME type, e.g. `text/plain` or `multipart/mixed`.
    pub mimetype: String,
    /// The Content-Type's parameters (`name`, `boundary`, ...).
    pub ctype_params: Vec<(String, String)>,
    /// The Content-Disposition is `attachment`.
    pub disposition_is_attachment: bool,
    /// The Content-Disposition's parameters (`filename`, ...).
    pub disposition_params: Vec<(String, String)>,
    /// The body with its transfer encoding undone; `None` when that failed.
    pub body_raw: Option<Vec<u8>>,
    /// The body as text in its charset; `None` when that failed.
    pub body_text: Option<String>,
    /// The parts of a multipart, in order.
    pub subparts: Vec<MailPart>,
}

#[verifier::external_type_specification]
#[verifier::external_body]
pub struct ExParsedMail<'a>(mailparse::ParsedMail<'a>);

/// What `mailparse::parse_mail` makes of the raw message, as a `MailPart`
/// tree; `None` when it refuses the message.
pub uninterp spec fn parsed_mail(raw: Seq<u8>) -> Option<MailPart>;

/// The part tree of a parsed message, copied field by field.
///
/// Trusted: reads `ParsedMail`'s headers (`MailHeader::get_key`,
/// `get_value`), `ctype`, `get_content_disposition`, `get_body_raw`,
/// `get_body` and `subparts`, converting each to plain values.
#[verifier::external_body]
fn part_of(m: &mailparse::ParsedMail) -> MailPart {
    let disposition = m.get_content_disposition();
    MailPart {
        headers: m.headers.iter().map(|h| (h.get_key(), h.get_value())).collect(),
        mimetype: m.ctype.mimetype.clone(),
        ctype_params: m.ctype.params.clone().into_iter().collect(),
        disposition_is_attachment: disposition.disposition == mailparse::DispositionType::Attachment,
        disposition_params: disposition.params.into_iter().collect(),
        body_raw: m.get_body_raw().ok(),
        body_text: m.get_body().ok(),
        subparts: m.subparts.iter().map(part_of).collect(),
    }
}

/// The raw message parsed into its part tree, or the parser's own description
/// of why it refused.
///
/// Trusted: calls `mailparse::parse_mail`; the result is named `parsed_mail`.
/// The error text is the error's `Display` and is not stated.
#[verifier::external_body]
pub(crate) fn parse_mail(raw: &[u8]) -> (r: Result<MailPart, String>)
    ensures
        r is Err <==> parsed_mail(raw@) is None,
        r matches Ok(p) ==> parsed_mail(raw@) == Some(p),
{
    match mailparse::parse_mail(raw) {
        Ok(m) => Ok(part_of(&m)),
        Err(e) => Err(e.to_string()),
    }
}

/// The value of the first header whose name equals `name` ignoring ASCII
/// case, as `MailHeaderMap::get_first_value` finds it.
pub open spec fn first_header(hs: Seq<(String, String)>, name: Seq<char>) -> Option<Seq<char>>
    decreases hs.len(),
{
    if hs.len() == 0 {
        None
    } else if text::ascii_lower(hs[0].0@) == text::ascii_lower(name) {
        Some(hs[0].1@)
    } else {
        first_header(hs.drop_first(), name)
    }
}

/// The first header named `name`, or "" when there is none.
pub open spec fn header_or_empty(hs: Seq<(String, String)>, name: Seq<char>) -> Seq<char> {
    match first_header(hs, name) {
        Some(v) => v,
        None => Seq::empty(),
    }
}

/// The value of the first header named `name` (ignoring ASCII case), or "".
pub fn header_value(hs: &Vec<(String, String)>, name: &str) -> (r: String)
    ensures
        r@ == header_or_empty(hs@, name@),
{
    let n = text::chars_of(name);
    let nl = text::to_ascii_lower(&n);
    let mut k: usize = 0;
    assert(hs@.skip(0) =~= hs@);
    while k < hs.len()
        invariant
            k <= hs.len(),
            nl@ == text::ascii_lower(name@),
            first_header(hs@, name@) == first_header(hs@.skip(k as int), name@),
        decreases hs.len() - k,
    {
        assert(hs@.skip(k as int)[0] == hs@[k as int]);
        assert(hs@.skip(k as int).drop_first() =~= hs@.skip(k + 1));
        let key = text::chars_of(hs[k].0.as_str());
        let kl = text::to_ascii_lower(&key);
        if text::eq_chars(&kl, &nl) {
            let v = &hs[k].1;
            return text::string_of(&text::chars_of(v.as_str()));
        }
        k += 1;
    }
    assert(hs@.skip(k as int) =~= Seq::<(String, String)>::empty());
    String::new()
}

/// The value of the first parameter named exactly `name`.
pub open spec fn param(ps: Seq<(String, String)>, name: Seq<char>) -> Option<Seq<char>>
    decreases ps.len(),
{
    if ps.len() == 0 {
        None
    } else if ps[0].0@ == name {
        Some(ps[0].1@)
    } else {
        param(ps.drop_first(), name)
    }
}

/// The value of the parameter named `name`, if there is one.
pub fn param_value(ps: &Vec<(String, String)>, name: &str) -> (r: Option<String>)
    ensures
        r is None <==> param(ps@, name@) is None,
        r matches Some(v) ==> param(ps@, name@) == Some(v@),
{
    let n = text::chars_of(name);
    let mut k: usize = 0;
    assert(ps@.skip(0) =~= ps@);
    while k < ps.len()
        invariant
            k <= ps.len(),
            n@ == name@,
            param(ps@, name@) == param(ps@.skip(k as int), name@),
        decreases ps.len() - k,
    {
        assert(ps@.skip(k as int)[0] == ps@[k as int]);
        assert(ps@.skip(k as int).drop_first() =~= ps@.skip(k + 1));
        let key = text::chars_of(ps[k].0.as_str());
        if text::eq_chars(&key, &n) {
            let v = &ps[k].1;
            return Some(text::string_of(&text::chars_of(v.as_str())));
        }
        k += 1;
    }
    assert(ps@.skip(k as int) =~= Seq::<(String, String)>::empty());
    None
}

} // verus!
