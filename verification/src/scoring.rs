//! How the points add up, and what the analyst is told they were for.

use vstd::prelude::*;
use crate::headers::{HeaderData, HeaderView};

verus! {

/// What the parser noticed on the way through the message — everything the
/// score is made of, apart from the headers.
pub struct Signals {
    pub bad_attachments: usize,
    pub has_double_ext: bool,
    pub psycho_words: usize,
    pub html_anomalies: usize,
    pub has_crypto: bool,
    pub has_archive: bool,
    pub is_encrypted_zip: bool,
    pub has_pwd_keyword: bool,
    pub has_macro: bool,
    /// Links whose query or fragment carries another destination.
    pub cloaked_links: usize,
    /// A link carries the recipient's own address in its fragment.
    pub victim_in_link: bool,
    /// The message asks for credentials and has a link to type them into.
    pub credential_ask: bool,
    /// The message names the recipient's mail domain but comes from another
    /// organisation.
    pub impersonates_recipient: bool,
    /// From or Reply-To hides a domain before the `@`.
    pub domain_in_local_part: bool,
}

impl Default for Signals {
    /// Nothing noticed.
    fn default() -> (r: Self)
        ensures
            r == (Signals {
                bad_attachments: 0,
                has_double_ext: false,
                psycho_words: 0,
                html_anomalies: 0,
                has_crypto: false,
                has_archive: false,
                is_encrypted_zip: false,
                has_pwd_keyword: false,
                has_macro: false,
                cloaked_links: 0,
                victim_in_link: false,
                credential_ask: false,
                impersonates_recipient: false,
                domain_in_local_part: false,
            }),
    {
        Signals {
            bad_attachments: 0,
            has_double_ext: false,
            psycho_words: 0,
            html_anomalies: 0,
            has_crypto: false,
            has_archive: false,
            is_encrypted_zip: false,
            has_pwd_keyword: false,
            has_macro: false,
            cloaked_links: 0,
            victim_in_link: false,
            credential_ask: false,
            impersonates_recipient: false,
            domain_in_local_part: false,
        }
    }
}

/// One reason the score went up: a catalog key and the points it added.
pub struct Trigger {
    pub key: String,
    pub pts: u32,
}

/// The score out of 100 and its reasons, in the order they were weighed.
pub struct Scoring {
    pub score: u32,
    pub triggers: Vec<Trigger>,
}

/// A count as the score reads it: truncated to 32 bits.
pub open spec fn as32(n: usize) -> int {
    n as int % 0x1_0000_0000
}

/// Every condition weighed, in order: whether it holds, its catalog key, and
/// its points: failed SPF (15), failed DKIM (15), a spoofed reply (30), 40 per
/// bad attachment, 2 per pressure word, 20 per HTML anomaly, a crypto wallet
/// (50), an encrypted zip (20), an archive with its password in the message
/// (100), a double extension (100), a macro (100), 40 per cloaked link, the
/// recipient's address in a link (50), a request for credentials with a link
/// to give them to (30), impersonation of the recipient's domain (40), and a
/// domain hidden before the `@` (40).
pub open spec fn weights(h: HeaderView, s: Signals) -> Seq<(bool, Seq<char>, int)> {
    seq![
        (!h.spf_pass, "reasons.spf"@, 15),
        (!h.dkim_pass, "reasons.dkim"@, 15),
        (h.spoofed, "reasons.spoof"@, 30),
        (s.bad_attachments > 0, "reasons.atts"@, as32(s.bad_attachments) * 40),
        (s.psycho_words > 0, "reasons.psycho"@, as32(s.psycho_words) * 2),
        (s.html_anomalies > 0, "reasons.html"@, as32(s.html_anomalies) * 20),
        (s.has_crypto, "reasons.crypto"@, 50),
        (s.is_encrypted_zip, "reasons.enc_zip"@, 20),
        ((s.is_encrypted_zip || s.has_archive) && s.has_pwd_keyword, "reasons.pwd_arc"@, 100),
        (s.has_double_ext, "reasons.double_ext"@, 100),
        (s.has_macro, "reasons.macro"@, 100),
        (s.cloaked_links > 0, "reasons.cloaked"@, as32(s.cloaked_links) * 40),
        (s.victim_in_link, "reasons.victim_link"@, 50),
        (s.credential_ask, "reasons.credential"@, 30),
        (s.impersonates_recipient, "reasons.impersonation"@, 40),
        (s.domain_in_local_part, "reasons.local_part_domain"@, 40),
    ]
}

/// The conditions that hold, as `(key, pts)`, in order.
pub open spec fn kept(ws: Seq<(bool, Seq<char>, int)>) -> Seq<(Seq<char>, int)>
    decreases ws.len(),
{
    if ws.len() == 0 {
        Seq::empty()
    } else if ws.last().0 {
        kept(ws.drop_last()).push((ws.last().1, ws.last().2))
    } else {
        kept(ws.drop_last())
    }
}

/// The reasons the score names, in the order they are weighed.
pub open spec fn triggers_spec(h: HeaderView, s: Signals) -> Seq<(Seq<char>, int)> {
    kept(weights(h, s))
}

/// The sum of the points of a list of reasons.
pub open spec fn total(t: Seq<(Seq<char>, int)>) -> int
    decreases t.len(),
{
    if t.len() == 0 {
        0
    } else {
        total(t.drop_last()) + t.last().1
    }
}

/// The points before the cap.
pub open spec fn raw_score(h: HeaderView, s: Signals) -> int {
    total(triggers_spec(h, s))
}

/// The score: the points, capped at 100.
pub open spec fn score_spec(h: HeaderView, s: Signals) -> int {
    if raw_score(h, s) > 100 {
        100
    } else {
        raw_score(h, s)
    }
}

/// A list of triggers as `(key, pts)` pairs.
pub open spec fn triggers_view(t: Seq<Trigger>) -> Seq<(Seq<char>, int)> {
    t.map_values(|x: Trigger| (x.key@, x.pts as int))
}

/// Points are never negative.
pub open spec fn nonnegative(ws: Seq<(bool, Seq<char>, int)>) -> bool {
    forall|k: int| 0 <= k < ws.len() ==> (#[trigger] ws[k]).2 >= 0
}

/// The points kept from a prefix never exceed those kept from the whole.
proof fn lemma_kept_prefix(ws: Seq<(bool, Seq<char>, int)>, k: int)
    requires
        0 <= k <= ws.len(),
        nonnegative(ws),
    ensures
        0 <= total(kept(ws.take(k))) <= total(kept(ws)),
    decreases ws.len(),
{
    if k < ws.len() {
        let d = ws.drop_last();
        assert(d.take(k) =~= ws.take(k));
        assert(nonnegative(d));
        lemma_kept_prefix(d, k);
        if ws.last().0 {
            assert(kept(ws).drop_last() =~= kept(d));
        }
    } else {
        assert(ws.take(k) =~= ws);
        lemma_kept_nonneg(ws);
    }
}

/// The points kept are never negative when no condition weighs less than nothing.
pub proof fn lemma_kept_nonneg(ws: Seq<(bool, Seq<char>, int)>)
    requires
        nonnegative(ws),
    ensures
        total(kept(ws)) >= 0,
    decreases ws.len(),
{
    if ws.len() > 0 {
        let d = ws.drop_last();
        assert(nonnegative(d));
        lemma_kept_nonneg(d);
        if ws.last().0 {
            assert(kept(ws).drop_last() =~= kept(d));
        }
    }
}

/// A count truncated to 32 bits, as `count as u32` does.
fn truncate32(n: usize) -> (r: u32)
    ensures
        r as int == as32(n),
{
    let w = n as u64;
    (w % 0x1_0000_0000u64) as u32
}

/// The weighed conditions as values: whether each holds, its key, its points.
#[verifier::rlimit(40)]
fn weighed(h: &HeaderData, s: &Signals) -> (r: [(bool, &'static str, u64); 16])
    ensures
        r@.map_values(|w: (bool, &'static str, u64)| (w.0, w.1@, w.2 as int)) == weights(h@, *s),
        forall|k: int| 0 <= k < r.len() ==> (#[trigger] r[k]).2 < 0x100_0000_0000,
{
    let b = truncate32(s.bad_attachments) as u64 * 40;
    let p = truncate32(s.psycho_words) as u64 * 2;
    let a = truncate32(s.html_anomalies) as u64 * 20;
    let c = truncate32(s.cloaked_links) as u64 * 40;
    let r = [
        (!h.spf_pass, "reasons.spf", 15u64),
        (!h.dkim_pass, "reasons.dkim", 15u64),
        (h.spoofed, "reasons.spoof", 30u64),
        (s.bad_attachments > 0, "reasons.atts", b),
        (s.psycho_words > 0, "reasons.psycho", p),
        (s.html_anomalies > 0, "reasons.html", a),
        (s.has_crypto, "reasons.crypto", 50u64),
        (s.is_encrypted_zip, "reasons.enc_zip", 20u64),
        ((s.is_encrypted_zip || s.has_archive) && s.has_pwd_keyword, "reasons.pwd_arc", 100u64),
        (s.has_double_ext, "reasons.double_ext", 100u64),
        (s.has_macro, "reasons.macro", 100u64),
        (s.cloaked_links > 0, "reasons.cloaked", c),
        (s.victim_in_link, "reasons.victim_link", 50u64),
        (s.credential_ask, "reasons.credential", 30u64),
        (s.impersonates_recipient, "reasons.impersonation", 40u64),
        (s.domain_in_local_part, "reasons.local_part_domain", 40u64),
    ];
    assert(r@.map_values(|w: (bool, &'static str, u64)| (w.0, w.1@, w.2 as int)) =~= weights(h@, *s));
    r
}

/// The raw points fit in a `u32`.
pub fn points_fit(h: &HeaderData, s: &Signals) -> (r: bool)
    ensures
        r == (raw_score(h@, *s) <= u32::MAX),
{
    let ws = weighed(h, s);
    let ghost wv = ws@.map_values(|w: (bool, &'static str, u64)| (w.0, w.1@, w.2 as int));
    let mut sum: u64 = 0;
    let mut k: usize = 0;
    while k < ws.len()
        invariant
            k <= ws.len(),
            ws.len() == 16,
            wv == ws@.map_values(|w: (bool, &'static str, u64)| (w.0, w.1@, w.2 as int)),
            forall|j: int| 0 <= j < ws.len() ==> (#[trigger] ws[j]).2 < 0x100_0000_0000,
            sum == total(kept(wv.take(k as int))),
            sum <= k * 0x100_0000_0000,
        decreases ws.len() - k,
    {
        assert(wv.take(k + 1).drop_last() =~= wv.take(k as int));
        assert(wv.take(k + 1).last() == wv[k as int]);
        let (cond, _, pts) = ws[k];
        if cond {
            let ghost before = kept(wv.take(k as int));
            assert(kept(wv.take(k + 1)).drop_last() =~= before);
            sum = sum + pts;
        }
        k += 1;
    }
    assert(wv.take(16) =~= wv);
    sum <= 0xffff_ffffu64
}

/// The score out of 100 and the reasons for it.
///
/// The score is a percentage, not a tally: the points are summed and capped at
/// 100. The reasons are listed in the order they are weighed, each with the
/// points it added.
pub fn calculate(headers: &HeaderData, found: &Signals) -> (r: Scoring)
    requires
        raw_score(headers@, *found) <= u32::MAX,
    ensures
        triggers_view(r.triggers@) == triggers_spec(headers@, *found),
        r.score == score_spec(headers@, *found),
{
    let ws = weighed(headers, found);
    let ghost wv = ws@.map_values(|w: (bool, &'static str, u64)| (w.0, w.1@, w.2 as int));
    assert(nonnegative(wv));
    let mut score: u32 = 0;
    let mut t: Vec<Trigger> = Vec::new();
    let mut k: usize = 0;
    assert(triggers_view(t@) =~= kept(wv.take(0)));
    while k < ws.len()
        invariant
            k <= ws.len(),
            wv == ws@.map_values(|w: (bool, &'static str, u64)| (w.0, w.1@, w.2 as int)),
            wv == weights(headers@, *found),
            nonnegative(wv),
            raw_score(headers@, *found) <= u32::MAX,
            triggers_view(t@) == kept(wv.take(k as int)),
            score == total(kept(wv.take(k as int))),
        decreases ws.len() - k,
    {
        assert(wv.take(k + 1).drop_last() =~= wv.take(k as int));
        assert(wv.take(k + 1).last() == wv[k as int]);
        proof {
            lemma_kept_prefix(wv, k + 1);
        }
        let (cond, key, pts) = ws[k];
        if cond {
            let ghost before = t@;
            let p = pts as u32;
            t.push(Trigger { key: crate::text::string_of(&crate::text::chars_of(key)), pts: p });
            assert(kept(wv.take(k + 1)).drop_last() =~= kept(wv.take(k as int)));
            assert(triggers_view(t@) =~= triggers_view(before).push((key@, p as int)));
            score = score + p;
        }
        k += 1;
    }
    assert(wv.take(ws.len() as int) =~= wv);
    let final_score = if score > 100 {
        100
    } else {
        score
    };
    Scoring { score: final_score, triggers: t }
}

/// How the score reads at a glance.
pub enum RiskLevel {
    Low,
    Medium,
    High,
}

/// Up to 30 is low risk, up to 60 medium, anything above high.
pub fn risk_level(score: u32) -> (r: RiskLevel)
    ensures
        r is Low <==> score <= 30,
        r is Medium <==> 30 < score <= 60,
        r is High <==> score > 60,
{
    if score <= 30 {
        RiskLevel::Low
    } else if score <= 60 {
        RiskLevel::Medium
    } else {
        RiskLevel::High
    }
}

/// A reason worth 50 points or more is shown as an error, anything less as a warning.
pub fn is_severe(pts: u32) -> (r: bool)
    ensures
        r == (pts >= 50),
{
    pts >= 50
}

} // verus!
