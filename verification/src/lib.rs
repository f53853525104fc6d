//! Static triage of `.eml` messages: header authentication, indicators of
//! compromise, credential-phishing links, attachment checks and a risk score.

pub mod text;
pub mod matching;
pub mod encoding;
pub mod digest;
pub mod links;
pub mod order;
pub mod ioc;
pub mod mime;
pub mod headers;
pub mod scoring;
pub mod archive;
pub mod parser;
pub mod names;
pub mod present;
pub mod laws;
pub mod points;
pub mod verdicts;
