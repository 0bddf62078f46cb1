//! Decoding server JSON payloads, through serde_json.
//!
//! What a payload means is a function of its text alone, so the two queries
//! below carry names: `utts_of` for the utterance-list shape and
//! `result_text_of` for the consolidated text.  `payload_of` combines them
//! into the decoded shape, and `decode_payload` returns exactly that.

use vstd::prelude::*;
use crate::transcript::{AsrPayload, PayloadView, Utterance, UtteranceView};

verus! {

/// What the `result.utterances` array of a payload text decodes to: `None`
/// when the text is not JSON, has no `result.utterances` member, or that
/// member is not an array; otherwise one entry per element, with `definite`
/// falling back to false, `end_time` to -1 and `text` to empty where a
/// field is missing or of another type.  A function of the text alone.
pub uninterp spec fn utts_of(doc: Seq<char>) -> Option<Seq<UtteranceView>>;

/// What `result.text` decodes to when it is a string, `None` otherwise.
/// A function of the text alone.
pub uninterp spec fn result_text_of(doc: Seq<char>) -> Option<Seq<char>>;

/// The decoded shape of one server payload text: the utterance list when
/// `result.utterances` is an array, else the consolidated `result.text`
/// when that is a string, else nothing.
pub open spec fn payload_of(doc: Seq<char>) -> PayloadView {
    match utts_of(doc) {
        Some(us) => PayloadView::Utterances(us),
        None => match result_text_of(doc) {
            Some(t) => PayloadView::FullText(t),
            None => PayloadView::Nothing,
        },
    }
}

/// Relies on serde_json (`from_str`, `Value::get`, `as_array`, `as_bool`,
/// `as_i64`, `as_str`): reads `result.utterances` with the stated field
/// fallbacks.  Input that is not JSON, or lacks the array, returns `None`;
/// nothing panics.
#[verifier::external_body]
fn json_utterances(doc: &str) -> (r: Option<Vec<Utterance>>)
    ensures
        match r {
            Some(us) => utts_of(doc@) == Some(us.deep_view()),
            None => utts_of(doc@) is None,
        },
{
    let v: serde_json::Value = serde_json::from_str(doc).ok()?;
    let arr = v.get("result")?.get("utterances")?.as_array()?;
    Some(arr.iter().map(|u| Utterance {
        definite: u.get("definite").and_then(|d| d.as_bool()).unwrap_or(false),
        end_time: u.get("end_time").and_then(|e| e.as_i64()).unwrap_or(-1),
        text: u.get("text").and_then(|t| t.as_str()).unwrap_or("").to_string(),
    }).collect())
}

/// Relies on serde_json (`from_str`, `Value::get`, `as_str`): reads
/// `result.text` when it is a string; nothing panics.
#[verifier::external_body]
fn json_result_text(doc: &str) -> (r: Option<String>)
    ensures
        match r {
            Some(t) => result_text_of(doc@) == Some(t@),
            None => result_text_of(doc@) is None,
        },
{
    let v: serde_json::Value = serde_json::from_str(doc).ok()?;
    Some(v.get("result")?.get("text")?.as_str()?.to_string())
}

/// Decode one server response into the aggregator's shape: the
/// `result.utterances` array if present, else the consolidated
/// `result.text`, else nothing.
pub fn decode_payload(json_text: &str) -> (p: AsrPayload)
    ensures
        p@ == payload_of(json_text@),
{
    match json_utterances(json_text) {
        Some(us) => AsrPayload::Utterances(us),
        None => match json_result_text(json_text) {
            Some(t) => AsrPayload::FullText(t),
            None => AsrPayload::Nothing,
        },
    }
}

} // verus!
