use anytalk::transcript::{AggState, AsrPayload, Utterance};

fn utt(definite: bool, end_time: i64, text: &str) -> Utterance {
    Utterance { definite, end_time, text: text.to_string() }
}

#[test]
fn utterance_list_emits_finals_then_partial() {
    let mut agg = AggState::new();
    let payload = AsrPayload::Utterances(vec![
        utt(true, 1500, " hello "),
        utt(false, 0, "wor"),
    ]);
    let (partial, finals) = agg.process_payload(&payload, "bidi");
    assert_eq!(finals, vec!["hello".to_string()]);
    assert_eq!(partial, Some("wor".to_string()));
    assert_eq!(agg.last_committed_end_time, 1500);
}

#[test]
fn committed_end_time_is_monotone() {
    let mut agg = AggState::new();
    let first = AsrPayload::Utterances(vec![utt(true, 2000, "a"), utt(true, 3000, "b")]);
    let (_, finals) = agg.process_payload(&first, "bidi");
    assert_eq!(finals, vec!["a".to_string(), "b".to_string()]);
    assert_eq!(agg.last_committed_end_time, 3000);

    // An older payload cannot move the committed time backwards.
    let stale = AsrPayload::Utterances(vec![utt(true, 1000, "old")]);
    let (_, finals) = agg.process_payload(&stale, "bidi");
    assert!(finals.is_empty());
    assert_eq!(agg.last_committed_end_time, 3000);
}

#[test]
fn stale_utterance_is_not_reemitted() {
    let mut agg = AggState::new();
    let p1 = AsrPayload::Utterances(vec![utt(true, 1500, "hello")]);
    let (_, finals) = agg.process_payload(&p1, "bidi");
    assert_eq!(finals, vec!["hello".to_string()]);

    // The server repeats the utterance with the same end time: suppressed.
    let p2 = AsrPayload::Utterances(vec![utt(true, 1500, "hello"), utt(true, 2500, "again")]);
    let (_, finals) = agg.process_payload(&p2, "bidi");
    assert_eq!(finals, vec!["again".to_string()]);
}

#[test]
fn empty_trimmed_final_is_skipped_and_does_not_commit() {
    let mut agg = AggState::new();
    let payload = AsrPayload::Utterances(vec![utt(true, 900, "   "), utt(true, 400, "x")]);
    let (_, finals) = agg.process_payload(&payload, "bidi");
    // The all-whitespace utterance neither emits nor commits, so the 400 ms
    // one is still fresh.
    assert_eq!(finals, vec!["x".to_string()]);
    assert_eq!(agg.last_committed_end_time, 400);
}

#[test]
fn partial_takes_last_nonempty_tentative() {
    let mut agg = AggState::new();
    let payload = AsrPayload::Utterances(vec![
        utt(false, 0, "first"),
        utt(false, 0, "second"),
        utt(false, 0, "   "),
    ]);
    let (partial, finals) = agg.process_payload(&payload, "bidi");
    assert!(finals.is_empty());
    assert_eq!(partial, Some("second".to_string()));
}

#[test]
fn bidi_async_duplicates_full_text() {
    let mut agg = AggState::new();
    let payload = AsrPayload::FullText(" hello world ".to_string());
    let (partial, finals) = agg.process_payload(&payload, "bidi_async");
    assert_eq!(partial, Some("hello world".to_string()));
    assert_eq!(finals, vec!["hello world".to_string()]);
}

#[test]
fn prefix_growth_emits_only_suffix() {
    let mut agg = AggState::new();
    let (p1, f1) = agg.process_payload(&AsrPayload::FullText("he".to_string()), "bidi");
    let (p2, f2) = agg.process_payload(&AsrPayload::FullText("hello".to_string()), "bidi");
    let (p3, f3) = agg.process_payload(&AsrPayload::FullText("hello!".to_string()), "bidi");
    assert_eq!(f1, vec!["he".to_string()]);
    assert_eq!(f2, vec!["llo".to_string()]);
    assert_eq!(f3, vec!["!".to_string()]);
    assert!(p1.is_none() && p2.is_none() && p3.is_none());
}

#[test]
fn repeated_full_text_is_silent() {
    let mut agg = AggState::new();
    let (_, f1) = agg.process_payload(&AsrPayload::FullText("same".to_string()), "bidi");
    let (_, f2) = agg.process_payload(&AsrPayload::FullText("same".to_string()), "bidi");
    assert_eq!(f1, vec!["same".to_string()]);
    assert!(f2.is_empty());
}

#[test]
fn changed_full_text_replaces() {
    let mut agg = AggState::new();
    let (_, f1) = agg.process_payload(&AsrPayload::FullText("abc".to_string()), "bidi");
    let (_, f2) = agg.process_payload(&AsrPayload::FullText("xyz".to_string()), "bidi");
    assert_eq!(f1, vec!["abc".to_string()]);
    assert_eq!(f2, vec!["xyz".to_string()]);
}

#[test]
fn empty_full_text_emits_nothing() {
    let mut agg = AggState::new();
    let (partial, finals) = agg.process_payload(&AsrPayload::FullText("   ".to_string()), "bidi");
    assert!(partial.is_none());
    assert!(finals.is_empty());
}

#[test]
fn nothing_payload_is_a_no_op() {
    let mut agg = AggState::new();
    let (partial, finals) = agg.process_payload(&AsrPayload::Nothing, "bidi");
    assert!(partial.is_none());
    assert!(finals.is_empty());
    assert_eq!(agg.last_committed_end_time, -1);
}
