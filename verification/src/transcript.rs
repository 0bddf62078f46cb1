//! Incremental transcript aggregator.
//!
//! A session's server responses carry either a list of utterances (each
//! definite or tentative) or a single consolidated text.  The aggregator
//! turns that stream into partial and final text events without re-emitting
//! utterances that were already committed: the committed end time only grows,
//! and in the consolidated-text modes only the new suffix of a growing text
//! is emitted again.

use vstd::prelude::*;
use crate::text::{str_eq, strip_prefix, trim, trim_of};

verus! {

/// One utterance of an utterance-list payload.
pub struct Utterance {
    pub definite: bool,
    pub end_time: i64,
    pub text: String,
}

/// Mathematical image of an utterance.
pub struct UtteranceView {
    pub definite: bool,
    pub end_time: i64,
    pub text: Seq<char>,
}

impl View for Utterance {
    type V = UtteranceView;

    open spec fn view(&self) -> UtteranceView {
        UtteranceView { definite: self.definite, end_time: self.end_time, text: self.text@ }
    }
}

impl DeepView for Utterance {
    type V = UtteranceView;

    open spec fn deep_view(&self) -> UtteranceView {
        self.view()
    }
}

/// The decoded `result` object of one server response.
pub enum AsrPayload {
    /// `result.utterances` was an array.
    Utterances(Vec<Utterance>),
    /// `result.text` was a string.
    FullText(String),
    /// Unparseable JSON, or no usable `result` field: emit nothing.
    Nothing,
}

/// Mathematical image of a payload.
pub enum PayloadView {
    Utterances(Seq<UtteranceView>),
    FullText(Seq<char>),
    Nothing,
}

impl View for AsrPayload {
    type V = PayloadView;

    open spec fn view(&self) -> PayloadView {
        match self {
            AsrPayload::Utterances(us) => PayloadView::Utterances(us.deep_view()),
            AsrPayload::FullText(s) => PayloadView::FullText(s@),
            AsrPayload::Nothing => PayloadView::Nothing,
        }
    }
}

/// Aggregator state for one session.
pub struct AggState {
    pub last_committed_end_time: i64,
    pub last_full_text: String,
}

pub struct AggStateView {
    pub last_committed_end_time: i64,
    pub last_full_text: Seq<char>,
}

impl View for AggState {
    type V = AggStateView;

    open spec fn view(&self) -> AggStateView {
        AggStateView {
            last_committed_end_time: self.last_committed_end_time,
            last_full_text: self.last_full_text@,
        }
    }
}

/// What one payload makes the aggregator emit, and the state it leaves.
pub struct AggOutcome {
    pub partial: Option<Seq<char>>,
    pub finals: Seq<Seq<char>>,
    pub state: AggStateView,
}

/// The finals emitted for an utterance list, scanned in order with running
/// committed end time `last`: a definite utterance is emitted exactly when
/// its end time is beyond `last` and its trimmed text is non-empty, and then
/// moves `last` forward.
pub open spec fn utt_finals(us: Seq<UtteranceView>, last: i64) -> Seq<Seq<char>>
    decreases us.len(),
{
    if us.len() == 0 {
        Seq::empty()
    } else {
        let u = us[0];
        if u.definite && u.end_time > last && trim_of(u.text).len() > 0 {
            seq![trim_of(u.text)] + utt_finals(us.drop_first(), u.end_time)
        } else {
            utt_finals(us.drop_first(), last)
        }
    }
}

/// The committed end time after an utterance list has been scanned.
pub open spec fn utt_last_after(us: Seq<UtteranceView>, last: i64) -> i64
    decreases us.len(),
{
    if us.len() == 0 {
        last
    } else {
        let u = us[0];
        if u.definite && u.end_time > last && trim_of(u.text).len() > 0 {
            utt_last_after(us.drop_first(), u.end_time)
        } else {
            utt_last_after(us.drop_first(), last)
        }
    }
}

/// The partial emitted for an utterance list: the trimmed text of the last
/// tentative utterance whose trimmed text is non-empty, if any.
pub open spec fn utt_partial(us: Seq<UtteranceView>) -> Option<Seq<char>>
    decreases us.len(),
{
    if us.len() == 0 {
        None
    } else {
        let u = us.last();
        if !u.definite && trim_of(u.text).len() > 0 {
            Some(trim_of(u.text))
        } else {
            utt_partial(us.drop_last())
        }
    }
}

/// Everything one payload does to the aggregator.
pub open spec fn process_spec(st: AggStateView, p: PayloadView, bidi_async: bool) -> AggOutcome {
    match p {
        PayloadView::Utterances(us) => AggOutcome {
            partial: utt_partial(us),
            finals: utt_finals(us, st.last_committed_end_time),
            state: AggStateView {
                last_committed_end_time: utt_last_after(us, st.last_committed_end_time),
                last_full_text: st.last_full_text,
            },
        },
        PayloadView::FullText(raw) => {
            let full = trim_of(raw);
            let moved = AggStateView {
                last_committed_end_time: st.last_committed_end_time,
                last_full_text: full,
            };
            if full.len() == 0 {
                AggOutcome { partial: None, finals: Seq::empty(), state: st }
            } else if bidi_async {
                AggOutcome { partial: Some(full), finals: seq![full], state: moved }
            } else if st.last_full_text.len() > 0 && full.len() >= st.last_full_text.len()
                && full.take(st.last_full_text.len() as int) == st.last_full_text {
                let suffix = trim_of(full.skip(st.last_full_text.len() as int));
                AggOutcome {
                    partial: None,
                    finals: if suffix.len() > 0 { seq![suffix] } else { Seq::empty() },
                    state: moved,
                }
            } else if full != st.last_full_text {
                AggOutcome { partial: None, finals: seq![full], state: moved }
            } else {
                AggOutcome { partial: None, finals: Seq::empty(), state: moved }
            }
        },
        PayloadView::Nothing => AggOutcome { partial: None, finals: Seq::empty(), state: st },
    }
}

/// The state left after a whole sequence of payloads.
pub open spec fn process_many(st: AggStateView, ps: Seq<PayloadView>, bidi_async: bool) -> AggStateView
    decreases ps.len(),
{
    if ps.len() == 0 {
        st
    } else {
        process_many(process_spec(st, ps[0], bidi_async).state, ps.drop_first(), bidi_async)
    }
}

/// Scanning an utterance list never moves the committed end time backwards.
pub proof fn lemma_utt_last_monotone(us: Seq<UtteranceView>, last: i64)
    ensures
        utt_last_after(us, last) >= last,
    decreases us.len(),
{
    if us.len() > 0 {
        let u = us[0];
        if u.definite && u.end_time > last && trim_of(u.text).len() > 0 {
            lemma_utt_last_monotone(us.drop_first(), u.end_time);
        } else {
            lemma_utt_last_monotone(us.drop_first(), last);
        }
    }
}

/// One payload never moves the committed end time backwards.
pub proof fn lemma_process_step_monotone(st: AggStateView, p: PayloadView, bidi_async: bool)
    ensures
        process_spec(st, p, bidi_async).state.last_committed_end_time
            >= st.last_committed_end_time,
{
    match p {
        PayloadView::Utterances(us) => lemma_utt_last_monotone(us, st.last_committed_end_time),
        _ => {},
    }
}

/// The committed end time is non-decreasing across any sequence of payloads
/// in one session.
pub proof fn lemma_last_committed_monotone(st: AggStateView, ps: Seq<PayloadView>, bidi_async: bool)
    ensures
        process_many(st, ps, bidi_async).last_committed_end_time >= st.last_committed_end_time,
    decreases ps.len(),
{
    if ps.len() > 0 {
        lemma_process_step_monotone(st, ps[0], bidi_async);
        lemma_last_committed_monotone(
            process_spec(st, ps[0], bidi_async).state,
            ps.drop_first(),
            bidi_async,
        );
    }
}

/// The index, in the utterance list, that each emitted final came from,
/// following the same scan as `utt_finals`.
pub open spec fn utt_final_sources(us: Seq<UtteranceView>, last: i64) -> Seq<int>
    decreases us.len(),
{
    if us.len() == 0 {
        Seq::empty()
    } else {
        let u = us[0];
        if u.definite && u.end_time > last && trim_of(u.text).len() > 0 {
            seq![0int] + utt_final_sources(us.drop_first(), u.end_time).map_values(|j: int| j + 1)
        } else {
            utt_final_sources(us.drop_first(), last).map_values(|j: int| j + 1)
        }
    }
}

/// No stale final: every final emitted for an utterance list is the trimmed
/// text of a definite utterance whose end time lies strictly beyond the
/// committed end time at the moment it is inspected — in particular beyond
/// the committed end time at entry — and the source indices come in order.
pub proof fn lemma_no_stale_final(us: Seq<UtteranceView>, last: i64)
    ensures
        utt_final_sources(us, last).len() == utt_finals(us, last).len(),
        forall|k: int|
            0 <= k < utt_finals(us, last).len() ==> {
                let j = #[trigger] utt_final_sources(us, last)[k];
                &&& 0 <= j < us.len()
                &&& us[j].definite
                &&& us[j].end_time > last
                &&& utt_finals(us, last)[k] == trim_of(us[j].text)
            },
    decreases us.len(),
{
    if us.len() > 0 {
        let u = us[0];
        let rest = us.drop_first();
        if u.definite && u.end_time > last && trim_of(u.text).len() > 0 {
            lemma_no_stale_final(rest, u.end_time);
            let srcs = utt_final_sources(us, last);
            let fins = utt_finals(us, last);
            let rsrcs = utt_final_sources(rest, u.end_time);
            let rfins = utt_finals(rest, u.end_time);
            assert forall|k: int| 0 <= k < fins.len() implies {
                let j = #[trigger] srcs[k];
                &&& 0 <= j < us.len()
                &&& us[j].definite
                &&& us[j].end_time > last
                &&& fins[k] == trim_of(us[j].text)
            } by {
                if k > 0 {
                    assert(srcs[k] == rsrcs.map_values(|j: int| j + 1)[k - 1]);
                    assert(srcs[k] == rsrcs[k - 1] + 1);
                    assert(rfins[k - 1] == fins[k]);
                    assert(rest[rsrcs[k - 1]] == us[rsrcs[k - 1] + 1]);
                }
            }
        } else {
            lemma_no_stale_final(rest, last);
            let srcs = utt_final_sources(us, last);
            let fins = utt_finals(us, last);
            let rsrcs = utt_final_sources(rest, last);
            let rfins = utt_finals(rest, last);
            assert forall|k: int| 0 <= k < fins.len() implies {
                let j = #[trigger] srcs[k];
                &&& 0 <= j < us.len()
                &&& us[j].definite
                &&& us[j].end_time > last
                &&& fins[k] == trim_of(us[j].text)
            } by {
                assert(srcs[k] == rsrcs.map_values(|j: int| j + 1)[k]);
                assert(srcs[k] == rsrcs[k] + 1);
                assert(rfins[k] == fins[k]);
                assert(rest[rsrcs[k]] == us[rsrcs[k] + 1]);
            }
        }
    }
}

/// In the async consolidated mode, every text with non-empty trimmed form
/// yields exactly one partial and one final, with identical text.
pub proof fn lemma_async_full_text(st: AggStateView, raw: Seq<char>)
    requires
        trim_of(raw).len() > 0,
    ensures
        ({
            let o = process_spec(st, PayloadView::FullText(raw), true);
            &&& o.partial == Some(trim_of(raw))
            &&& o.finals =~= seq![trim_of(raw)]
            &&& o.state.last_full_text == trim_of(raw)
        }),
{
}

/// When a consolidated text extends the previous one, only the trimmed new
/// suffix is emitted as a final, and nothing when that suffix is all
/// whitespace.
pub proof fn lemma_prefix_growth(st: AggStateView, raw: Seq<char>)
    requires
        trim_of(raw).len() > 0,
        st.last_full_text.len() > 0,
        trim_of(raw).len() >= st.last_full_text.len(),
        trim_of(raw).take(st.last_full_text.len() as int) == st.last_full_text,
    ensures
        ({
            let full = trim_of(raw);
            let suffix = trim_of(full.skip(st.last_full_text.len() as int));
            let o = process_spec(st, PayloadView::FullText(raw), false);
            &&& o.partial is None
            &&& o.finals == if suffix.len() > 0 { seq![suffix] } else { Seq::<Seq<char>>::empty() }
            &&& o.state.last_full_text == full
        }),
{
}

impl AggState {
    pub fn new() -> (r: AggState)
        ensures
            r@.last_committed_end_time == -1,
            r@.last_full_text.len() == 0,
    {
        AggState { last_committed_end_time: -1, last_full_text: String::new() }
    }

    /// Feed one decoded payload; returns the partial (if any) and the finals,
    /// in emission order.
    pub fn process_payload(&mut self, payload: &AsrPayload, mode: &str) -> (r: (
        Option<String>,
        Vec<String>,
    ))
        ensures
            ({
                let outcome = process_spec(old(self)@, payload@, mode@ == "bidi_async"@);
                &&& r.0.deep_view() == outcome.partial
                &&& r.1.deep_view() == outcome.finals
                &&& final(self)@ == outcome.state
            }),
            final(self)@.last_committed_end_time >= old(self)@.last_committed_end_time,
    {
        let bidi_async: bool = str_eq(mode, "bidi_async");
        let ghost st0 = self@;
        match payload {
            AsrPayload::Utterances(us) => {
                let ghost uv = us.deep_view();
                let mut finals: Vec<String> = Vec::new();
                proof {
                    assert(uv.skip(0) =~= uv);
                    assert(finals.deep_view() =~= Seq::<Seq<char>>::empty());
                }
                let mut i: usize = 0;
                while i < us.len()
                    invariant
                        i <= us.len(),
                        uv == us.deep_view(),
                        finals.deep_view() + utt_finals(uv.skip(i as int), self.last_committed_end_time)
                            =~= utt_finals(uv, st0.last_committed_end_time),
                        utt_last_after(uv.skip(i as int), self.last_committed_end_time)
                            == utt_last_after(uv, st0.last_committed_end_time),
                        self.last_committed_end_time >= st0.last_committed_end_time,
                        self.last_full_text@ == st0.last_full_text,
                    decreases us.len() - i,
                {
                    proof {
                        assert(uv.skip(i as int)[0] == uv[i as int]);
                        assert(uv.skip(i as int).drop_first() =~= uv.skip(i as int + 1));
                    }
                    let u = &us[i];
                    if u.definite && u.end_time > self.last_committed_end_time {
                        let t: String = trim(u.text.as_str());
                        if !t.as_str().is_empty() {
                            finals.push(t);
                            self.last_committed_end_time = u.end_time;
                        }
                    }
                    i = i + 1;
                }
                proof {
                    assert(uv.skip(us.len() as int) =~= Seq::<UtteranceView>::empty());
                    assert(finals.deep_view() + Seq::<Seq<char>>::empty() =~= finals.deep_view());
                }

                let mut partial: Option<String> = None;
                let mut j: usize = us.len();
                while j > 0 && partial.is_none()
                    invariant
                        j <= us.len(),
                        uv == us.deep_view(),
                        partial is None ==> utt_partial(uv) == utt_partial(uv.take(j as int)),
                        partial matches Some(p) ==> utt_partial(uv) == Some(p@),
                    decreases j,
                {
                    proof {
                        assert(uv.take(j as int).last() == uv[j as int - 1]);
                        assert(uv.take(j as int).drop_last() =~= uv.take(j as int - 1));
                    }
                    let u = &us[j - 1];
                    if !u.definite {
                        let t: String = trim(u.text.as_str());
                        if !t.as_str().is_empty() {
                            partial = Some(t);
                        }
                    }
                    j = j - 1;
                }
                proof {
                    if partial is None {
                        assert(uv.take(0) =~= Seq::<UtteranceView>::empty());
                    }
                }
                (partial, finals)
            },
            AsrPayload::FullText(raw) => {
                let full: String = trim(raw.as_str());
                if full.as_str().is_empty() {
                    return (None, Vec::new());
                }
                let mut finals: Vec<String> = Vec::new();
                let mut partial: Option<String> = None;
                if bidi_async {
                    partial = Some(full.clone());
                    finals.push(full.clone());
                } else if !self.last_full_text.as_str().is_empty() {
                    match strip_prefix(full.as_str(), self.last_full_text.as_str()) {
                        Some(rest) => {
                            let suffix: String = trim(rest.as_str());
                            if !suffix.as_str().is_empty() {
                                finals.push(suffix);
                            }
                        },
                        None => {
                            if !(full == self.last_full_text) {
                                finals.push(full.clone());
                            }
                        },
                    }
                } else {
                    if !(full == self.last_full_text) {
                        finals.push(full.clone());
                    }
                }
                self.last_full_text = full;
                (partial, finals)
            },
            AsrPayload::Nothing => (None, Vec::new()),
        }
    }
}

} // verus!
