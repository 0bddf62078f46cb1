//! One recognition session, as a state machine from events to effects.
//!
//! The surrounding task owns the WebSocket and the audio queue; it feeds
//! every event in and performs the returned effects in order.  The decisions
//! — what frame to send, which transcript events to emit, when to end — are
//! all made here.

use vstd::prelude::*;
use vstd::utf8::encode_utf8;
use crate::ipc::{ServerMsg, ServerMsgView};
use crate::json::{decode_payload, payload_of};
use crate::protocol::{
    build_audio_only_request, build_full_client_request, parse_server_message, parse_frame,
    spec_audio_only_request, spec_full_client_request, ServerFrame, FLAGS_FINAL_RESPONSE,
};
use crate::text::{str_eq, utf8_lossy_of};
use crate::transcript::{AggState, AggOutcome, process_spec};

verus! {

broadcast use vstd::string::group_string_axioms;

/// The fixed initial request body, keyed by whether the consolidated
/// (`nostream`) endpoint is addressed, which also pins the audio language.
pub open spec fn spec_request_json(nostream: bool) -> Seq<char> {
    if nostream {
        "{\"audio\":{\"bits\":16,\"channel\":1,\"format\":\"pcm\",\"language\":\"zh-CN\",\"rate\":16000},\"request\":{\"enable_ddc\":false,\"enable_itn\":true,\"enable_punc\":true,\"enable_word\":false,\"model_name\":\"bigmodel\",\"nbest\":1,\"res_type\":\"full\",\"use_vad\":true},\"user\":{\"uid\":\"anytalk\"}}"@
    } else {
        "{\"audio\":{\"bits\":16,\"channel\":1,\"format\":\"pcm\",\"rate\":16000},\"request\":{\"enable_ddc\":false,\"enable_itn\":true,\"enable_punc\":true,\"enable_word\":false,\"model_name\":\"bigmodel\",\"nbest\":1,\"res_type\":\"full\",\"use_vad\":true},\"user\":{\"uid\":\"anytalk\"}}"@
    }
}

/// The JSON text of the session's opening request.
pub fn default_request_json(mode: &str) -> (r: String)
    ensures
        r@ == spec_request_json(mode@ == "nostream"@),
{
    if str_eq(mode, "nostream") {
        let s: &str = "{\"audio\":{\"bits\":16,\"channel\":1,\"format\":\"pcm\",\"language\":\"zh-CN\",\"rate\":16000},\"request\":{\"enable_ddc\":false,\"enable_itn\":true,\"enable_punc\":true,\"enable_word\":false,\"model_name\":\"bigmodel\",\"nbest\":1,\"res_type\":\"full\",\"use_vad\":true},\"user\":{\"uid\":\"anytalk\"}}";
        s.to_string()
    } else {
        let s: &str = "{\"audio\":{\"bits\":16,\"channel\":1,\"format\":\"pcm\",\"rate\":16000},\"request\":{\"enable_ddc\":false,\"enable_itn\":true,\"enable_punc\":true,\"enable_word\":false,\"model_name\":\"bigmodel\",\"nbest\":1,\"res_type\":\"full\",\"use_vad\":true},\"user\":{\"uid\":\"anytalk\"}}";
        s.to_string()
    }
}

/// The endpoint for each operating mode; anything unrecognized addresses
/// the consolidated endpoint.
pub fn asr_url(mode: &str) -> (r: &'static str)
    ensures
        mode@ == "bidi"@ ==> r@ == "wss://openspeech.bytedance.com/api/v3/sauc/bigmodel"@,
        mode@ == "bidi_async"@ ==> r@
            == "wss://openspeech.bytedance.com/api/v3/sauc/bigmodel_async"@,
        mode@ != "bidi"@ && mode@ != "bidi_async"@ ==> r@
            == "wss://openspeech.bytedance.com/api/v3/sauc/bigmodel_nostream"@,
{
    proof {
        reveal_strlit("bidi");
        reveal_strlit("bidi_async");
        assert("bidi"@.len() == 4);
        assert("bidi_async"@.len() == 10);
        assert("bidi"@ != "bidi_async"@);
    }
    if str_eq(mode, "bidi") {
        "wss://openspeech.bytedance.com/api/v3/sauc/bigmodel"
    } else if str_eq(mode, "bidi_async") {
        "wss://openspeech.bytedance.com/api/v3/sauc/bigmodel_async"
    } else {
        "wss://openspeech.bytedance.com/api/v3/sauc/bigmodel_nostream"
    }
}

/// Per-session state: the aggregator, whether audio still flows outward,
/// and the operating mode.
pub struct SessionState {
    pub agg: AggState,
    pub audio_active: bool,
    pub mode: String,
}

/// The aggregator outcome of one decoded payload under the session's mode.
pub open spec fn step_outcome(
    st: crate::transcript::AggStateView,
    p: crate::transcript::PayloadView,
    mode: Seq<char>,
) -> AggOutcome {
    process_spec(st, p, mode == "bidi_async"@)
}

/// The transcript events one response payload produces, in emission order:
/// the finals in array order, then the partial, if any.
pub open spec fn emitted_events(o: AggOutcome) -> Seq<ServerMsgView> {
    o.finals.map_values(|t: Seq<char>| ServerMsgView::Final { text: t }) + (match o.partial {
        Some(t) => seq![ServerMsgView::Partial { text: t }],
        None => Seq::empty(),
    })
}

impl SessionState {
    /// Open a session: fresh aggregator state, audio flowing, and the
    /// opening request frame to send.
    pub fn session_init(mode: &str) -> (r: (SessionState, Vec<u8>))
        ensures
            r.0.agg@.last_committed_end_time == -1,
            r.0.agg@.last_full_text.len() == 0,
            r.0.audio_active,
            r.0.mode@ == mode@,
            r.1@ == spec_full_client_request(
                encode_utf8(spec_request_json(mode@ == "nostream"@)),
            ),
    {
        let req: String = default_request_json(mode);
        let frame: Vec<u8> = build_full_client_request(req.as_str());
        (SessionState { agg: AggState::new(), audio_active: true, mode: mode.to_string() }, frame)
    }

    /// An audio chunk arrived: while audio is active, forward it as a
    /// non-final audio frame; once sending has failed or stopped, drop it.
    pub fn on_audio_chunk(&mut self, bytes: &[u8]) -> (r: Option<Vec<u8>>)
        ensures
            final(self).agg == old(self).agg,
            final(self).mode == old(self).mode,
            final(self).audio_active == old(self).audio_active,
            old(self).audio_active ==> (r matches Some(f) && f@ == spec_audio_only_request(
                bytes@,
                false,
            )),
            !old(self).audio_active ==> r is None,
    {
        if self.audio_active {
            Some(build_audio_only_request(bytes, false))
        } else {
            None
        }
    }

    /// Sending an audio frame failed: stop the outbound flow but keep the
    /// session alive for trailing finals.
    pub fn on_send_failed(&mut self)
        ensures
            final(self).agg == old(self).agg,
            final(self).mode == old(self).mode,
            !final(self).audio_active,
    {
        self.audio_active = false;
    }

    /// The audio queue closed (routing was revoked): tell the server the
    /// stream is over with one empty, last-flagged frame, and stop the
    /// outbound flow.
    pub fn on_audio_closed(&mut self) -> (r: Vec<u8>)
        ensures
            final(self).agg == old(self).agg,
            final(self).mode == old(self).mode,
            !final(self).audio_active,
            r@ == spec_audio_only_request(Seq::<u8>::empty(), true),
    {
        self.audio_active = false;
        let empty: Vec<u8> = Vec::new();
        let frame: Vec<u8> = build_audio_only_request(empty.as_slice(), true);
        assert(empty@ =~= Seq::<u8>::empty());
        frame
    }

    /// A binary WebSocket frame arrived.  An error frame emits one error
    /// event and ends the session; a response frame feeds the aggregator
    /// and emits its events, ending the session when the server's
    /// final-response flags are set; anything else is ignored.
    pub fn on_ws_binary(&mut self, data: &[u8]) -> (r: (Vec<ServerMsg>, bool))
        ensures
            final(self).mode == old(self).mode,
            final(self).audio_active == old(self).audio_active,
            final(self).agg@.last_committed_end_time >= old(self).agg@.last_committed_end_time,
            match parse_frame(data@) {
                ServerFrame::Unknown { .. } => r.0.deep_view() =~= Seq::<ServerMsgView>::empty()
                    && r.1 == false && final(self).agg == old(self).agg,
                ServerFrame::Error { flags, code, message } => r.0.deep_view() =~= seq![
                    ServerMsgView::Error { message: utf8_lossy_of(message) },
                ] && r.1 == true && final(self).agg == old(self).agg,
                ServerFrame::Response { flags, payload } => {
                    let o = step_outcome(
                        old(self).agg@,
                        payload_of(utf8_lossy_of(payload)),
                        old(self).mode@,
                    );
                    &&& r.1 == (flags == FLAGS_FINAL_RESPONSE)
                    &&& r.0.deep_view() =~= emitted_events(o)
                    &&& final(self).agg@ == o.state
                },
            },
    {
        proof {
            reveal_strlit("error");
            reveal_strlit("unknown");
            reveal_strlit("response");
            assert("error"@.len() == 5 && "unknown"@.len() == 7 && "response"@.len() == 8);
            assert("error"@ != "unknown"@ && "error"@ != "response"@ && "unknown"@
                != "response"@);
        }
        let parsed = parse_server_message(data);
        let mut events: Vec<ServerMsg> = Vec::new();
        if str_eq(parsed.kind, "error") {
            let message: String = match parsed.error_msg {
                Some(m) => m,
                None => String::from_str("server error"),
            };
            events.push(ServerMsg::Error { message });
            return (events, true);
        }
        if str_eq(parsed.kind, "response") {
            let json_text: String = match parsed.json_text {
                Some(t) => t,
                None => String::new(),
            };
            let payload = decode_payload(json_text.as_str());
            let (partial, finals) = self.agg.process_payload(&payload, self.mode.as_str());
            let ghost o = step_outcome(old(self).agg@, payload@, old(self).mode@);
            let mut i: usize = 0;
            while i < finals.len()
                invariant
                    i <= finals@.len(),
                    finals.deep_view() == o.finals,
                    events@.len() == i,
                    forall|j: int|
                        0 <= j < i ==> (#[trigger] events@[j])@ == (ServerMsgView::Final {
                            text: o.finals[j],
                        }),
                decreases finals@.len() - i,
            {
                proof {
                    assert(finals@[i as int]@ == o.finals[i as int]);
                }
                events.push(ServerMsg::Final { text: finals[i].clone() });
                i = i + 1;
            }
            match partial {
                Some(p) => {
                    events.push(ServerMsg::Partial { text: p });
                },
                None => {},
            }
            proof {
                assert(events.deep_view() =~= emitted_events(o));
            }
            let done: bool = parsed.flags == FLAGS_FINAL_RESPONSE;
            return (events, done);
        }
        proof {
            assert(events.deep_view() =~= Seq::<ServerMsgView>::empty());
        }
        (events, false)
    }
}

} // verus!
