use anytalk::config::{resolve_config, socket_path_choice, SocketPathChoice};
use anytalk::control::{Command, ControlEffect, ControllerState};
use anytalk::errors::DaemonError;
use anytalk::ipc::ServerMsg;
use anytalk::json::decode_payload;
use anytalk::pool::{maintainer_step, MaintainerAction, MaintainerEvent};
use anytalk::session::{asr_url, default_request_json, SessionState};
use anytalk::transcript::AsrPayload;

fn response_frame(flags: u8, json: &str) -> Vec<u8> {
    let payload = json.as_bytes();
    let mut data = vec![0x11, 0x90 | (flags & 0x0F), 0x10, 0x00, 0, 0, 0, 0];
    data.extend_from_slice(&(payload.len() as u32).to_be_bytes());
    data.extend_from_slice(payload);
    data
}

fn error_frame(code: u32, message: &str) -> Vec<u8> {
    let msg = message.as_bytes();
    let mut data = vec![0x11, 0xF0, 0x10, 0x00];
    data.extend_from_slice(&code.to_be_bytes());
    data.extend_from_slice(&(msg.len() as u32).to_be_bytes());
    data.extend_from_slice(msg);
    data
}

fn texts(events: &[ServerMsg]) -> Vec<String> {
    events
        .iter()
        .map(|e| match e {
            ServerMsg::Status { state } => format!("status:{state}"),
            ServerMsg::Partial { text } => format!("partial:{text}"),
            ServerMsg::Final { text } => format!("final:{text}"),
            ServerMsg::Error { message } => format!("error:{message}"),
        })
        .collect()
}

#[test]
fn happy_path_start_stream_stop() {
    // Controller: a spare is present, so start goes straight to recording.
    let mut ctl = ControllerState::new();
    let effects = ctl.on_command(Command::Start);
    assert_eq!(effects, vec![ControlEffect::TryConnect]);
    let effects = ctl.on_spare(true);
    assert_eq!(
        effects,
        vec![ControlEffect::InstallAudioAndSpawn, ControlEffect::EmitRecording]
    );
    assert!(ctl.active);

    // Session: two utterance-list payloads, the second with the server's
    // final-response flags.
    let (mut session, _open_frame) = SessionState::session_init("bidi");
    let p1 = response_frame(
        0,
        r#"{"result":{"utterances":[{"definite":true,"end_time":1500,"text":" hello "},{"definite":false,"text":"wor"}]}}"#,
    );
    let (events, done) = session.on_ws_binary(&p1);
    assert_eq!(texts(&events), vec!["final:hello", "partial:wor"]);
    assert!(!done);

    let p2 = response_frame(
        0b0011,
        r#"{"result":{"utterances":[{"definite":true,"end_time":3000,"text":"world"}]}}"#,
    );
    let (events, done) = session.on_ws_binary(&p2);
    assert_eq!(texts(&events), vec!["final:world"]);
    assert!(done);

    // Stop with an active session: audio is revoked and the session drains;
    // no idle is emitted by the controller itself.
    let effects = ctl.on_command(Command::Stop);
    assert_eq!(effects, vec![ControlEffect::ClearTarget]);
    assert!(!ctl.active && ctl.draining);
}

#[test]
fn restart_aborts_previous_session_without_idle() {
    let mut ctl = ControllerState::new();
    ctl.on_command(Command::Start);
    ctl.on_spare(true);
    assert!(ctl.active);

    // Second start: the active session is torn down first, audio first, and
    // no idle status appears anywhere in the effects.
    let effects = ctl.on_command(Command::Start);
    assert_eq!(
        effects,
        vec![
            ControlEffect::ClearTarget,
            ControlEffect::AbortActive,
            ControlEffect::TryConnect
        ]
    );
    assert!(!effects.contains(&ControlEffect::EmitIdle));
    let effects = ctl.on_spare(true);
    assert_eq!(
        effects,
        vec![ControlEffect::InstallAudioAndSpawn, ControlEffect::EmitRecording]
    );
}

#[test]
fn cancel_aborts_and_goes_idle() {
    let mut ctl = ControllerState::new();
    ctl.on_command(Command::Start);
    ctl.on_spare(true);

    let effects = ctl.on_command(Command::Cancel);
    assert_eq!(
        effects,
        vec![
            ControlEffect::ClearTarget,
            ControlEffect::AbortActive,
            ControlEffect::EmitIdle
        ]
    );
    assert!(!ctl.active && !ctl.draining);
}

#[test]
fn stop_without_session_reports_idle() {
    let mut ctl = ControllerState::new();
    let effects = ctl.on_command(Command::Stop);
    assert_eq!(effects, vec![ControlEffect::ClearTarget, ControlEffect::EmitIdle]);
}

#[test]
fn unknown_command_reports_error_and_continues() {
    let mut ctl = ControllerState::new();
    let effects = ctl.on_command(Command::Unknown);
    assert_eq!(effects, vec![ControlEffect::EmitUnknownError]);
    // The controller is still usable.
    let effects = ctl.on_command(Command::Start);
    assert_eq!(effects, vec![ControlEffect::TryConnect]);
}

#[test]
fn server_error_emits_error_and_terminates() {
    let (mut session, _frame) = SessionState::session_init("bidi");
    let (events, done) = session.on_ws_binary(&error_frame(42, "bad"));
    assert_eq!(texts(&events), vec!["error:bad"]);
    assert!(done);
}

#[test]
fn no_spare_dials_on_demand() {
    let mut ctl = ControllerState::new();
    ctl.on_command(Command::Start);
    let effects = ctl.on_spare(false);
    assert_eq!(effects, vec![ControlEffect::EmitConnecting, ControlEffect::Dial]);

    // Dial failure: the error goes to the client and the controller stays
    // ready for the next command.
    let effects = ctl.on_dial(false);
    assert_eq!(effects, vec![ControlEffect::EmitDialError]);
    assert!(!ctl.active);

    // A retry that succeeds starts recording.
    ctl.on_command(Command::Start);
    ctl.on_spare(false);
    let effects = ctl.on_dial(true);
    assert_eq!(
        effects,
        vec![ControlEffect::InstallAudioAndSpawn, ControlEffect::EmitRecording]
    );
    assert!(ctl.active);
}

#[test]
fn session_audio_flow_and_shutdown_frame() {
    let (mut session, open_frame) = SessionState::session_init("bidi");
    // The opening frame is a full client request carrying the fixed JSON.
    assert_eq!(&open_frame[..4], &[0x11, 0x10, 0x10, 0x00]);

    let frame = session.on_audio_chunk(&[0xAA, 0xBB]).unwrap();
    assert_eq!(&frame[..4], &[0x11, 0x20, 0x00, 0x00]);
    assert_eq!(&frame[8..], &[0xAA, 0xBB]);

    // Audio queue closed: one empty frame flagged last, then chunks are
    // dropped.
    let last = session.on_audio_closed();
    assert_eq!(&last[..4], &[0x11, 0x22, 0x00, 0x00]);
    assert_eq!(last.len(), 8);
    assert!(session.on_audio_chunk(&[0x01]).is_none());
}

#[test]
fn bidi_async_session_duplicates_text() {
    let (mut session, _frame) = SessionState::session_init("bidi_async");
    let p = response_frame(0, r#"{"result":{"text":"hi there"}}"#);
    let (events, done) = session.on_ws_binary(&p);
    assert_eq!(texts(&events), vec!["final:hi there", "partial:hi there"]);
    assert!(!done);
}

#[test]
fn unknown_frame_is_ignored_by_session() {
    let (mut session, _frame) = SessionState::session_init("bidi");
    let (events, done) = session.on_ws_binary(&[0x21, 0x90, 0x10, 0x00]);
    assert!(events.is_empty());
    assert!(!done);
}

#[test]
fn decode_payload_shapes() {
    let p = decode_payload(r#"{"result":{"utterances":[{"definite":true,"end_time":7,"text":"x"}]}}"#);
    match p {
        AsrPayload::Utterances(us) => {
            assert_eq!(us.len(), 1);
            assert!(us[0].definite);
            assert_eq!(us[0].end_time, 7);
            assert_eq!(us[0].text, "x");
        },
        _ => panic!("expected utterances"),
    }
    assert!(matches!(
        decode_payload(r#"{"result":{"text":"t"}}"#),
        AsrPayload::FullText(t) if t == "t"
    ));
    assert!(matches!(decode_payload("not json"), AsrPayload::Nothing));
    assert!(matches!(decode_payload(r#"{"other":1}"#), AsrPayload::Nothing));
    // Missing fields fall back to their defaults.
    let p = decode_payload(r#"{"result":{"utterances":[{}]}}"#);
    match p {
        AsrPayload::Utterances(us) => {
            assert_eq!(us.len(), 1);
            assert!(!us[0].definite);
            assert_eq!(us[0].end_time, -1);
            assert_eq!(us[0].text, "");
        },
        _ => panic!("expected utterances"),
    }
}

#[test]
fn maintainer_decisions() {
    assert_eq!(maintainer_step(MaintainerEvent::SlotEmpty), MaintainerAction::Dial);
    assert_eq!(maintainer_step(MaintainerEvent::DialOk), MaintainerAction::InstallSpare);
    assert_eq!(maintainer_step(MaintainerEvent::DialFailed), MaintainerAction::Sleep3s);
    assert_eq!(maintainer_step(MaintainerEvent::SlotFull), MaintainerAction::WaitConsumed);
    assert_eq!(
        maintainer_step(MaintainerEvent::Consumed),
        MaintainerAction::Sleep100msThenRecheck
    );
}

#[test]
fn config_defaults_and_required_keys() {
    let err = resolve_config(None, None, None, None).unwrap_err();
    assert_eq!(err, "missing ANYTALK_APP_ID");
    let err = resolve_config(Some("app".into()), None, None, None).unwrap_err();
    assert_eq!(err, "missing ANYTALK_ACCESS_TOKEN");

    let cfg = resolve_config(
        Some(" app ".into()),
        Some("tok\n".into()),
        None,
        None,
    )
    .unwrap();
    assert_eq!(cfg.app_id, "app");
    assert_eq!(cfg.access_token, "tok");
    assert_eq!(cfg.resource_id, "volc.seedasr.sauc.duration");
    assert_eq!(cfg.mode, "bidi_async");

    let cfg = resolve_config(
        Some("a".into()),
        Some("t".into()),
        Some("res".into()),
        Some("nostream".into()),
    )
    .unwrap();
    assert_eq!(cfg.resource_id, "res");
    assert_eq!(cfg.mode, "nostream");
}

#[test]
fn socket_path_prefers_runtime_dir() {
    assert!(matches!(
        socket_path_choice(Some("/run/user/1000".into()), Some("1000".into())),
        SocketPathChoice::RuntimeDir(d) if d == "/run/user/1000"
    ));
    assert!(matches!(
        socket_path_choice(Some("  ".into()), Some("1000".into())),
        SocketPathChoice::RunUser(u) if u == "1000"
    ));
    assert!(matches!(socket_path_choice(None, None), SocketPathChoice::Tmp));
}

#[test]
fn asr_url_per_mode() {
    assert_eq!(asr_url("bidi"), "wss://openspeech.bytedance.com/api/v3/sauc/bigmodel");
    assert_eq!(
        asr_url("bidi_async"),
        "wss://openspeech.bytedance.com/api/v3/sauc/bigmodel_async"
    );
    assert_eq!(
        asr_url("nostream"),
        "wss://openspeech.bytedance.com/api/v3/sauc/bigmodel_nostream"
    );
    assert_eq!(
        asr_url("anything"),
        "wss://openspeech.bytedance.com/api/v3/sauc/bigmodel_nostream"
    );
}

#[test]
fn request_json_is_valid_and_mode_dependent() {
    let base: serde_json::Value = serde_json::from_str(&default_request_json("bidi")).unwrap();
    assert_eq!(base["user"]["uid"], "anytalk");
    assert_eq!(base["audio"]["rate"], 16000);
    assert_eq!(base["audio"]["channel"], 1);
    assert_eq!(base["audio"]["bits"], 16);
    assert_eq!(base["request"]["model_name"], "bigmodel");
    assert!(base["audio"].get("language").is_none());

    let ns: serde_json::Value = serde_json::from_str(&default_request_json("nostream")).unwrap();
    assert_eq!(ns["audio"]["language"], "zh-CN");
}

#[test]
fn daemon_error_messages() {
    assert_eq!(
        DaemonError::Audio("no device".to_string()).message(),
        "Audio device error: no device"
    );
    assert_eq!(DaemonError::Config("bad".to_string()).message(), "Configuration error: bad");
    assert_eq!(DaemonError::WebSocket("x".to_string()).message(), "WebSocket error: x");
    assert_eq!(DaemonError::Protocol("y".to_string()).message(), "Protocol error: y");
    assert_eq!(DaemonError::Io("z".to_string()).message(), "IO error: z");
}
