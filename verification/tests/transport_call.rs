use rt_voice_wasm::agent::{default_rules, Action, IntentRouter};
use rt_voice_wasm::call::{CallSession, CallState};
use rt_voice_wasm::stream::OverlapMerger;
use rt_voice_wasm::config::{default_engine, default_model, parse_flag};
use rt_voice_wasm::transport::{base64_decode, parse_twilio_message, Destination, Event, TwilioMessage};

#[test]
fn base64_decodes_standard_text() {
    assert_eq!(base64_decode("aGVsbG8=").unwrap(), b"hello".to_vec());
    assert_eq!(base64_decode("aGk=").unwrap(), b"hi".to_vec());
    assert_eq!(base64_decode("").unwrap(), Vec::<u8>::new());
    assert_eq!(base64_decode("/w==").unwrap(), vec![0xFF]);
}

#[test]
fn base64_is_lenient() {
    // characters outside the alphabet are skipped inside a group
    assert_eq!(base64_decode("aG*k").unwrap(), b"hi".to_vec());
    // decoding stops at a group with fewer than two alphabet characters
    assert_eq!(base64_decode("aGk=a").unwrap(), b"hi".to_vec());
    assert_eq!(base64_decode("aGkhY").unwrap(), b"hi!".to_vec());
}

#[test]
fn twilio_media_is_decoded_to_16k() {
    // payload "/38=" is the μ-law bytes 0xFF 0x7F: both silence
    let msg = parse_twilio_message(r#"{"event":"media","media":{"payload":"/38="}}"#);
    match msg {
        TwilioMessage::Audio(pcm) => assert_eq!(pcm, vec![0, 0, 0]),
        other => panic!("expected audio, got {:?}", other),
    }
    let loud = parse_twilio_message(r#"{"event":"media","media":{"payload":"gA=="}}"#);
    match loud {
        TwilioMessage::Audio(pcm) => assert_eq!(pcm, vec![8031]),
        other => panic!("expected audio, got {:?}", other),
    }
}

#[test]
fn twilio_start_stop_other() {
    match parse_twilio_message(r#"{"event":"start","streamSid":"MZ123"}"#) {
        TwilioMessage::Start { stream_sid } => assert_eq!(stream_sid, "MZ123"),
        other => panic!("expected start, got {:?}", other),
    }
    match parse_twilio_message(r#"{"event":"start"}"#) {
        TwilioMessage::Start { stream_sid } => assert_eq!(stream_sid, "unknown"),
        other => panic!("expected start, got {:?}", other),
    }
    assert!(matches!(parse_twilio_message(r#"{"event":"stop"}"#), TwilioMessage::Stop));
    assert!(matches!(parse_twilio_message(r#"{"event":"mark"}"#), TwilioMessage::Other));
    assert!(matches!(parse_twilio_message("not json"), TwilioMessage::Other));
    assert!(matches!(parse_twilio_message(r#"{"event":"media"}"#), TwilioMessage::Other));
    assert!(matches!(parse_twilio_message(r#"{"event":3}"#), TwilioMessage::Other));
}

#[test]
fn events_have_kind_and_destination() {
    let t = Event::transcript("hello");
    assert_eq!((t.kind.as_str(), t.text.as_str(), t.to), ("transcript", "hello", Destination::Both));
    let a = Event::agent_action("transfer to agent");
    assert_eq!((a.kind.as_str(), a.to), ("agent_action", Destination::Caller));
    let s = Event::state("greeting");
    assert_eq!((s.kind.as_str(), s.text.as_str(), s.to), ("state", "greeting", Destination::System));
    let e = Event::error("boom");
    assert_eq!((e.kind.as_str(), e.to), ("error", Destination::System));
}

#[test]
fn call_routing_then_transfer_closes() {
    let router = IntentRouter::new(default_rules());
    let action = router.route("I want to speak to an agent please");
    let (state, _) = CallState::Greeting.on_transcript(false);
    assert_eq!(state, CallState::Routing);
    let (next, event) = state.on_action(&action);
    assert_eq!(next, CallState::Closing);
    assert_eq!(event.unwrap(), "transfer to agent");
}

#[test]
fn call_state_transitions() {
    assert_eq!(CallState::Greeting.on_transcript(false), (CallState::Routing, true));
    assert_eq!(CallState::Routing.on_transcript(true), (CallState::Routing, false));
    assert_eq!(CallState::Closing.on_transcript(false), (CallState::Closing, false));
    assert_eq!(CallState::Responding.on_transcript(false), (CallState::Responding, false));

    let (s, e) = CallState::Routing.on_action(&Action::Respond("hi".to_string()));
    assert_eq!((s, e.unwrap().as_str()), (CallState::Routing, "respond: hi"));
    let (s, e) = CallState::Routing.on_action(&Action::Escalate("angry".to_string()));
    assert_eq!((s, e.unwrap().as_str()), (CallState::Closing, "escalate: angry"));
    let (s, e) = CallState::Routing.on_action(&Action::Hangup);
    assert_eq!((s, e.unwrap().as_str()), (CallState::Closing, "hangup"));
    let (s, e) = CallState::Routing.on_action(&Action::Continue);
    assert_eq!((s, e), (CallState::Routing, None));
    let (s, e) = CallState::Routing.on_action(&Action::Order("{}".to_string()));
    assert_eq!((s, e.unwrap().as_str()), (CallState::Routing, "order: {}"));
}

#[test]
fn parse_flag_finds_value() {
    let args: Vec<String> = ["live-captions", "--speed", "2.0", "--device", "mic1"].iter().map(|s| s.to_string()).collect();
    assert_eq!(parse_flag(&args, "--speed").unwrap(), "2.0");
    assert_eq!(parse_flag(&args, "--device").unwrap(), "mic1");
    assert!(parse_flag(&args, "--model").is_none());
    let trailing: Vec<String> = vec!["x".to_string(), "--speed".to_string()];
    assert!(parse_flag(&trailing, "--speed").is_none());
}

#[test]
fn config_defaults() {
    assert_eq!(default_engine(), "whisper");
    assert_eq!(default_model(), "");
}

#[test]
fn call_session_gathers_transcripts() {
    let mut session = CallSession::new();
    let mut merger = OverlapMerger::new();
    let (state_event, greeting) = CallSession::opening_events("Hi!");
    assert_eq!((state_event.kind.as_str(), state_event.text.as_str()), ("state", "greeting"));
    assert_eq!((greeting.kind.as_str(), greeting.text.as_str()), ("agent_action", "respond: Hi!"));

    let first: Result<Vec<String>, String> = Ok(vec!["hello world".to_string(), "this is".to_string()]);
    let (event, start) = session.on_transcription(&first, &mut merger, false);
    let event = event.unwrap();
    assert_eq!((event.kind.as_str(), event.text.as_str(), event.to), ("transcript", "hello world this is", Destination::Both));
    assert!(start);
    assert_eq!(session.state(), CallState::Routing);

    // a request is in flight: no new one
    let second: Result<Vec<String>, String> = Ok(vec!["this is a test".to_string()]);
    let (event, start) = session.on_transcription(&second, &mut merger, true);
    assert_eq!(event.unwrap().text, "a test");
    assert!(!start);
    assert_eq!(session.full_transcript(), "hello world this is a test ");

    // a window that only repeats emits nothing
    let repeat: Result<Vec<String>, String> = Ok(vec!["a test".to_string()]);
    let (event, start) = session.on_transcription(&repeat, &mut merger, false);
    assert!(event.is_none() && !start);

    let failed: Result<Vec<String>, String> = Err("engine down".to_string());
    let (event, start) = session.on_transcription(&failed, &mut merger, false);
    let event = event.unwrap();
    assert_eq!((event.kind.as_str(), event.text.as_str(), event.to), ("error", "engine down", Destination::System));
    assert!(!start);

    let reply = session.on_action(&Action::Transfer("agent".to_string())).unwrap();
    assert_eq!((reply.kind.as_str(), reply.text.as_str()), ("agent_action", "transfer to agent"));
    assert_eq!(session.state(), CallState::Closing);
    assert!(session.on_action(&Action::Continue).is_none());

    let closing = session.closing_event();
    assert_eq!((closing.kind.as_str(), closing.text.as_str(), closing.to),
        ("full_transcript", "hello world this is a test ", Destination::System));
}

#[test]
fn base64_round_trip_with_and_without_padding() {
    let cases: [(&str, &[u8]); 5] = [
        ("aGVsbG8", b"hello"),
        ("aGVsbG8=", b"hello"),
        ("AAEC/w", &[0, 1, 2, 255]),
        ("AAEC/w==", &[0, 1, 2, 255]),
        ("+/+/", &[0xfb, 0xff, 0xbf]),
    ];
    for (text, bytes) in cases {
        assert_eq!(base64_decode(text).unwrap(), bytes.to_vec(), "{text}");
    }
}

#[test]
fn event_json_text() {
    let e = Event::transcript("say \"hi\"\n");
    assert_eq!(e.to_json(true), "{\"data\":null,\"event\":\"transcript\",\"text\":\"say \\\"hi\\\"\\n\"}");
    assert_eq!(Event::state("greeting").to_json(false), "{\"event\":\"state\",\"text\":\"greeting\"}");
    let v: serde_json::Value = serde_json::from_str(&Event::error("\u{1}x").to_json(true)).unwrap();
    assert_eq!(v["text"], "\u{1}x");
    assert!(v["data"].is_null());
}
