use rnagent::engine::Engine;
use rnagent::engine::Phase;
use rnagent::engine::Step;
use rnagent::event::AgentEvent;
use rnagent::frame::FrameAssembler;
use rnagent::frame::MAX_FRAME_SIZE;
use rnagent::decode::decode_event;

fn collect_events(engine: &mut Engine) -> Vec<Step> {
    let mut steps = Vec::new();
    loop {
        let step = engine.next_step();
        match step {
            Step::NeedInput => return steps,
            Step::EmitAndFinish(_) => {
                steps.push(step);
                return steps;
            },
            _ => steps.push(step),
        }
    }
}

#[test]
fn full_scenario_in_order() {
    let mut engine = Engine::new();

    engine
        .feed(b"data:{\"type\":\"status\",\"message\":\"start\"}\n\n")
        .unwrap();
    let step = engine.next_step();
    match step {
        Step::Emit(AgentEvent::Status { message }) => assert_eq!(message, "start"),
        other => panic!("expected status emit, got {:?}", fmt_step(&other)),
    }
    assert!(matches!(engine.next_step(), Step::NeedInput));

    engine
        .feed(b"data:{\"type\":\"file_write\",\"path\":\"a.txt\",\"content\":\"hi\"}\n\n")
        .unwrap();
    let step = engine.next_step();
    match step {
        Step::Write { path, content } => {
            assert_eq!(path, "a.txt");
            assert_eq!(content, "hi");
        },
        other => panic!("expected write, got {:?}", fmt_step(&other)),
    }
    assert!(matches!(engine.phase, Phase::AwaitingWrite));
    let ev = engine.write_result(true, String::new());
    match ev {
        AgentEvent::FileWrite { path, content } => {
            assert_eq!(path, "a.txt");
            assert_eq!(content, "hi");
        },
        _ => panic!("expected the file-write event back"),
    }
    assert!(matches!(engine.phase, Phase::Streaming));

    engine
        .feed(b"data:{\"type\":\"done\",\"summary\":\"ok\",\"files\":[\"a.txt\"]}\n\n")
        .unwrap();
    let step = engine.next_step();
    match step {
        Step::EmitAndFinish(AgentEvent::Done { summary, files }) => {
            assert_eq!(summary, "ok");
            assert_eq!(files, vec!["a.txt".to_string()]);
        },
        other => panic!("expected done, got {:?}", fmt_step(&other)),
    }
    assert!(matches!(engine.phase, Phase::Done));
}

fn fmt_step(step: &Step) -> String {
    match step {
        Step::NeedInput => "NeedInput".to_string(),
        Step::Emit(_) => "Emit".to_string(),
        Step::Write { .. } => "Write".to_string(),
        Step::EmitAndFinish(_) => "EmitAndFinish".to_string(),
    }
}

#[test]
fn chunk_boundaries_do_not_matter() {
    let total: Vec<u8> =
        b"data:{\"type\":\"status\",\"message\":\"one\"}\n\ndata:{\"type\":\"status\",\"message\":\"two\"}\n\npartial"
            .to_vec();

    let mut whole = FrameAssembler::new();
    let frames_whole = whole.append(&total).unwrap();

    let mut bytewise = FrameAssembler::new();
    let mut frames_bytes: Vec<Vec<u8>> = Vec::new();
    for b in &total {
        frames_bytes.extend(bytewise.append(&[*b]).unwrap());
    }

    assert_eq!(frames_whole, frames_bytes);
    assert_eq!(frames_whole.len(), 2);
    assert_eq!(whole.buf, b"partial".to_vec());
    assert_eq!(bytewise.buf, b"partial".to_vec());
}

#[test]
fn event_order_is_chunking_independent() {
    let total: Vec<u8> =
        b"data:{\"type\":\"status\",\"message\":\"one\"}\n\ndata:{\"type\":\"status\",\"message\":\"two\"}\n\ndata:{\"type\":\"done\",\"summary\":\"d\",\"files\":[]}\n\n"
            .to_vec();

    let run = |chunks: Vec<Vec<u8>>| -> Vec<String> {
        let mut engine = Engine::new();
        let mut seen = Vec::new();
        for c in chunks {
            engine.feed(&c).unwrap();
            loop {
                match engine.next_step() {
                    Step::NeedInput => break,
                    Step::Emit(AgentEvent::Status { message }) => seen.push(message),
                    Step::EmitAndFinish(AgentEvent::Done { summary, .. }) => {
                        seen.push(summary);
                        return seen;
                    },
                    _ => panic!("unexpected step"),
                }
            }
        }
        seen
    };

    let whole = run(vec![total.clone()]);
    let bytewise = run(total.iter().map(|b| vec![*b]).collect());
    let mid = total.len() / 2;
    let halves = run(vec![total[..mid].to_vec(), total[mid..].to_vec()]);
    assert_eq!(whole, vec!["one", "two", "d"]);
    assert_eq!(whole, bytewise);
    assert_eq!(whole, halves);
}

#[test]
fn overflow_is_fatal_and_emits_nothing() {
    let mut assembler = FrameAssembler::new();
    let big = vec![b'a'; MAX_FRAME_SIZE + 1];
    assert!(assembler.append(&big).is_err());

    let mut engine = Engine::new();
    engine.feed(&vec![b'a'; MAX_FRAME_SIZE]).unwrap();
    assert!(matches!(engine.next_step(), Step::NeedInput));
    let err = engine.feed(b"b");
    assert!(err.is_err());
    assert_eq!(err.unwrap_err().message(), "Response exceeded safety limit");
    assert!(matches!(engine.phase, Phase::Failed));
}

#[test]
fn almost_full_buffer_still_accepted() {
    let mut assembler = FrameAssembler::new();
    let big = vec![b'a'; MAX_FRAME_SIZE];
    assert!(assembler.append(&big).unwrap().is_empty());
}

#[test]
fn malformed_frame_dropped_stream_goes_on() {
    let mut engine = Engine::new();
    engine
        .feed(b"data:{not json\n\ndata:{\"type\":\"status\",\"message\":\"after\"}\n\n")
        .unwrap();
    let steps = collect_events(&mut engine);
    assert_eq!(steps.len(), 1);
    match &steps[0] {
        Step::Emit(AgentEvent::Status { message }) => assert_eq!(message, "after"),
        _ => panic!("expected only the well-formed frame's event"),
    }
    assert!(matches!(engine.phase, Phase::Streaming));
}

#[test]
fn traversal_write_refused_stream_stays_active() {
    let mut engine = Engine::new();
    engine
        .feed(b"data:{\"type\":\"file_write\",\"path\":\"../../etc/passwd\",\"content\":\"x\"}\n\n")
        .unwrap();
    let step = engine.next_step();
    let (path, content) = match step {
        Step::Write { path, content } => (path, content),
        _ => panic!("expected a write request"),
    };
    assert_eq!(path, "../../etc/passwd");
    assert_eq!(content, "x");

    // The caller computes the plan, creates directories, canonicalizes, and
    // asks for the verdict; with the parent resolving to /etc the verdict
    // must refuse.
    let plan = rnagent::sandbox::write_plan("/sandbox/proj", &path).unwrap();
    assert_eq!(plan.target, "/sandbox/proj/../../etc/passwd");
    assert_eq!(plan.parent, "/sandbox/proj/../../etc");
    assert!(!rnagent::sandbox::containment_verdict("/etc", "/sandbox/proj"));

    let ev = engine.write_result(false, "Security violation: path traversal detected".to_string());
    match ev {
        AgentEvent::Error { message } => {
            assert_eq!(message, "Security violation: path traversal detected")
        },
        _ => panic!("expected an error event"),
    }
    assert!(matches!(engine.phase, Phase::Streaming));

    engine
        .feed(b"data:{\"type\":\"status\",\"message\":\"still here\"}\n\n")
        .unwrap();
    match engine.next_step() {
        Step::Emit(AgentEvent::Status { message }) => assert_eq!(message, "still here"),
        _ => panic!("the stream must keep processing after a refused write"),
    }
}

#[test]
fn error_event_finishes_the_stream() {
    let mut engine = Engine::new();
    engine
        .feed(b"data:{\"type\":\"error\",\"message\":\"boom\"}\n\n")
        .unwrap();
    match engine.next_step() {
        Step::EmitAndFinish(AgentEvent::Error { message }) => assert_eq!(message, "boom"),
        _ => panic!("expected the error event"),
    }
    assert!(matches!(engine.phase, Phase::Failed));
}

#[test]
fn stream_end_synthesizes_error() {
    let mut engine = Engine::new();
    engine
        .feed(b"data:{\"type\":\"status\",\"message\":\"only\"}\n\n")
        .unwrap();
    let _ = collect_events(&mut engine);
    let ev = engine.end_of_stream();
    match ev {
        AgentEvent::Error { message } => assert_eq!(message, "Stream closed unexpectedly"),
        _ => panic!("expected a synthesized error"),
    }
    assert!(matches!(engine.phase, Phase::Closed));
}

#[test]
fn same_write_twice_requests_identical_writes() {
    let frame = b"data:{\"type\":\"file_write\",\"path\":\"p.txt\",\"content\":\"v2\"}\n\n";
    let mut engine = Engine::new();
    engine.feed(frame).unwrap();
    engine.feed(frame).unwrap();
    for _ in 0..2 {
        match engine.next_step() {
            Step::Write { path, content } => {
                assert_eq!(path, "p.txt");
                assert_eq!(content, "v2");
            },
            _ => panic!("expected a write request"),
        }
        engine.write_result(true, String::new());
    }
}

#[test]
fn decode_rejects_and_accepts() {
    // Well-formed.
    let ev = decode_event(b"data:{\"type\":\"status\",\"message\":\"m\"}");
    assert!(matches!(ev, Some(AgentEvent::Status { .. })));

    // Prefix missing.
    assert!(decode_event(b"{\"type\":\"status\",\"message\":\"m\"}").is_none());
    // Not UTF-8.
    assert!(decode_event(b"data:\xff\xfe").is_none());
    // Empty frame.
    assert!(decode_event(b"").is_none());
    // Unknown variant.
    assert!(decode_event(b"data:{\"type\":\"reboot\"}").is_none());
    // Missing required field.
    assert!(decode_event(b"data:{\"type\":\"status\"}").is_none());
    // Duplicate required field.
    assert!(
        decode_event(b"data:{\"type\":\"status\",\"message\":\"a\",\"message\":\"b\"}").is_none()
    );
    // Wrong field type.
    assert!(decode_event(b"data:{\"type\":\"status\",\"message\":7}").is_none());
    // Unknown extra fields are tolerated.
    let ev = decode_event(
        b"data:{\"seq\":41,\"type\":\"status\",\"flag\":true,\"note\":null,\"message\":\"ok\"}",
    );
    match ev {
        Some(AgentEvent::Status { message }) => assert_eq!(message, "ok"),
        _ => panic!("extra fields must be ignored"),
    }
    // Leading and trailing white space is trimmed.
    let ev = decode_event(b"  data:{\"type\":\"status\",\"message\":\"m\"}\r\n");
    assert!(matches!(ev, Some(AgentEvent::Status { .. })));
}

#[test]
fn decode_handles_escapes() {
    let ev = decode_event(
        b"data:{\"type\":\"file_write\",\"path\":\"a.txt\",\"content\":\"line1\\nline2\\t\\\"q\\\" \\\\ \\u0041 \\uD83D\\uDE00\"}",
    );
    match ev {
        Some(AgentEvent::FileWrite { content, .. }) => {
            assert_eq!(content, "line1\nline2\t\"q\" \\ A \u{1F600}");
        },
        _ => panic!("escape-laden frame must decode"),
    }
    // A lone surrogate is rejected.
    assert!(
        decode_event(b"data:{\"type\":\"status\",\"message\":\"\\uD83D\"}").is_none()
    );
    // An unescaped control character is rejected.
    assert!(decode_event(b"data:{\"type\":\"status\",\"message\":\"a\x01b\"}").is_none());
}

#[test]
fn done_event_carries_files() {
    let ev = decode_event(b"data:{\"type\":\"done\",\"summary\":\"s\",\"files\":[]}");
    match ev {
        Some(AgentEvent::Done { summary, files }) => {
            assert_eq!(summary, "s");
            assert!(files.is_empty());
        },
        _ => panic!("empty files array must decode"),
    }
    // Non-string entries in files are a type error.
    assert!(
        decode_event(b"data:{\"type\":\"done\",\"summary\":\"s\",\"files\":[\"a\",1]}").is_none()
    );
}
