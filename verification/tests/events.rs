use dhttp::sse::{sse_step, SseAction, SseEvent};

#[test]
fn frame_has_the_exact_wire_shape() {
    let e = SseEvent { name: "update".to_string(), data: "{\"n\":1}".to_string() };
    assert_eq!(e.frame(), "event: update\ndata: {\"n\":1}\n\n");
}

#[test]
fn two_events_then_end_of_stream_write_two_frames_in_order() {
    let produced = vec![
        Some(SseEvent { name: "a".to_string(), data: "first".to_string() }),
        Some(SseEvent { name: "b".to_string(), data: "second".to_string() }),
        None,
    ];
    let mut written: Vec<String> = Vec::new();
    let mut stopped = false;
    for ev in produced {
        match sse_step(ev) {
            SseAction::Write(frame) => {
                assert!(!stopped);
                written.push(frame);
            }
            SseAction::Stop => stopped = true,
        }
    }
    assert!(stopped);
    assert_eq!(written, vec!["event: a\ndata: first\n\n", "event: b\ndata: second\n\n"]);
}
