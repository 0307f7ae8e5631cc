use claudexor_linux::sse::{pump, End, Frame, Parser};

fn all(p: &mut Parser, s: &str) -> Vec<Frame> {
    p.feed(s.as_bytes())
}

/// Reads a byte stream in 8 KiB chunks, as the app's read loop does,
/// handing each frame to `on_frame` until one read ends the stream or
/// `on_frame` asks to stop.
fn pump_reader(body: &[u8], parser: &mut Parser, mut on_frame: impl FnMut(Frame) -> bool) -> End {
    let mut at = 0;
    loop {
        let end = (at + 8192).min(body.len());
        let chunk = &body[at..end];
        at = end;
        let (frames, done) = pump(parser, chunk);
        for f in frames {
            if !on_frame(f) {
                return End::Stopped;
            }
        }
        if let Some(e) = done {
            return e;
        }
    }
}

#[test]
fn basic_frame_with_id_and_event() {
    let mut p = Parser::default();
    let f = all(&mut p, "id: 7\nevent: harness.event\ndata: {\"a\":1}\n\n");
    assert_eq!(f, vec![Frame { id: Some("7".into()), event: "harness.event".into(), data: "{\"a\":1}".into() }]);
    assert_eq!(p.last_id(), Some("7"));
}

#[test]
fn crlf_lines() {
    let mut p = Parser::default();
    let f = all(&mut p, "id: 1\r\nevent: x\r\ndata: hi\r\n\r\n");
    assert_eq!(f.len(), 1);
    assert_eq!(f[0].data, "hi");
    assert_eq!(f[0].event, "x");
}

#[test]
fn multi_line_data_joins_with_newline() {
    let mut p = Parser::default();
    let f = all(&mut p, "data: one\ndata: two\ndata:three\n\n");
    assert_eq!(f[0].data, "one\ntwo\nthree");
    assert_eq!(f[0].event, "message");
}

#[test]
fn comments_and_heartbeats_are_ignored() {
    let mut p = Parser::default();
    assert!(all(&mut p, ": heartbeat\n\n:\n\n").is_empty());
    let f = all(&mut p, ": ping\ndata: x\n\n");
    assert_eq!(f.len(), 1);
}

#[test]
fn frames_split_across_chunks() {
    let mut p = Parser::default();
    assert!(p.feed(b"id: 4\nda").is_empty());
    assert!(p.feed(b"ta: part").is_empty());
    let f = p.feed(b"ial\n\n");
    assert_eq!(f[0].data, "partial");
    assert_eq!(f[0].id.as_deref(), Some("4"));
}

#[test]
fn id_persists_for_resume_but_resets_per_frame_event() {
    let mut p = Parser::default();
    let f = all(&mut p, "id: 9\nevent: a\ndata: 1\n\ndata: 2\n\n");
    assert_eq!(f[1].event, "message", "event name resets after dispatch");
    assert_eq!(f[1].id.as_deref(), Some("9"), "last id carries forward");
    assert_eq!(p.last_id(), Some("9"));
}

#[test]
fn empty_data_does_not_dispatch() {
    let mut p = Parser::default();
    assert!(all(&mut p, "event: noop\n\n").is_empty());
    // the stale event name must not leak into the next frame
    assert_eq!(all(&mut p, "data: y\n\n")[0].event, "message");
}

#[test]
fn nul_in_id_is_ignored() {
    let mut p = Parser::default();
    let f = all(&mut p, "id: 3\ndata: a\n\nid: bad\0id\ndata: b\n\n");
    assert_eq!(f[1].id.as_deref(), Some("3"));
}

#[test]
fn single_leading_space_only_is_stripped() {
    let mut p = Parser::default();
    assert_eq!(all(&mut p, "data:  two spaces\n\n")[0].data, " two spaces");
}

#[test]
fn pump_stops_on_end_and_reports_lost_on_eof() {
    let mut p = Parser::default();
    let mut seen = vec![];
    let body = "id: 1\nevent: a\ndata: {}\n\nevent: end\ndata: {}\n\nid: 2\nevent: a\ndata: {}\n\n";
    let r = pump_reader(body.as_bytes(), &mut p, |f| {
        seen.push(f);
        true
    });
    assert_eq!(r, End::Terminal);
    assert_eq!(seen.len(), 1);

    let mut p = Parser::default();
    let r = pump_reader("id: 5\nevent: a\ndata: {}\n\n".as_bytes(), &mut p, |_| true);
    assert_eq!(r, End::Lost);
    assert_eq!(p.last_id(), Some("5"), "resume cursor survives a lost stream");
}

#[test]
fn resume_starts_from_the_cursor() {
    let p = Parser::resume(Some("12".to_string()));
    assert_eq!(p.last_id(), Some("12"));
    let mut p = Parser::resume(None);
    assert_eq!(p.last_id(), None);
    let f = p.feed(b"data: z\n\n");
    assert_eq!(f[0].id, None);
}

#[test]
fn split_chunks_give_the_same_frames() {
    let body = b"id: 1\nevent: a\ndata: x\n\nid: 2\ndata: y\ndata: z\n\n";
    let mut whole = Parser::default();
    let a = whole.feed(body);
    for cut in 0..body.len() {
        let mut p = Parser::default();
        let mut b = p.feed(&body[..cut]);
        b.extend(p.feed(&body[cut..]));
        assert_eq!(a, b, "cut at {cut}");
        assert_eq!(p.last_id(), whole.last_id());
    }
}

#[test]
fn stop_from_the_consumer_is_reported() {
    let mut p = Parser::default();
    let mut seen = 0;
    let r = pump_reader(b"data: 1\n\ndata: 2\n\n", &mut p, |_f: Frame| {
        seen += 1;
        false
    });
    assert_eq!(r, End::Stopped);
    assert_eq!(seen, 1);
}

#[test]
fn one_read_hands_on_frames_before_end_only() {
    let mut p = Parser::default();
    let (frames, done) = pump(&mut p, b"data: 1\n\nevent: end\ndata: {}\n\ndata: 3\n\n");
    assert_eq!(frames, vec![Frame { id: None, event: "message".into(), data: "1".into() }]);
    assert_eq!(done, Some(End::Terminal));
    let (frames, done) = pump(&mut p, b"data: 4\n\n");
    assert_eq!(frames.len(), 1);
    assert_eq!(done, None);
    let (frames, done) = pump(&mut p, b"");
    assert!(frames.is_empty());
    assert_eq!(done, Some(End::Lost));
}

#[test]
fn empty_event_name_dispatches_as_message() {
    let mut p = Parser::default();
    let f = all(&mut p, "event:\ndata: x\n\n");
    assert_eq!(f, vec![Frame { id: None, event: "message".into(), data: "x".into() }]);
}

#[test]
fn a_resumed_parser_names_unnamed_frames_by_its_cursor() {
    let body = b"data: z\n\nid: 3\ndata: q\n\ndata: r\n\n";
    let mut fresh = Parser::default();
    let plain = fresh.feed(body);
    let mut p = Parser::resume(Some("12".to_string()));
    let resumed = p.feed(body);
    assert_eq!(plain[0].id, None);
    assert_eq!(resumed[0].id.as_deref(), Some("12"));
    assert_eq!(resumed[1].id.as_deref(), Some("3"));
    assert_eq!(resumed[2].id.as_deref(), Some("3"));
    assert_eq!(plain[1..], resumed[1..]);
    assert_eq!(p.last_id(), fresh.last_id());
}

#[test]
fn the_cursor_is_the_last_complete_id_line_without_nul() {
    let mut p = Parser::resume(Some("0".to_string()));
    p.feed(b"id: 1\nid: a\0b\nid: 2\r\nid: 9");
    assert_eq!(p.last_id(), Some("2"));
    let mut p = Parser::resume(Some("0".to_string()));
    p.feed(b": comment\ndata: x\n");
    assert_eq!(p.last_id(), Some("0"));
}

#[test]
fn a_stream_hands_on_the_same_frames_however_it_is_cut_into_reads() {
    let body = b"id: 1\nevent: a\ndata: x\n\nid: 2\ndata: y\n\nevent: end\ndata: {}\n\nid: 3\ndata: z\n\n";
    for size in 1..body.len() {
        let mut p = Parser::default();
        let mut seen = vec![];
        let mut end = None;
        for chunk in body.chunks(size) {
            let (frames, done) = pump(&mut p, chunk);
            seen.extend(frames);
            if done.is_some() {
                end = done;
                break;
            }
        }
        assert_eq!(end, Some(End::Terminal), "reads of {size}");
        assert_eq!(seen.iter().map(|f| f.data.as_str()).collect::<Vec<_>>(), vec!["x", "y"], "reads of {size}");
    }
}

#[test]
fn the_cursor_over_many_chunks_is_the_last_complete_id_line() {
    let body = b"id: 1\ndata: a\n\nid: x\0y\ndata: b\n\nid: 7\r\ndata: c\n\nid: 9";
    for size in 1..body.len() {
        let mut p = Parser::resume(Some("0".to_string()));
        for chunk in body.chunks(size) {
            p.feed(chunk);
        }
        assert_eq!(p.last_id(), Some("7"), "chunks of {size}");
    }
}
