use llmperf::api::sse::{process_line, Sse, SseDecoder, SseError, SseItem};

/// The items as comparable text: `E:` events, `C:` comments, `DONE`, `ERR`.
fn render(items: &[SseItem]) -> Vec<String> {
    items
        .iter()
        .map(|i| match i {
            Ok(Sse::Event(s)) => format!("E:{s}"),
            Ok(Sse::Comment(s)) => format!("C:{s}"),
            Ok(Sse::Done) => "DONE".to_string(),
            Err(SseError::InvalidUtf8) => "ERR".to_string(),
        })
        .collect()
}

fn decode_chunks(chunks: &[&[u8]]) -> (Vec<String>, bool) {
    let mut d = SseDecoder::new();
    let mut all = Vec::new();
    for c in chunks {
        all.extend(render(&d.feed(c)));
    }
    (all, d.is_finished())
}

const STREAM: &[u8] = b"data: {\"choices\":[{\"index\":0,\"delta\":{\"content\":\" Hello\"}}]}\r\n\r\n\
: keep-alive\r\n\r\n\
data: {\"choices\":[{\"finish_reason\":\"stop\",\"index\":0,\"delta\":{}}]}\r\n\r\n\
data: [DONE]\r\n\r\n";

#[test]
fn decodes_events_comments_and_done() {
    let (items, finished) = decode_chunks(&[STREAM]);
    assert_eq!(
        items,
        vec![
            "E:{\"choices\":[{\"index\":0,\"delta\":{\"content\":\" Hello\"}}]}".to_string(),
            "C:keep-alive".to_string(),
            "E:{\"choices\":[{\"finish_reason\":\"stop\",\"index\":0,\"delta\":{}}]}".to_string(),
            "DONE".to_string(),
        ]
    );
    assert!(finished);
}

#[test]
fn chunk_boundaries_do_not_matter() {
    let (whole, whole_finished) = decode_chunks(&[STREAM]);
    for cut in 0..=STREAM.len() {
        let (a, b) = STREAM.split_at(cut);
        let (split, split_finished) = decode_chunks(&[a, b]);
        assert_eq!(split, whole, "cut at {cut}");
        assert_eq!(split_finished, whole_finished);
    }
    let bytes: Vec<&[u8]> = STREAM.chunks(1).collect();
    assert_eq!(decode_chunks(&bytes).0, whole);
}

#[test]
fn crlf_split_across_chunks_is_one_line_end() {
    let (items, _) = decode_chunks(&[b"data: a\r", b"\n\r", b"\n"]);
    assert_eq!(items, vec!["E:a".to_string()]);
}

#[test]
fn lf_cr_and_crlf_line_ends_agree() {
    let lf = decode_chunks(&[b"data: x\n\ndata: y\n\n"]).0;
    let cr = decode_chunks(&[b"data: x\r\rdata: y\r\r"]).0;
    let crlf = decode_chunks(&[b"data: x\r\n\r\ndata: y\r\n\r\n"]).0;
    assert_eq!(lf, vec!["E:x".to_string(), "E:y".to_string()]);
    assert_eq!(cr, lf);
    assert_eq!(crlf, lf);
}

#[test]
fn later_data_line_replaces_pending_payload() {
    let (items, _) = decode_chunks(&[b"data: first\ndata: second\n\n"]);
    assert_eq!(items, vec!["E:second".to_string()]);
}

#[test]
fn nothing_after_done_is_decoded() {
    let (items, finished) = decode_chunks(&[b"data: [DONE]\n", b"data: late\n\n"]);
    assert_eq!(items, vec!["DONE".to_string()]);
    assert!(finished);
}

#[test]
fn done_marker_may_carry_surrounding_spaces() {
    let (items, _) = decode_chunks(&[b"data:  [DONE] \n"]);
    assert_eq!(items, vec!["DONE".to_string()]);
}

#[test]
fn invalid_utf8_line_ends_the_stream() {
    let (items, finished) = decode_chunks(&[b"data: \xff\xfe\n", b"data: ok\n\n"]);
    assert_eq!(items, vec!["ERR".to_string()]);
    assert!(finished);
}

#[test]
fn unknown_fields_and_empty_data_are_ignored() {
    let (items, finished) = decode_chunks(&[b"event: message\nid: 3\ndata: \n\n"]);
    assert!(items.is_empty());
    assert!(!finished);
}

#[test]
fn incomplete_line_waits_for_its_end() {
    let mut d = SseDecoder::new();
    assert!(d.feed(b"data: partial").is_empty());
    assert!(!d.is_finished());
    assert_eq!(render(&d.feed(b"\n\n")), vec!["E:partial".to_string()]);
}

#[test]
fn process_line_dispatches_on_blank_line() {
    let mut pending = None;
    assert!(matches!(process_line(b"data: abc", &mut pending), Ok(None)));
    assert_eq!(pending.as_deref(), Some("abc"));
    match process_line(b"", &mut pending) {
        Ok(Some(Sse::Event(s))) => assert_eq!(s, "abc"),
        other => panic!("unexpected {other:?}"),
    }
    assert_eq!(pending, None);
    assert!(matches!(process_line(b"", &mut pending), Ok(None)));
}

#[test]
fn process_line_reads_comment_and_rejects_invalid_utf8() {
    let mut pending = Some("kept".to_string());
    match process_line(b": ping", &mut pending) {
        Ok(Some(Sse::Comment(s))) => assert_eq!(s, "ping"),
        other => panic!("unexpected {other:?}"),
    }
    assert!(matches!(
        process_line(&[0x64, 0xc3, 0x28], &mut pending),
        Err(SseError::InvalidUtf8)
    ));
    assert_eq!(pending.as_deref(), Some("kept"));
    match process_line("data: h\u{e9}llo".as_bytes(), &mut pending) {
        Ok(None) => assert_eq!(pending.as_deref(), Some("h\u{e9}llo")),
        other => panic!("unexpected {other:?}"),
    }
}

#[test]
fn mixed_line_endings_and_any_chunking_give_the_same_items() {
    let lines: [&[u8]; 6] = [b"data: one", b"", b": note", b"", b"data: [DONE]", b"data: late"];
    let endings: [&[u8]; 3] = [b"\n", b"\r", b"\r\n"];
    let expected = vec!["E:one".to_string(), "C:note".to_string(), "DONE".to_string()];
    for pick in 0..(3usize.pow(6)) {
        let mut body = Vec::new();
        let mut p = pick;
        let mut prev_cr = false;
        let mut ok = true;
        for l in lines {
            let e = endings[p % 3];
            p /= 3;
            if prev_cr && l.is_empty() && e == b"\n" {
                ok = false;
            }
            prev_cr = e == b"\r";
            body.extend_from_slice(l);
            body.extend_from_slice(e);
        }
        if !ok {
            continue;
        }
        assert_eq!(decode_chunks(&[&body]).0, expected, "endings {pick}");
        let cut = pick % (body.len() + 1);
        let (a, b) = body.split_at(cut);
        assert_eq!(decode_chunks(&[a, b]).0, expected, "endings {pick}, cut {cut}");
    }
}
