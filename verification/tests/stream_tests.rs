use iron_mask_proxy::relay::{upstream_response_status, RelaySession, SessionPhase};
use iron_mask_proxy::stream::{mask_unit, LineBuffer};

#[test]
fn test_line_buffer_cuts_at_last_newline() {
    let mut buf = LineBuffer::new();
    let unit = buf.append(b"alpha\nbeta\ngam");
    let unit = unit.expect("a complete line should be emitted");
    assert_eq!(unit, b"alpha\nbeta\n");
    assert_eq!(*unit.last().unwrap(), b'\n');

    let tail = buf.flush().expect("the partial tail should flush");
    assert_eq!(tail, b"gam");
}

#[test]
fn test_line_buffer_no_newline_keeps_growing() {
    let mut buf = LineBuffer::new();
    assert!(buf.append(b"abc").is_none());
    assert!(buf.append(b"def").is_none());
    let tail = buf.flush().expect("buffered bytes flush at the end");
    assert_eq!(tail, b"abcdef");
    assert!(buf.flush().is_none());
}

#[test]
fn test_line_buffer_conservation() {
    let chunks: [&[u8]; 5] = [b"one\ntw", b"o\nthr", b"ee", b"\n", b"tail"];
    let mut buf = LineBuffer::new();
    let mut emitted: Vec<u8> = Vec::new();
    for chunk in chunks {
        if let Some(unit) = buf.append(chunk) {
            assert_eq!(*unit.last().unwrap(), b'\n');
            emitted.extend_from_slice(&unit);
        }
    }
    if let Some(unit) = buf.flush() {
        emitted.extend_from_slice(&unit);
    }
    let all: Vec<u8> = chunks.concat();
    assert_eq!(emitted, all);
}

#[test]
fn test_mask_unit_decodes_and_masks() {
    let masked = mask_unit(b"Phone: 0812345678\n");
    assert!(masked.contains("081XXXXX78"));
}

#[test]
fn test_mask_unit_lossy_on_invalid_bytes() {
    let mut bytes: Vec<u8> = Vec::new();
    bytes.extend_from_slice(b"id 1103700012346 ");
    bytes.push(0xFF);
    bytes.push(b'\n');
    let masked = mask_unit(&bytes);
    assert!(masked.contains("110XXXXXX2346"));
}

#[test]
fn test_relay_session_masks_complete_lines() {
    let mut session = RelaySession::new();
    assert!(matches!(session.phase_now(), SessionPhase::Receiving));

    let unit = session.on_chunk(b"Phone: 08123");
    assert!(unit.is_none());
    let unit = session.on_chunk(b"45678\nEmail: test@test.com");
    let unit = unit.expect("the completed line should come out masked");
    assert!(unit.contains("081XXXXX78"));

    let last = session.on_end().expect("the tail should flush on end");
    assert!(last.contains("te***@test.com"));
    assert!(matches!(session.phase_now(), SessionPhase::Drained));
}

#[test]
fn test_relay_session_cuts_at_last_newline() {
    let mut session = RelaySession::new();
    let unit = session.on_chunk(b"alpha\nbeta\ngam");
    let unit = unit.expect("both completed lines should come out as one unit");
    assert_eq!(unit, "alpha\nbeta\n");
    let last = session.on_end().expect("the partial tail should flush");
    assert_eq!(last, "gam");
}

#[test]
fn test_relay_session_error_stops_without_flushing() {
    let mut session = RelaySession::new();
    let first = session.on_chunk(b"id 1103700012346\npartial tail");
    let first = first.expect("the complete line should come out masked");
    assert!(first.contains("110XXXXXX2346"));

    session.on_error();
    assert!(matches!(session.phase_now(), SessionPhase::Failed));
}

#[test]
fn test_upstream_status_mapping() {
    assert_eq!(upstream_response_status(Some(200)), 200);
    assert_eq!(upstream_response_status(Some(404)), 404);
    assert_eq!(upstream_response_status(None), 502);
}
