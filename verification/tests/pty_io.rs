use optix::kitty::{KittyAction, KITTY_MARKER};
use optix::pty_io::{
    allocate_kitty_cells, mark_kitty_cells, ApcScanner, IoTurn, PollOutcome, PtyEffect, PtyMsg,
    ReadNext, ReadOutcome, WindowSize,
};

#[test]
fn scanner_finds_apc_split_across_chunks() {
    let mut s = ApcScanner::default();
    let mut out = Vec::new();

    // Cursor move, then the start of an APC mid-chunk.
    s.scan(b"\x1b[3;1H\x1b_Ga=T;abc", &mut out);
    assert!(out.is_empty());

    // APC body continues, terminates, then ordinary bytes follow.
    s.scan(b"def\x1b\\rest", &mut out);
    assert_eq!(out.len(), 1);
    let (offset, payload) = &out[0];
    assert_eq!(&payload[..], b"Ga=T;abcdef");
    // `\\` is index 4; offset points just past it.
    assert_eq!(*offset, 5);
}

#[test]
fn scanner_ignores_ordinary_esc_sequences() {
    let mut s = ApcScanner::default();
    let mut out = Vec::new();
    s.scan(b"\x1b[2J\x1b[31mhi \x1b[0m", &mut out);
    assert!(out.is_empty());
}

#[test]
fn scanner_handles_terminator_across_boundary() {
    let mut s = ApcScanner::default();
    let mut out = Vec::new();
    s.scan(b"pre\x1b_abc\x1b", &mut out);
    assert!(out.is_empty());
    s.scan(b"\\post", &mut out);
    assert_eq!(out.len(), 1);
    let (offset, payload) = &out[0];
    assert_eq!(&payload[..], b"abc");
    assert_eq!(*offset, 1);
}

#[test]
fn any_chunking_finds_the_same_commands() {
    let stream = b"a\x1b_one\x1b\\b\x1b_t\x1bwo\x1b\\c";
    let mut whole = Vec::new();
    ApcScanner::default().scan(stream, &mut whole);
    assert_eq!(whole, vec![(8, b"one".to_vec()), (17, b"t\x1bwo".to_vec())]);
    for cut in 0..=stream.len() {
        let mut s = ApcScanner::default();
        let mut first = Vec::new();
        let mut second = Vec::new();
        s.scan(&stream[..cut], &mut first);
        s.scan(&stream[cut..], &mut second);
        let mut all = first;
        all.extend(second.into_iter().map(|(at, p)| (at + cut, p)));
        assert_eq!(all, whole);
    }
}

#[test]
fn single_bytes_find_the_same_commands() {
    let stream = b"a\x1b_one\x1b\\b\x1b_t\x1bwo\x1b\\c";
    let mut s = ApcScanner::default();
    let mut payloads = Vec::new();
    for byte in stream.chunks(1) {
        let mut found = Vec::new();
        s.scan(byte, &mut found);
        payloads.extend(found.into_iter().map(|(_, payload)| payload));
    }
    assert_eq!(payloads, vec![b"one".to_vec(), b"t\x1bwo".to_vec()]);
}

#[test]
fn parts_feed_every_byte() {
    let stream = b"ab\x1b_x\x1b\\cd";
    let mut s = ApcScanner::default();
    let parts = s.parts(stream);
    assert_eq!(parts.len(), 2);
    assert_eq!(parts[0].feed, b"ab\x1b_x\x1b\\");
    assert_eq!(parts[0].command.as_deref(), Some(&b"x"[..]));
    assert_eq!(parts[1].feed, b"cd");
    assert!(parts[1].command.is_none());
}

#[test]
fn cells_are_filled_line_by_line() {
    let m = KITTY_MARKER;
    let bytes = allocate_kitty_cells(2, 1, 2, 2, 10, 10);
    assert_eq!(String::from_utf8(bytes).unwrap(), format!("\x1b[2;3H{m}{m}\x1b[3;3H{m}{m}"));
    let clipped = allocate_kitty_cells(9, 9, 5, 5, 10, 10);
    assert_eq!(String::from_utf8(clipped).unwrap(), format!("\x1b[10;10H{m}"));
    assert!(allocate_kitty_cells(10, 0, 1, 1, 10, 10).is_empty());
    assert!(allocate_kitty_cells(0, -1, 1, 1, 10, 10).is_empty());
    assert!(allocate_kitty_cells(0, 0, 0, 1, 10, 10).is_empty());
    let marked = mark_kitty_cells((4, 6), 0, 0, 1, 1, 10, 10);
    assert_eq!(String::from_utf8(marked).unwrap(), format!("\x1b[1;1H{m}\x1b[7;5H"));
}

#[test]
fn io_turns() {
    assert_eq!(IoTurn::after_poll(PollOutcome::Failed), (true, false));
    assert_eq!(IoTurn::after_poll(PollOutcome::Nothing), (false, false));
    assert_eq!(IoTurn::after_poll(PollOutcome::Readable), (false, true));

    let mut turn = IoTurn::new();
    assert_eq!(turn.on_read(ReadOutcome::Interrupted), ReadNext::Again);
    assert_eq!(turn.on_read(ReadOutcome::WouldBlock), ReadNext::Stop);
    assert!(!turn.finish().wake && !turn.finish().stop);
    assert_eq!(turn.on_read(ReadOutcome::Data), ReadNext::Process);
    assert!(turn.finish().wake && !turn.finish().stop);
    assert_eq!(turn.on_read(ReadOutcome::Closed), ReadNext::Stop);
    let end = turn.finish();
    assert!(end.announce_exit && end.stop);

    let mut turn = IoTurn::new();
    let actions = vec![KittyAction::Respond, KittyAction::Nothing, KittyAction::Respond];
    let answer = b"\x1b_Gi=1;OK\x1b\\";
    assert_eq!(turn.on_actions(&actions), [&answer[..], &answer[..]].concat());
    assert!(!turn.dirty);
    assert!(turn.on_actions(&vec![KittyAction::Changed]).is_empty());
    assert!(turn.dirty);

    let size = WindowSize { num_lines: 24, num_cols: 80, cell_width: 8, cell_height: 16 };
    assert_eq!(turn.on_message(PtyMsg::Resize(size)), PtyEffect::Resize(size));
    assert_eq!(turn.on_message(PtyMsg::Write(vec![1])), PtyEffect::Write(vec![1]));
    assert_eq!(turn.on_message(PtyMsg::Shutdown), PtyEffect::Stop);
    let end = turn.finish();
    assert!(end.stop && !end.announce_exit);
    assert_eq!(turn.on_read(ReadOutcome::Failed), ReadNext::Stop);
    assert!(turn.exited);
}
