use alacritty_terminal::event::{Event, EventListener, VoidListener};
use alacritty_terminal::grid::Dimensions;
use alacritty_terminal::index::{Column, Line, Point};
use alacritty_terminal::term::{Config as TermConfig, Term};
use alacritty_terminal::vte::ansi::{Processor, StdSyncHandler};
use base64::Engine as _;
use optix::kitty::{
    decode_image, decode_raw, parse_control, parse_header, parse_size, split_command, KittyAction,
    KittyStep, KittyStore, Pixels, Placement, Screen, KITTY_MARKER,
};
use optix::pty_io::{allocate_kitty_cells, mark_kitty_cells, ApcScanner};

struct PaneSize {
    columns: usize,
    screen_lines: usize,
}

impl Dimensions for PaneSize {
    fn total_lines(&self) -> usize {
        self.screen_lines
    }
    fn screen_lines(&self) -> usize {
        self.screen_lines
    }
    fn columns(&self) -> usize {
        self.columns
    }
}

fn tiny_png() -> Vec<u8> {
    let mut img = image::RgbaImage::new(4, 3);
    for px in img.pixels_mut() {
        *px = image::Rgba([200, 50, 90, 255]);
    }
    let mut buf = Vec::new();
    img.write_to(&mut std::io::Cursor::new(&mut buf), image::ImageFormat::Png).unwrap();
    buf
}

fn encode(bytes: &[u8]) -> String {
    base64::engine::general_purpose::STANDARD.encode(bytes)
}

fn number(text: &Option<String>) -> Option<f32> {
    text.as_ref().map(|t| t.parse().unwrap())
}

/// The cell box of a placement, as the window works it out.
fn cell_box(p: &Placement, width: u32, height: u32) -> (usize, usize) {
    let aspect = if width > 0 { height as f32 / width as f32 } else { 1.0 };
    let inv = if height > 0 { width as f32 / height as f32 } else { 1.0 };
    let (cols, rows) = match (number(&p.cells_w), number(&p.cells_h)) {
        (Some(c), Some(r)) => (c, r),
        (Some(c), None) => (c, c * aspect * 0.5),
        (None, Some(r)) => (r * inv / 0.5, r),
        (None, None) => {
            let w = number(&p.px_w).unwrap_or(width as f32);
            let h = number(&p.px_h).unwrap_or(height as f32);
            let c = w / 10.0;
            (c, c * h / w / 0.5)
        },
    };
    (cols.max(1.0).ceil() as usize, rows.max(1.0).ceil() as usize)
}

/// Carries a payload through, answering file and measure jobs.
fn run(
    store: &mut KittyStore,
    payload: &[u8],
    cursor: (usize, isize),
    file: Option<(&str, Vec<u8>)>,
) -> KittyAction {
    assert!(store.has_room());
    let mut step = store.handle(payload, cursor);
    loop {
        match step {
            KittyStep::Done(action) => return action,
            KittyStep::Read(job) => {
                let bytes = match &file {
                    Some((path, bytes)) if *path == job.path() => Some(bytes.clone()),
                    _ => None,
                };
                step = store.read_file(job, bytes);
            },
            KittyStep::Measure(job) => {
                let x = number(&job.x).unwrap_or(0.0) as usize;
                let y = number(&job.y).unwrap_or(0.0) as isize;
                let (cols, rows) = cell_box(&job.placement, job.width, job.height);
                return store.place(job, x, y, cols, rows);
            },
        }
    }
}

fn send(store: &mut KittyStore, payload: &str, cursor: (usize, isize)) -> KittyAction {
    run(store, payload.as_bytes(), cursor, None)
}

#[test]
fn fastfetch_style_inline_transmit_and_place() {
    let b64 = encode(&tiny_png());
    let payload = format!("Ga=T,f=100,i=1,c=4,r=3,m=0;{b64}");

    let mut store = KittyStore::new();
    let action = run(&mut store, payload.as_bytes(), (0, 2), None);
    assert!(matches!(action, KittyAction::Place { col: 0, row: 2, cols: 4, rows: 3 }));
    assert_eq!(store.images.len(), 1);
    assert_eq!(store.placements.len(), 1);

    let p = &store.placements[0];
    assert_eq!(p.col, 0);
    assert_eq!(p.row, 2);
    assert_eq!(number(&p.cells_w), Some(4.0));
    assert_eq!(number(&p.cells_h), Some(3.0));

    let img = &store.images[&1];
    assert_eq!((img.width, img.height), (4, 3));
    assert_eq!(img.rgba.len(), 48);
    assert_eq!(&img.rgba[..4], &[200, 50, 90, 255]);
}

#[test]
fn fastfetch_style_file_transmit_then_place() {
    let path = "/tmp/optix-kitty-test/logo.png";
    let b64_path = encode(path.as_bytes());
    let logo = Some((path, tiny_png()));

    let mut store = KittyStore::new();

    // Transmit-only from file, recording the cell size at transmit time.
    let transmit = format!("Ga=t,f=100,t=f,c=40,r=25,i=9,z=-1,m=0;{b64_path}");
    assert_eq!(
        run(&mut store, transmit.as_bytes(), (0, 2), logo.clone()),
        KittyAction::Changed
    );
    assert_eq!(store.images.len(), 1);
    assert!(store.placements.is_empty(), "a=t transmits but does not place");

    // Place at the cursor; size comes from the transmit-time c/r.
    assert_eq!(
        run(&mut store, b"Ga=p,i=9,q=2,m=0", (0, 3), None),
        KittyAction::MarkCells { col: 0, row: 3, cols: 40, rows: 25 }
    );
    assert_eq!(store.placements.len(), 1);
    let p = &store.placements[0];
    assert_eq!(p.col, 0);
    assert_eq!(p.row, 3);
    assert_eq!(number(&p.cells_w), Some(40.0));
    assert_eq!(number(&p.cells_h), Some(25.0));

    // Transmit + display in one shot (a=T): places at the cursor.
    let display = format!("Ga=T,f=100,t=f,c=20,r=10,i=10,z=-1,m=0;{b64_path}");
    assert!(matches!(
        run(&mut store, display.as_bytes(), (0, 5), logo),
        KittyAction::Place { col: 0, row: 5, cols: 20, rows: 10 }
    ));
    let p2 = &store.placements[1];
    assert_eq!((p2.col, p2.row), (0, 5));
    assert_eq!(number(&p2.cells_w), Some(20.0));
    assert_eq!(p2.z, -1);
}

#[test]
fn chunked_transmit_reassembles_payload() {
    let b64 = encode(&tiny_png());
    let (a, b) = b64.split_at(b64.len() / 2);

    let mut store = KittyStore::new();
    let p1 = format!("a=t,f=100,s=4,3,i=7,m=1;{a}");
    assert_eq!(send(&mut store, &p1, (0, 0)), KittyAction::Nothing);
    assert!(store.images.is_empty());

    let p2 = format!("m=0;{b}");
    assert_eq!(send(&mut store, &p2, (0, 0)), KittyAction::Changed);
    assert_eq!(store.images.len(), 1);
    assert_eq!(store.images[&7].width, 4);
}

#[test]
fn cut_transmissions_match_whole_ones() {
    let b64 = encode(&tiny_png());
    for header in ["a=t,f=100,s=4,3,i=7", "Gi=7,a=t"] {
        for mark in ["", "G"] {
            for cut in [0, 1, 9, b64.len()] {
                let (x, y) = b64.split_at(cut);
                let mut parts = KittyStore::new();
                let first = format!("{header},m=1;{x}");
                assert_eq!(send(&mut parts, &first, (2, 3)), KittyAction::Nothing);
                assert!(parts.images.is_empty() && parts.placements.is_empty());
                let action = send(&mut parts, &format!("{mark}m=0;{y}"), (2, 3));
                let mut whole = KittyStore::new();
                assert_eq!(send(&mut whole, &format!("{header},m=0;{b64}"), (2, 3)), action);
                assert_eq!(parts.images[&7].rgba, whole.images[&7].rgba);
                assert_eq!(parts.images[&7].gen, whole.images[&7].gen);
            }
        }
    }
}

#[test]
fn any_number_of_chunks_reassembles() {
    let b64 = encode(&tiny_png());
    let mut store = KittyStore::new();
    let mut rest = b64.as_str();
    let mut control = "a=t,f=100,i=9,m=1";
    while rest.len() > 8 {
        let (head, tail) = rest.split_at(8);
        assert_eq!(send(&mut store, &format!("{control};{head}"), (0, 0)), KittyAction::Nothing);
        assert!(store.images.is_empty());
        rest = tail;
        control = "m=1";
    }
    assert_eq!(send(&mut store, &format!("m=0;{rest}"), (0, 0)), KittyAction::Changed);
    assert_eq!((store.images[&9].width, store.images[&9].height), (4, 3));
    assert_eq!(&store.images[&9].rgba[..4], &[200, 50, 90, 255]);
}

#[test]
fn capability_query_requests_response() {
    let mut store = KittyStore::new();
    assert_eq!(send(&mut store, "a=q,response=0", (0, 0)), KittyAction::Respond);
}

#[test]
fn delete_removes_image_and_placements() {
    let mut store = KittyStore::new();
    let b64 = encode(&tiny_png());
    send(&mut store, &format!("a=t,f=100,i=1,m=0;{b64}"), (0, 0));
    send(&mut store, "a=p,i=1,c=1,r=1,m=0", (0, 0));
    assert_eq!(store.placements.len(), 1);

    assert_eq!(send(&mut store, "a=d,i=1,m=0", (0, 0)), KittyAction::Changed);
    assert!(store.images.is_empty());
    assert!(store.placements.is_empty());
}

#[test]
fn delete_without_id_keeps_images() {
    let mut store = KittyStore::new();
    let b64 = encode(&tiny_png());
    send(&mut store, &format!("a=T,i=1;{b64}"), (0, 0));
    send(&mut store, &format!("a=T,i=2;{b64}"), (0, 0));
    assert_eq!(store.placements.len(), 2);
    send(&mut store, "a=d,i=2", (0, 0));
    assert_eq!(store.placements.len(), 1);
    assert_eq!(store.placements[0].image_id, 1);
    assert_eq!(send(&mut store, "a=d", (0, 0)), KittyAction::Changed);
    assert_eq!(store.images.len(), 1);
    assert!(store.placements.is_empty());
    store.clear();
    assert!(store.images.is_empty());
}

#[test]
fn raw_rgb_is_made_opaque() {
    let mut store = KittyStore::new();
    let data = encode(&[1, 2, 3, 4, 5, 6, 7]);
    assert_eq!(
        send(&mut store, &format!("a=t,f=24,s=2,v=1,i=3;{data}"), (0, 0)),
        KittyAction::Changed
    );
    assert_eq!(store.images[&3].rgba, vec![1, 2, 3, 255, 4, 5, 6, 255]);
    assert_eq!(store.images[&3].gen, 0);
    send(&mut store, &format!("a=t,f=24,s=1,2,i=3;{data}"), (0, 0));
    assert_eq!(store.images[&3].height, 2);
    assert_eq!(store.images[&3].gen, 1, "a replaced image has another generation");
}

#[test]
fn raw_data_must_be_long_enough() {
    assert!(decode_raw(&[0; 7], 32, Some((1, 2))).is_none());
    assert!(decode_raw(&[0; 8], 32, None).is_none());
    assert!(decode_raw(&[0; 8], 32, Some((u32::MAX, u32::MAX))).is_none());
    let Pixels { width, height, rgba } = decode_raw(&[9; 9], 32, Some((1, 2))).unwrap();
    assert_eq!((width, height, rgba), (1, 2, vec![9; 8]));
}

#[test]
fn compressed_payload_is_unpacked() {
    let mut store = KittyStore::new();
    // A zlib stream of one stored block that holds the bytes 1, 2, 3, 4.
    let packed = [0x78, 0x01, 0x01, 4, 0, 0xfb, 0xff, 1, 2, 3, 4, 0x00, 0x18, 0x00, 0x0b];
    let data = encode(&packed);
    assert_eq!(
        send(&mut store, &format!("f=32,s=1,1,o=z,i=5;{data}"), (0, 0)),
        KittyAction::Changed
    );
    assert_eq!(store.images[&5].rgba, vec![1, 2, 3, 4]);
    let broken = encode(&packed[..6]);
    assert_eq!(
        send(&mut store, &format!("f=32,s=1,1,o=z,i=6;{broken}"), (0, 0)),
        KittyAction::Nothing
    );
    assert_eq!(store.images.len(), 1);
}

#[test]
fn damaged_transmissions_change_nothing() {
    let mut store = KittyStore::new();
    assert_eq!(send(&mut store, "a=t;%%%", (0, 0)), KittyAction::Nothing);
    let text = encode(b"not an image");
    assert_eq!(send(&mut store, &format!("a=t;{text}"), (0, 0)), KittyAction::Nothing);
    let path = encode(b"/no/such/file");
    assert_eq!(send(&mut store, &format!("a=t,t=f;{path}"), (0, 0)), KittyAction::Nothing);
    let invalid = encode(&[0xff, 0xfe]);
    assert_eq!(send(&mut store, &format!("a=t,t=f;{invalid}"), (0, 0)), KittyAction::Nothing);
    assert_eq!(send(&mut store, "a=p,i=1", (0, 0)), KittyAction::Nothing);
    assert_eq!(send(&mut store, "a=x", (0, 0)), KittyAction::Nothing);
    assert!(store.images.is_empty() && store.placements.is_empty());
    assert!(decode_image(b"junk", 100, None).is_none());
}

#[test]
fn placements_go_where_they_are_asked_to() {
    let mut store = KittyStore::new();
    let b64 = encode(&tiny_png());
    send(&mut store, &format!("a=t,i=1;{b64}"), (0, 0));
    assert_eq!(
        send(&mut store, "a=p,i=1,X=3.7,Y=2,c=2,r=2", (9, 9)),
        KittyAction::MarkCells { col: 3, row: 2, cols: 2, rows: 2 }
    );
    assert_eq!(
        send(&mut store, "a=p,i=1,X=3,C=1,c=2", (9, 9)),
        KittyAction::MarkCells { col: 9, row: 9, cols: 2, rows: 1 }
    );
    assert_eq!(
        send(&mut store, "a=p,i=1,Y=oops,c=1,r=1", (9, 8)),
        KittyAction::MarkCells { col: 9, row: 8, cols: 1, rows: 1 }
    );
}

#[test]
fn control_data_is_parsed() {
    let kv = parse_control("a=T, s = 4,3 ,i=7,x");
    assert_eq!(kv.get("a"), Some("T".to_string()));
    assert_eq!(kv.get("s"), Some("4,3 ".to_string()));
    assert_eq!(kv.get("i"), Some("7,x".to_string()));
    assert_eq!(kv.get("m"), None);
    assert_eq!(parse_size(&parse_control("s=4,3")), Some((4, 3)));
    assert_eq!(parse_size(&parse_control("s=4,v=5")), Some((4, 5)));
    assert_eq!(parse_size(&parse_control("s=4,x,v=5")), None);
    let header = parse_header(&parse_control("c=1.5e1,r=abc,w=inf,h=.5,z=-7,f=24"));
    assert_eq!(header.cells_w.as_deref(), Some("1.5e1"));
    assert_eq!(header.cells_h, None);
    assert_eq!(header.px_w.as_deref(), Some("inf"));
    assert_eq!(header.px_h.as_deref(), Some(".5"));
    assert_eq!((header.z, header.format, header.image_id), (-7, 24, 0));
    assert_eq!(split_command(b"Ga=t;x;y"), (b"a=t".to_vec(), b"x;y".to_vec()));
    assert_eq!(split_command(b"a=t"), (b"a=t".to_vec(), vec![]));
}

#[test]
fn control_data_need_not_be_valid_text() {
    let mut store = KittyStore::new();
    assert_eq!(
        run(&mut store, b"a=q,x=\xff", (0, 0), None),
        KittyAction::Respond
    );
}

/// The characters of a terminal's screen.
fn screen<T>(term: &Term<T>) -> Screen {
    let mut cells = Vec::new();
    for line in 0..term.screen_lines() {
        for column in 0..term.columns() {
            let point = Point { line: Line(line as i32), column: Column(column) };
            cells.push(term.grid()[point].c);
        }
    }
    Screen { columns: term.columns(), lines: term.screen_lines(), cells }
}

fn reconcile<T>(store: &mut KittyStore, term: &Term<T>) -> bool {
    let sizes: Vec<(usize, usize)> = store
        .placements
        .iter()
        .map(|p| match store.images.get(&p.image_id) {
            Some(img) => cell_box(p, img.width, img.height),
            None => (0, 0),
        })
        .collect();
    store.reconcile(&sizes, &screen(term))
}

#[test]
fn reconcile_drops_stale_placements() {
    let term_config = TermConfig { kitty_keyboard: false, ..TermConfig::default() };
    let dims = PaneSize { columns: 80, screen_lines: 24 };
    let mut term = Term::new(term_config, &dims, VoidListener);
    let mut parser = Processor::<StdSyncHandler>::new();
    let mut kitty = KittyStore::new();

    let b64 = encode(&tiny_png());
    let payload = format!("Ga=T,f=100,i=1,c=10,r=3,m=0;{b64}");
    let place = |kitty: &mut KittyStore| match send(kitty, &payload, (5, 5)) {
        KittyAction::Place { col, row, cols, rows } => {
            allocate_kitty_cells(col, row, cols, rows, 80, 24)
        },
        _ => panic!("expected Place"),
    };
    let cells = place(&mut kitty);
    parser.advance(&mut term, &cells);
    assert_eq!(kitty.placements.len(), 1);
    assert!(!reconcile(&mut kitty, &term), "intact placement must survive reconcile");
    assert_eq!(kitty.placements.len(), 1);

    // Text written over the box erases the placement.
    parser.advance(&mut term, b"\x1b[7;6Hoverwritten");
    assert!(reconcile(&mut kitty, &term), "overwritten placement must be dropped");
    assert!(kitty.placements.is_empty());

    // Re-place, then a full-screen clear erases it too.
    let cells = place(&mut kitty);
    parser.advance(&mut term, &cells);
    assert_eq!(kitty.placements.len(), 1);
    parser.advance(&mut term, b"\x1b[2J");
    assert!(reconcile(&mut kitty, &term), "cleared placement must be dropped");
    assert!(kitty.placements.is_empty());

    // Scrolling the content away erases it too.
    let cells = place(&mut kitty);
    parser.advance(&mut term, &cells);
    assert_eq!(kitty.placements.len(), 1);
    // Jump to the bottom line and emit LF to force a scroll-up by one.
    parser.advance(&mut term, b"\x1b[24;1H\n");
    assert!(reconcile(&mut kitty, &term), "scrolled placement must be dropped");
    assert!(kitty.placements.is_empty());

    // Anchor (`a=p`) placements are marked too, so they die the same way.
    send(&mut kitty, &format!("a=t,f=100,i=2,c=4,r=2,m=0;{b64}"), (0, 0));
    let action = send(&mut kitty, "a=p,i=2,m=0", (10, 10));
    let (col, row, cols, rows) = match action {
        KittyAction::MarkCells { col, row, cols, rows } => (col, row, cols, rows),
        _ => panic!("expected MarkCells"),
    };
    let before = term.grid().cursor.point;
    let cursor = (before.column.0, before.line.0 as usize);
    parser.advance(&mut term, &mark_kitty_cells(cursor, col, row, cols, rows, 80, 24));
    assert_eq!(term.grid().cursor.point, before, "marking does not move the cursor");
    assert_eq!(kitty.placements.len(), 1);
    assert!(!reconcile(&mut kitty, &term), "intact a=p placement must survive");
    parser.advance(&mut term, b"\x1b[2J");
    assert!(reconcile(&mut kitty, &term), "cleared a=p placement must be dropped");
    assert!(kitty.placements.is_empty());
}

struct Replies(std::sync::mpsc::Sender<String>);

impl EventListener for Replies {
    fn send_event(&self, event: Event) {
        if let Event::PtyWrite(text) = event {
            self.0.send(text).unwrap();
        }
    }
}

#[test]
fn fastfetch_kitty_direct_advances_cursor() {
    let mut img = image::RgbaImage::new(200, 145);
    for px in img.pixels_mut() {
        *px = image::Rgba([30, 120, 200, 255]);
    }
    let mut buf = Vec::new();
    img.write_to(&mut std::io::Cursor::new(&mut buf), image::ImageFormat::Png).unwrap();
    let path = "/tmp/optix-kitty-e2e/logo.png";
    let b64_path = encode(path.as_bytes());
    let stream = format!(
        "\x1b[2J\x1b[3J\x1b[3;3H\x1b_Ga=T,f=100,t=f,c=40;{b64_path}\x1b\\\x1b[6n"
    );

    let (tx, rx) = std::sync::mpsc::channel();
    let term_config = TermConfig { kitty_keyboard: false, ..TermConfig::default() };
    let dims = PaneSize { columns: 95, screen_lines: 46 };
    let mut term = Term::new(term_config, &dims, Replies(tx));
    let mut parser = Processor::<StdSyncHandler>::new();
    let mut kitty = KittyStore::new();

    let mut scanner = ApcScanner::default();
    let mut apc_buf = Vec::new();
    scanner.scan(stream.as_bytes(), &mut apc_buf);
    assert_eq!(apc_buf.len(), 1);
    let (offset, payload) = &apc_buf[0];

    parser.advance(&mut term, &stream.as_bytes()[..*offset]);
    let point = term.grid().cursor.point;
    let cursor = (point.column.0, point.line.0 as isize);
    let action = run(&mut kitty, payload, cursor, Some((path, buf)));
    assert!(matches!(action, KittyAction::Place { col: 2, row: 2, cols: 40, rows: _ }));
    if let KittyAction::Place { col, row, cols, rows } = action {
        parser.advance(&mut term, &allocate_kitty_cells(col, row, cols, rows, 95, 46));
    }
    parser.advance(&mut term, &stream.as_bytes()[*offset..]);

    // The cursor should now sit just past the image's bottom-right cell:
    // col 2 + 40 = 42 (0-based).
    assert_eq!(term.grid().cursor.point.column.0, 42);

    // The `\e[6n` response must report that column (1-based -> 43) and the
    // bottom row of the image (row 2 + 15 rows - 1 = 16 -> 17).
    assert_eq!(rx.try_recv().unwrap(), "\x1b[17;43R");
}

#[test]
fn only_the_visible_part_of_a_box_counts() {
    let b64 = encode(&tiny_png());
    let mut kitty = KittyStore::new();
    send(&mut kitty, &format!("a=T,i=1,c=3,r=3;{b64}"), (1, 1));
    let mut cells = vec![KITTY_MARKER; 4];
    cells[0] = 'x';
    let screen = Screen { columns: 2, lines: 2, cells };
    assert!(!kitty.reconcile(&vec![(3, 3)], &screen));
    let hidden = Screen { columns: 1, lines: 1, cells: vec!['x'] };
    assert!(!kitty.reconcile(&vec![(3, 3)], &hidden));
    let stale = Screen { columns: 2, lines: 2, cells: vec!['x'; 4] };
    assert!(kitty.reconcile(&vec![(3, 3)], &stale));
    assert!(kitty.placements.is_empty());
}
