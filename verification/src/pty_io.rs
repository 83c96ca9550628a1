//! What the reader and writer of a terminal pane decide.
//!
//! Graphics commands travel in application command sequences (`ESC _` ...
//! `ESC \`), which the terminal parser skips. The [`ApcScanner`] finds them in
//! the byte stream of a pane, whatever chunks it is read in, while every byte
//! still goes to the parser. [`IoTurn`] holds the decisions of one turn of the
//! I/O loop.
use vstd::prelude::*;
use vstd::string::*;
use vstd::utf8::*;

use crate::kitty::{KittyAction, KITTY_MARKER};
use crate::text::{decimal, push_decimal};

verus! {

/// The size of a pane in cells, and of a cell in pixels.
#[derive(Clone, Copy, PartialEq, Eq, Debug, Structural)]
pub struct WindowSize {
    pub num_lines: u16,
    pub num_cols: u16,
    pub cell_width: u16,
    pub cell_height: u16,
}

/// Commands from the interface to the I/O loop of a pane.
pub enum PtyMsg {
    Write(Vec<u8>),
    Resize(WindowSize),
    Shutdown,
}

// ---------------------------------------------------------------------------
// Scanning for application commands
// ---------------------------------------------------------------------------

/// Tracks a partly received application command across read chunks.
pub struct ApcScanner {
    in_apc: bool,
    esc_seen: bool,
    payload: Vec<u8>,
}

/// Where a scanner stands: inside a command or not, behind an escape or not,
/// and the payload of the command so far.
#[verifier::ext_equal]
pub struct ScanState {
    pub in_apc: bool,
    pub esc_seen: bool,
    pub payload: Seq<u8>,
}

impl View for ApcScanner {
    type V = ScanState;

    closed spec fn view(&self) -> ScanState {
        ScanState { in_apc: self.in_apc, esc_seen: self.esc_seen, payload: self.payload@ }
    }
}

/// The state of a scanner that has seen nothing.
pub open spec fn scan_start() -> ScanState {
    ScanState { in_apc: false, esc_seen: false, payload: seq![] }
}

/// Whether a byte ends the command that a scanner is in.
pub open spec fn completes(st: ScanState, b: u8) -> bool {
    st.in_apc && st.esc_seen && b == 0x5c
}

/// The state of a scanner after one more byte.
pub open spec fn scan_byte(st: ScanState, b: u8) -> ScanState {
    if b == 0x1b {
        ScanState { esc_seen: true, ..st }
    } else if completes(st, b) {
        scan_start()
    } else if st.in_apc {
        ScanState {
            esc_seen: false,
            payload: if st.esc_seen {
                st.payload + seq![0x1bu8, b]
            } else {
                st.payload.push(b)
            },
            ..st
        }
    } else if st.esc_seen && b == 0x5f {
        ScanState { in_apc: true, esc_seen: false, payload: seq![] }
    } else {
        ScanState { esc_seen: false, ..st }
    }
}

/// The state of a scanner after some bytes.
pub open spec fn scan_state(st: ScanState, bytes: Seq<u8>) -> ScanState
    decreases bytes.len(),
{
    if bytes.len() == 0 {
        st
    } else {
        scan_byte(scan_state(st, bytes.drop_last()), bytes.last())
    }
}

/// The commands that end within some bytes: the index just behind each, and its
/// payload.
pub open spec fn found(st: ScanState, bytes: Seq<u8>) -> Seq<(int, Seq<u8>)>
    decreases bytes.len(),
{
    if bytes.len() == 0 {
        seq![]
    } else {
        let before = scan_state(st, bytes.drop_last());
        let earlier = found(st, bytes.drop_last());
        if completes(before, bytes.last()) {
            earlier.push((bytes.len() as int, before.payload))
        } else {
            earlier
        }
    }
}

/// Found commands as plain sequences.
pub open spec fn found_views(v: Seq<(usize, Vec<u8>)>) -> Seq<(int, Seq<u8>)> {
    Seq::new(v.len(), |i: int| (v[i].0 as int, v[i].1@))
}

/// A part of a chunk: bytes for the parser, then perhaps a command.
pub struct ChunkPart {
    pub feed: Vec<u8>,
    pub command: Option<Vec<u8>>,
}

/// The bytes that the parts of a chunk hand to the parser, in order.
pub open spec fn fed(parts: Seq<ChunkPart>) -> Seq<u8>
    decreases parts.len(),
{
    if parts.len() == 0 {
        seq![]
    } else {
        fed(parts.drop_last()) + parts.last().feed@
    }
}

/// Whether parts cut a chunk behind each found command: each part but the last
/// ends with one, and the last holds what is left.
pub open spec fn cuts(
    parts: Seq<ChunkPart>,
    bytes: Seq<u8>,
    commands: Seq<(int, Seq<u8>)>,
) -> bool {
    &&& parts.len() == commands.len() + 1
    &&& forall|i: int|
        0 <= i < commands.len() ==> {
            &&& (#[trigger] parts[i]).feed@ == bytes.subrange(
                part_start(commands, i),
                commands[i].0,
            )
            &&& parts[i].command matches Some(payload) && payload@ == commands[i].1
        }
    &&& parts.last().feed@ == bytes.skip(part_start(commands, commands.len() as int))
    &&& parts.last().command is None
}

/// Where the part before the found command `i` starts.
pub open spec fn part_start(commands: Seq<(int, Seq<u8>)>, i: int) -> int {
    if i == 0 {
        0
    } else {
        commands[i - 1].0
    }
}

/// Found commands end one behind the other, within the bytes.
proof fn lemma_found_bounds(st: ScanState, bytes: Seq<u8>)
    ensures
        forall|i: int|
            0 <= i < found(st, bytes).len() ==> 0 < (#[trigger] found(st, bytes)[i]).0
                <= bytes.len(),
        forall|i: int, j: int|
            0 <= i < j < found(st, bytes).len() ==> (#[trigger] found(st, bytes)[i]).0 < (
            #[trigger] found(st, bytes)[j]).0,
    decreases bytes.len(),
{
    if bytes.len() > 0 {
        lemma_found_bounds(st, bytes.drop_last());
        let earlier = found(st, bytes.drop_last());
        let all = found(st, bytes);
        assert(forall|i: int| 0 <= i < earlier.len() ==> #[trigger] all[i] == earlier[i]);
        assert(forall|i: int| earlier.len() <= i < all.len() ==> (#[trigger] all[i]).0
            == bytes.len());
    }
}

/// Part `i` starts before it ends.
proof fn lemma_part_start(st: ScanState, bytes: Seq<u8>, i: int)
    requires
        0 <= i <= found(st, bytes).len(),
    ensures
        0 <= part_start(found(st, bytes), i) <= bytes.len(),
        i < found(st, bytes).len() ==> part_start(found(st, bytes), i) <= found(st, bytes)[i].0
            <= bytes.len(),
{
    lemma_found_bounds(st, bytes);
}

impl Default for ApcScanner {
    fn default() -> (r: ApcScanner)
        ensures
            r@ == scan_start(),
    {
        ApcScanner { in_apc: false, esc_seen: false, payload: Vec::new() }
    }
}

impl ApcScanner {
    /// Scan a chunk of raw bytes. Completed commands are pushed as `(offset,
    /// payload)`, where `offset` is the index in this chunk just past the
    /// terminator, i.e. where the next other byte begins.
    pub fn scan(&mut self, bytes: &[u8], out: &mut Vec<(usize, Vec<u8>)>)
        ensures
            final(self)@ == scan_state(old(self)@, bytes@),
            found_views(final(out)@) == found_views(old(out)@) + found(old(self)@, bytes@),
    {
        let ghost start = self@;
        let ghost given = found_views(out@);
        let mut i: usize = 0;
        assert(bytes@.take(0) =~= Seq::empty());
        while i < bytes.len()
            invariant
                i <= bytes@.len(),
                self@ == scan_state(start, bytes@.take(i as int)),
                found_views(out@) == given + found(start, bytes@.take(i as int)),
            decreases bytes@.len() - i,
        {
            let b = bytes[i];
            let ghost before = self@;
            let ghost so_far = found_views(out@);
            proof {
                assert(bytes@.take(i + 1).drop_last() =~= bytes@.take(i as int));
                assert(bytes@.take(i + 1).last() == b);
            }
            i += 1;
            if b == 0x1b {
                self.esc_seen = true;
            } else if self.in_apc && self.esc_seen && b == 0x5c {
                let mut payload: Vec<u8> = Vec::new();
                std::mem::swap(&mut payload, &mut self.payload);
                self.in_apc = false;
                self.esc_seen = false;
                out.push((i, payload));
                assert(found_views(out@) =~= so_far.push((i as int, before.payload)));
                assert(found_views(out@) =~= given + found(start, bytes@.take(i as int)));
            } else if self.in_apc {
                if self.esc_seen {
                    self.payload.push(0x1b);
                }
                self.payload.push(b);
                self.esc_seen = false;
                assert(self@.payload =~= scan_byte(before, b).payload);
            } else if self.esc_seen && b == 0x5f {
                self.in_apc = true;
                self.esc_seen = false;
                self.payload.clear();
            } else {
                self.esc_seen = false;
            }
            assert(self@ =~= scan_byte(before, b));
        }
        assert(bytes@.take(i as int) =~= bytes@);
    }

    /// Scan a chunk and cut it behind each completed command, so that the
    /// parser can be fed up to a command before the command is carried out.
    pub fn parts(&mut self, bytes: &[u8]) -> (r: Vec<ChunkPart>)
        ensures
            final(self)@ == scan_state(old(self)@, bytes@),
            cuts(r@, bytes@, found(old(self)@, bytes@)),
            fed(r@) == bytes@,
    {
        let ghost start = self@;
        let ghost commands = found(start, bytes@);
        let mut found_here: Vec<(usize, Vec<u8>)> = Vec::new();
        assert(found_views(found_here@) =~= Seq::empty());
        self.scan(bytes, &mut found_here);
        assert(found_views(found_here@) =~= commands);
        let mut parts: Vec<ChunkPart> = Vec::new();
        let mut prev: usize = 0;
        let mut i: usize = 0;
        assert(fed(parts@) =~= bytes@.take(0));
        while i < found_here.len()
            invariant
                i <= found_here@.len(),
                commands == found(start, bytes@),
                found_views(found_here@) == commands,
                parts@.len() == i,
                prev == part_start(commands, i as int),
                prev <= bytes@.len(),
                fed(parts@) == bytes@.take(prev as int),
                forall|k: int|
                    0 <= k < i ==> {
                        &&& (#[trigger] parts@[k]).feed@ == bytes@.subrange(
                            part_start(commands, k),
                            commands[k].0,
                        )
                        &&& parts@[k].command matches Some(payload) && payload@ == commands[k].1
                    },
            decreases found_here@.len() - i,
        {
            proof {
                lemma_part_start(start, bytes@, i as int);
                assert(found_views(found_here@)[i as int] == (
                    found_here@[i as int].0 as int,
                    found_here@[i as int].1@,
                ));
            }
            let offset = found_here[i].0;
            let feed = bytes_between(bytes, prev, offset);
            let payload = bytes_between(
                found_here[i].1.as_slice(),
                0,
                found_here[i].1.len(),
            );
            assert(payload@ =~= commands[i as int].1);
            let ghost earlier = parts@;
            parts.push(ChunkPart { feed, command: Some(payload) });
            assert(parts@.drop_last() =~= earlier);
            assert(bytes@.take(prev as int) + feed@ =~= bytes@.take(offset as int));
            prev = offset;
            i += 1;
        }
        proof {
            lemma_part_start(start, bytes@, i as int);
        }
        let feed = bytes_between(bytes, prev, bytes.len());
        assert(feed@ =~= bytes@.skip(prev as int));
        let ghost earlier = parts@;
        parts.push(ChunkPart { feed, command: None });
        assert(parts@.drop_last() =~= earlier);
        assert(bytes@.take(prev as int) + feed@ =~= bytes@);
        parts
    }
}

/// A copy of a part of some bytes.
fn bytes_between(bytes: &[u8], from: usize, to: usize) -> (r: Vec<u8>)
    requires
        from <= to <= bytes@.len(),
    ensures
        r@ == bytes@.subrange(from as int, to as int),
{
    let mut out: Vec<u8> = Vec::new();
    let mut i: usize = from;
    while i < to
        invariant
            from <= i <= to <= bytes@.len(),
            out@ == bytes@.subrange(from as int, i as int),
        decreases to - i,
    {
        out.push(bytes[i]);
        assert(bytes@.subrange(from as int, i + 1) =~= bytes@.subrange(
            from as int,
            i as int,
        ).push(bytes@[i as int]));
        i += 1;
    }
    out
}

/// Reading a stream in two chunks leaves a scanner where reading it at once
/// does, and finds the same commands: those of the second chunk are counted
/// from its own start.
pub proof fn law_scan_splits(st: ScanState, a: Seq<u8>, b: Seq<u8>)
    ensures
        scan_state(st, a + b) == scan_state(scan_state(st, a), b),
        found(st, a + b).len() == found(st, a).len() + found(scan_state(st, a), b).len(),
        forall|i: int|
            0 <= i < found(st, a).len() ==> #[trigger] found(st, a + b)[i] == found(st, a)[i],
        forall|i: int|
            0 <= i < found(scan_state(st, a), b).len() ==> #[trigger] found(st, a + b)[found(
                st,
                a,
            ).len() + i] == (
                found(scan_state(st, a), b)[i].0 + a.len(),
                found(scan_state(st, a), b)[i].1,
            ),
    decreases b.len(),
{
    let mid = scan_state(st, a);
    if b.len() == 0 {
        assert(a + b =~= a);
    } else {
        let front = b.drop_last();
        law_scan_splits(st, a, front);
        assert((a + b).drop_last() =~= a + front);
        assert((a + b).last() == b.last());
        let n = found(st, a).len();
        let whole = found(st, a + b);
        let short = found(st, a + front);
        let here = found(mid, b);
        let before = found(mid, front);
        assert forall|i: int| 0 <= i < here.len() implies #[trigger] whole[n + i] == (
            here[i].0 + a.len(),
            here[i].1,
        ) by {
            if i < before.len() {
                assert(short[n + i] == (before[i].0 + a.len(), before[i].1));
                assert(whole[n + i] == short[n + i]);
            }
        }
        assert forall|i: int| 0 <= i < n implies #[trigger] whole[i] == found(st, a)[i] by {
            assert(whole[i] == short[i]);
        }
    }
}

/// Chunks put together.
pub open spec fn whole(chunks: Seq<Seq<u8>>) -> Seq<u8>
    decreases chunks.len(),
{
    if chunks.len() == 0 {
        seq![]
    } else {
        whole(chunks.drop_last()) + chunks.last()
    }
}

/// The state of a scanner after it has read some chunks, one by one.
pub open spec fn after_chunks(st: ScanState, chunks: Seq<Seq<u8>>) -> ScanState
    decreases chunks.len(),
{
    if chunks.len() == 0 {
        st
    } else {
        scan_state(after_chunks(st, chunks.drop_last()), chunks.last())
    }
}

/// The payloads of found commands.
pub open spec fn payloads(commands: Seq<(int, Seq<u8>)>) -> Seq<Seq<u8>> {
    Seq::new(commands.len(), |i: int| commands[i].1)
}

/// The payloads that a scanner finds in some chunks, one by one.
pub open spec fn found_in_chunks(st: ScanState, chunks: Seq<Seq<u8>>) -> Seq<Seq<u8>>
    decreases chunks.len(),
{
    if chunks.len() == 0 {
        seq![]
    } else {
        found_in_chunks(st, chunks.drop_last()) + payloads(
            found(after_chunks(st, chunks.drop_last()), chunks.last()),
        )
    }
}

/// A stream gives the same commands, and leaves a scanner in the same state,
/// however it is cut into chunks.
pub proof fn law_chunking_is_invisible(st: ScanState, chunks: Seq<Seq<u8>>)
    ensures
        after_chunks(st, chunks) == scan_state(st, whole(chunks)),
        found_in_chunks(st, chunks) == payloads(found(st, whole(chunks))),
    decreases chunks.len(),
{
    if chunks.len() == 0 {
        assert(payloads(found(st, whole(chunks))) =~= seq![]);
    } else {
        let front = whole(chunks.drop_last());
        let last = chunks.last();
        law_chunking_is_invisible(st, chunks.drop_last());
        law_scan_splits(st, front, last);
        let n = found(st, front).len() as int;
        let all = found(st, front + last);
        let here = found(scan_state(st, front), last);
        assert forall|i: int| n <= i < all.len() implies #[trigger] all[i].1 == here[i - n].1 by {
            assert(all[n + (i - n)].1 == here[i - n].1);
        }
        assert(payloads(all) =~= payloads(found(st, front)) + payloads(here));
    }
}

/// Whether some bytes hold no escape.
pub open spec fn no_escape(bytes: Seq<u8>) -> bool {
    forall|i: int| 0 <= i < bytes.len() ==> #[trigger] bytes[i] != 0x1b
}

/// Bytes without an escape go by unseen outside a command, and are collected
/// inside one.
proof fn lemma_scan_plain(st: ScanState, bytes: Seq<u8>)
    requires
        !st.esc_seen,
        no_escape(bytes),
    ensures
        found(st, bytes) == Seq::<(int, Seq<u8>)>::empty(),
        scan_state(st, bytes) == (ScanState {
            payload: if st.in_apc {
                st.payload + bytes
            } else {
                st.payload
            },
            ..st
        }),
    decreases bytes.len(),
{
    if bytes.len() == 0 {
        assert(st.payload + bytes =~= st.payload);
    } else {
        let front = bytes.drop_last();
        assert forall|i: int| 0 <= i < front.len() implies #[trigger] front[i] != 0x1b by {
            assert(front[i] == bytes[i]);
        }
        lemma_scan_plain(st, front);
        assert(bytes.last() == bytes[bytes.len() - 1]);
        assert(st.payload + front.push(bytes.last()) =~= (st.payload + front).push(bytes.last()));
        assert(front.push(bytes.last()) =~= bytes);
    }
}

/// An application command with a payload free of escapes is found whole, at its
/// end, and leaves the scanner as if nothing had been read.
pub proof fn law_command_is_found(body: Seq<u8>)
    requires
        no_escape(body),
    ensures
        ({
            let bytes = seq![0x1bu8, 0x5fu8] + body + seq![0x1bu8, 0x5cu8];
            found(scan_start(), bytes) == seq![(body.len() as int + 4, body)] && scan_state(
                scan_start(),
                bytes,
            ) == scan_start()
        }),
{
    let open = seq![0x1bu8, 0x5fu8];
    let close = seq![0x1bu8, 0x5cu8];
    let inside = ScanState { in_apc: true, esc_seen: false, payload: seq![] };
    reveal_with_fuel(scan_state, 3);
    reveal_with_fuel(found, 3);
    assert(open.drop_last() =~= seq![0x1bu8]);
    assert(open.drop_last().drop_last() =~= Seq::empty());
    assert(scan_state(scan_start(), open) == inside);
    assert(found(scan_start(), open) =~= Seq::empty());
    law_scan_splits(scan_start(), open, body);
    lemma_scan_plain(inside, body);
    let full = ScanState { in_apc: true, esc_seen: false, payload: body };
    assert(inside.payload + body =~= body);
    assert(scan_state(scan_start(), open + body) == full);
    law_scan_splits(scan_start(), open + body, close);
    assert(close.drop_last() =~= seq![0x1bu8]);
    assert(close.drop_last().drop_last() =~= Seq::empty());
    assert(found(full, close) =~= seq![(2int, body)]);
    let bytes = open + body + close;
    assert(found(scan_start(), bytes).len() == 1);
    assert(found(scan_start(), bytes)[0] == found(scan_start(), bytes)[found(
        scan_start(),
        open + body,
    ).len() as int + 0]);
    assert(found(scan_start(), bytes) =~= seq![(body.len() as int + 4, body)]);
}

// ---------------------------------------------------------------------------
// Image cells
// ---------------------------------------------------------------------------

/// The part of an image box that is on screen: column, row, columns and rows.
/// `None` where nothing of it is.
pub open spec fn on_screen(
    col: usize,
    row: isize,
    cols: usize,
    rows: usize,
    columns: usize,
    lines: usize,
) -> Option<(int, int, int, int)> {
    if row < 0 || col >= columns || row >= lines || cols == 0 || rows == 0 {
        None
    } else {
        Some(
            (
                col as int,
                row as int,
                if cols <= columns - col {
                    cols as int
                } else {
                    columns - col
                },
                if rows <= lines - row {
                    rows as int
                } else {
                    lines - row
                },
            ),
        )
    }
}

/// A sequence that moves the cursor to a row and a column, both from zero.
pub open spec fn cursor_text(row: int, col: int) -> Seq<char> {
    "\x1b["@ + decimal((row + 1) as nat) + ";"@ + decimal((col + 1) as nat) + "H"@
}

/// The text that fills a box with markers, line by line. Each line is reached by
/// a cursor movement, so that nothing depends on how the terminal wraps; the
/// cursor ends up behind the last cell of the box.
pub open spec fn marker_text(col: int, row: int, cols: nat, rows: nat) -> Seq<char>
    decreases rows,
{
    if rows == 0 {
        seq![]
    } else {
        marker_text(col, row, cols, (rows - 1) as nat) + cursor_text(row + rows - 1, col)
            + Seq::new(cols, |i: int| KITTY_MARKER)
    }
}

/// The text that fills the visible part of an image box with markers.
pub open spec fn allocation_text(
    col: usize,
    row: isize,
    cols: usize,
    rows: usize,
    columns: usize,
    lines: usize,
) -> Seq<char> {
    match on_screen(col, row, cols, rows, columns, lines) {
        Some((c, r, w, h)) => marker_text(c, r, w as nat, h as nat),
        None => seq![],
    }
}

/// Append a cursor movement.
fn push_cursor(out: &mut String, row: usize, col: usize)
    requires
        row < usize::MAX,
        col < usize::MAX,
    ensures
        final(out)@ == old(out)@ + cursor_text(row as int, col as int),
{
    let ghost start = out@;
    out.append("\x1b[");
    push_decimal(out, (row + 1) as u64);
    out.append(";");
    push_decimal(out, (col + 1) as u64);
    out.append("H");
    assert(out@ =~= start + cursor_text(row as int, col as int));
}

/// Append the text that fills the visible part of an image box with markers.
fn push_markers(
    out: &mut String,
    col: usize,
    row: isize,
    cols: usize,
    rows: usize,
    columns: usize,
    lines: usize,
)
    ensures
        final(out)@ == old(out)@ + allocation_text(col, row, cols, rows, columns, lines),
{
    let ghost start = out@;
    if row < 0 || col >= columns || row as usize >= lines || cols == 0 || rows == 0 {
        assert(out@ =~= start + seq![]);
        return;
    }
    let row: usize = row as usize;
    let width: usize = if cols <= columns - col {
        cols
    } else {
        columns - col
    };
    let height: usize = if rows <= lines - row {
        rows
    } else {
        lines - row
    };
    let mut r: usize = 0;
    assert(start + marker_text(col as int, row as int, width as nat, 0) =~= start);
    while r < height
        invariant
            r <= height,
            row + height <= lines,
            col < columns,
            out@ == start + marker_text(col as int, row as int, width as nat, r as nat),
        decreases height - r,
    {
        push_cursor(out, row + r, col);
        let ghost before = out@;
        let mut c: usize = 0;
        assert(before + Seq::new(0, |i: int| KITTY_MARKER) =~= before);
        while c < width
            invariant
                c <= width,
                out@ == before + Seq::new(c as nat, |i: int| KITTY_MARKER),
            decreases width - c,
        {
            out.push(KITTY_MARKER);
            c += 1;
            assert(out@ =~= before + Seq::new(c as nat, |i: int| KITTY_MARKER));
        }
        r += 1;
        assert(out@ =~= start + marker_text(col as int, row as int, width as nat, r as nat));
    }
}

/// The bytes that allocate the cells of an inline image at `(col, row)`:
/// markers over the visible part of the box, with the cursor left just past its
/// last cell so that text flows around the image.
pub fn allocate_kitty_cells(
    col: usize,
    row: isize,
    cols: usize,
    rows: usize,
    columns: usize,
    lines: usize,
) -> (r: Vec<u8>)
    ensures
        r@ == encode_utf8(allocation_text(col, row, cols, rows, columns, lines)),
{
    let mut out = String::new();
    push_markers(&mut out, col, row, cols, rows, columns, lines);
    assert(out@ =~= allocation_text(col, row, cols, rows, columns, lines));
    out.into_bytes()
}

/// The bytes that mark the cells of an anchored placement. The cursor, which
/// stands at `cursor` (column and line), is put back afterwards: an explicit
/// placement does not move it.
pub fn mark_kitty_cells(
    cursor: (usize, usize),
    col: usize,
    row: isize,
    cols: usize,
    rows: usize,
    columns: usize,
    lines: usize,
) -> (r: Vec<u8>)
    requires
        cursor.0 < usize::MAX,
        cursor.1 < usize::MAX,
    ensures
        r@ == encode_utf8(
            allocation_text(col, row, cols, rows, columns, lines) + cursor_text(
                cursor.1 as int,
                cursor.0 as int,
            ),
        ),
{
    let mut out = String::new();
    push_markers(&mut out, col, row, cols, rows, columns, lines);
    push_cursor(&mut out, cursor.1, cursor.0);
    assert(out@ =~= allocation_text(col, row, cols, rows, columns, lines) + cursor_text(
        cursor.1 as int,
        cursor.0 as int,
    ));
    out.into_bytes()
}

// ---------------------------------------------------------------------------
// The I/O loop
// ---------------------------------------------------------------------------

/// How waiting for the pane's program to write ended.
#[derive(Clone, Copy, PartialEq, Eq, Debug, Structural)]
pub enum PollOutcome {
    /// Waiting failed for good.
    Failed,
    /// Waiting was interrupted, or nothing came.
    Nothing,
    /// There is something to read.
    Readable,
}

/// How a read ended.
#[derive(Clone, Copy, PartialEq, Eq, Debug, Structural)]
pub enum ReadOutcome {
    /// The program closed its side.
    Closed,
    /// Some bytes came.
    Data,
    /// Nothing more to read for now.
    WouldBlock,
    Interrupted,
    Failed,
}

/// What to do about a read.
#[derive(Clone, Copy, PartialEq, Eq, Debug, Structural)]
pub enum ReadNext {
    /// Process the bytes, then read again.
    Process,
    /// Read again.
    Again,
    /// Stop reading in this turn.
    Stop,
}

/// What to do about a message from the interface.
#[derive(Debug, PartialEq, Eq)]
pub enum PtyEffect {
    /// Write to the program.
    Write(Vec<u8>),
    /// Tell the program its new size.
    Resize(WindowSize),
    /// Take no more messages.
    Stop,
}

/// What to do at the end of a turn.
#[derive(Clone, Copy, PartialEq, Eq, Debug, Structural)]
pub struct TurnEnd {
    /// Wake the interface up.
    pub wake: bool,
    /// Announce that the program has ended.
    pub announce_exit: bool,
    /// Leave the loop.
    pub stop: bool,
}

/// One turn of the I/O loop: wait, read, serve the interface.
#[derive(Clone, Copy, PartialEq, Eq, Debug, Structural)]
pub struct IoTurn {
    pub dirty: bool,
    pub exited: bool,
    pub shutdown: bool,
}

/// Whether an action changes what is on screen.
pub open spec fn redraws(action: KittyAction) -> bool {
    action is Changed || action is Place || action is MarkCells
}

/// How many of the actions are to be answered.
pub open spec fn responses(actions: Seq<KittyAction>) -> nat
    decreases actions.len(),
{
    if actions.len() == 0 {
        0
    } else {
        responses(actions.drop_last()) + (if actions.last() is Respond {
            1nat
        } else {
            0
        })
    }
}

/// The answer to a capability query, `n` times over.
pub open spec fn response_text(n: nat) -> Seq<char>
    decreases n,
{
    if n == 0 {
        seq![]
    } else {
        response_text((n - 1) as nat) + "\x1b_Gi=1;OK\x1b\\"@
    }
}

impl IoTurn {
    /// A turn in which nothing has happened.
    pub fn new() -> (r: IoTurn)
        ensures
            r == (IoTurn { dirty: false, exited: false, shutdown: false }),
    {
        IoTurn { dirty: false, exited: false, shutdown: false }
    }

    /// Whether to leave the loop at once, and whether to read, after waiting.
    pub fn after_poll(outcome: PollOutcome) -> (r: (bool, bool))
        ensures
            r.0 == (outcome is Failed),
            r.1 == (outcome is Readable),
    {
        match outcome {
            PollOutcome::Failed => (true, false),
            PollOutcome::Nothing => (false, false),
            PollOutcome::Readable => (false, true),
        }
    }

    /// Take note of a read and say how to go on. Bytes make the pane dirty; a
    /// closed or broken stream means that the program has ended.
    pub fn on_read(&mut self, outcome: ReadOutcome) -> (r: ReadNext)
        ensures
            final(self).dirty == (old(self).dirty || outcome is Data),
            final(self).exited == (old(self).exited || outcome is Closed || outcome is Failed),
            final(self).shutdown == old(self).shutdown,
            r == (match outcome {
                ReadOutcome::Data => ReadNext::Process,
                ReadOutcome::Interrupted => ReadNext::Again,
                _ => ReadNext::Stop,
            }),
    {
        match outcome {
            ReadOutcome::Closed => {
                self.exited = true;
                ReadNext::Stop
            },
            ReadOutcome::Data => {
                self.dirty = true;
                ReadNext::Process
            },
            ReadOutcome::WouldBlock => ReadNext::Stop,
            ReadOutcome::Interrupted => ReadNext::Again,
            ReadOutcome::Failed => {
                self.exited = true;
                ReadNext::Stop
            },
        }
    }

    /// Take note of the outcomes of graphics commands and give the bytes that
    /// answer them: one answer for each capability query.
    pub fn on_actions(&mut self, actions: &Vec<KittyAction>) -> (r: Vec<u8>)
        ensures
            final(self).dirty == (old(self).dirty || exists|i: int|
                0 <= i < actions@.len() && redraws(#[trigger] actions@[i])),
            final(self).exited == old(self).exited,
            final(self).shutdown == old(self).shutdown,
            r@ == encode_utf8(response_text(responses(actions@))),
    {
        let ghost start = *self;
        let mut out = String::new();
        let mut i: usize = 0;
        assert(actions@.take(0) =~= Seq::empty());
        assert(out@ =~= response_text(0));
        while i < actions.len()
            invariant
                i <= actions@.len(),
                self.exited == start.exited,
                self.shutdown == start.shutdown,
                self.dirty == (start.dirty || exists|k: int|
                    0 <= k < i && redraws(#[trigger] actions@[k])),
                out@ == response_text(responses(actions@.take(i as int))),
            decreases actions@.len() - i,
        {
            let ghost dirty = self.dirty;
            proof {
                assert(actions@.take(i + 1).drop_last() =~= actions@.take(i as int));
                assert(actions@.take(i + 1).last() == actions@[i as int]);
            }
            match actions[i] {
                KittyAction::Respond => {
                    out.append("\x1b_Gi=1;OK\x1b\\");
                },
                KittyAction::Nothing => {},
                _ => {
                    self.dirty = true;
                    assert(redraws(actions@[i as int]));
                },
            }
            i += 1;
        }
        assert(actions@.take(i as int) =~= actions@);
        out.into_bytes()
    }

    /// Take note of a message from the interface and say what to do about it.
    pub fn on_message(&mut self, msg: PtyMsg) -> (r: PtyEffect)
        ensures
            final(self).dirty == old(self).dirty,
            final(self).exited == old(self).exited,
            final(self).shutdown == (old(self).shutdown || msg is Shutdown),
            r == (match msg {
                PtyMsg::Write(bytes) => PtyEffect::Write(bytes),
                PtyMsg::Resize(size) => PtyEffect::Resize(size),
                PtyMsg::Shutdown => PtyEffect::Stop,
            }),
    {
        match msg {
            PtyMsg::Write(bytes) => PtyEffect::Write(bytes),
            PtyMsg::Resize(size) => PtyEffect::Resize(size),
            PtyMsg::Shutdown => {
                self.shutdown = true;
                PtyEffect::Stop
            },
        }
    }

    /// What to do at the end of the turn. The loop ends when the program has
    /// ended, which is announced, or when the interface asked for it.
    pub fn finish(&self) -> (r: TurnEnd)
        ensures
            r.wake == self.dirty,
            r.announce_exit == self.exited,
            r.stop == (self.exited || self.shutdown),
    {
        TurnEnd {
            wake: self.dirty,
            announce_exit: self.exited,
            stop: self.exited || self.shutdown,
        }
    }
}

// ---------------------------------------------------------------------------
// Laws
// ---------------------------------------------------------------------------

/// The state inside a command, with what has been collected of it.
proof fn lemma_scan_open()
    ensures
        scan_state(scan_start(), seq![0x1bu8, 0x5fu8]) == (ScanState {
            in_apc: true,
            esc_seen: false,
            payload: seq![],
        }),
        found(scan_start(), seq![0x1bu8, 0x5fu8]) == Seq::<(int, Seq<u8>)>::empty(),
{
    let open = seq![0x1bu8, 0x5fu8];
    reveal_with_fuel(scan_state, 3);
    reveal_with_fuel(found, 3);
    assert(open.drop_last() =~= seq![0x1bu8]);
    assert(open.drop_last().drop_last() =~= Seq::empty());
}

/// What an escape and the byte behind it do inside a command.
proof fn lemma_scan_pair(st: ScanState, byte: u8)
    requires
        st.in_apc,
        !st.esc_seen,
        byte != 0x1b,
    ensures
        byte != 0x5c ==> scan_state(st, seq![0x1bu8, byte]) == (ScanState {
            payload: st.payload + seq![0x1bu8, byte],
            ..st
        }),
        byte != 0x5c ==> found(st, seq![0x1bu8, byte]) == Seq::<(int, Seq<u8>)>::empty(),
        byte == 0x5c ==> scan_state(st, seq![0x1bu8, byte]) == scan_start(),
        byte == 0x5c ==> found(st, seq![0x1bu8, byte]) == seq![(2int, st.payload)],
{
    let pair = seq![0x1bu8, byte];
    reveal_with_fuel(scan_state, 3);
    reveal_with_fuel(found, 3);
    assert(pair.drop_last() =~= seq![0x1bu8]);
    assert(pair.drop_last().drop_last() =~= Seq::empty());
    if byte == 0x5c {
        assert(found(st, pair) =~= seq![(2int, st.payload)]);
    }
}

/// A stretch in which nothing is found adds nothing to what was found before.
proof fn lemma_scan_on(st: ScanState, a: Seq<u8>, mid: ScanState, b: Seq<u8>)
    requires
        scan_state(st, a) == mid,
        found(st, a).len() == 0,
    ensures
        scan_state(st, a + b) == scan_state(mid, b),
        found(st, a + b).len() == found(mid, b).len(),
        forall|i: int|
            0 <= i < found(mid, b).len() ==> #[trigger] found(st, a + b)[i] == (
                found(mid, b)[i].0 + a.len(),
                found(mid, b)[i].1,
            ),
{
    law_scan_splits(st, a, b);
    assert forall|i: int| 0 <= i < found(mid, b).len() implies #[trigger] found(st, a + b)[i] == (
        found(mid, b)[i].0 + a.len(),
        found(mid, b)[i].1,
    ) by {
        assert(found(st, a + b)[found(st, a).len() + i] == (
            found(mid, b)[i].0 + a.len(),
            found(mid, b)[i].1,
        ));
    }
}

/// An escape inside a command that does not end it belongs to the payload, with
/// the byte behind it.
pub proof fn law_escape_stays_in_payload(a: Seq<u8>, byte: u8, b: Seq<u8>)
    requires
        no_escape(a),
        no_escape(b),
        byte != 0x1b,
        byte != 0x5c,
    ensures
        ({
            let body = a + seq![0x1bu8, byte] + b;
            let stream = seq![0x1bu8, 0x5fu8] + body + seq![0x1bu8, 0x5cu8];
            &&& found(scan_start(), stream) == seq![(stream.len() as int, body)]
            &&& scan_state(scan_start(), stream) == scan_start()
        }),
{
    let open = seq![0x1bu8, 0x5fu8];
    let esc = seq![0x1bu8, byte];
    let close = seq![0x1bu8, 0x5cu8];
    let start = scan_start();
    let inside = ScanState { in_apc: true, esc_seen: false, payload: Seq::<u8>::empty() };
    lemma_scan_open();
    lemma_scan_plain(inside, a);
    let s1 = ScanState { payload: a, ..inside };
    assert(inside.payload + a =~= a);
    lemma_scan_on(start, open, inside, a);
    lemma_scan_pair(s1, byte);
    let s2 = ScanState { payload: a + esc, ..inside };
    lemma_scan_on(start, open + a, s1, esc);
    lemma_scan_plain(s2, b);
    let body = a + esc + b;
    let s3 = ScanState { payload: body, ..inside };
    lemma_scan_on(start, open + a + esc, s2, b);
    lemma_scan_pair(s3, 0x5c);
    let front = open + a + esc + b;
    lemma_scan_on(start, front, s3, close);
    let stream = front + close;
    assert(stream =~= open + body + close);
    assert(found(start, stream) =~= seq![(stream.len() as int, body)]);
}

/// A stream in which nothing opens a command holds none, however many other
/// escape sequences it has.
pub proof fn law_other_sequences_are_no_commands(bytes: Seq<u8>)
    requires
        forall|i: int| 0 < i < bytes.len() && #[trigger] bytes[i] == 0x5f ==> bytes[i - 1] != 0x1b,
    ensures
        found(scan_start(), bytes).len() == 0,
        !scan_state(scan_start(), bytes).in_apc,
        bytes.len() > 0 ==> (scan_state(scan_start(), bytes).esc_seen <==> bytes.last() == 0x1b),
        scan_state(scan_start(), bytes).payload.len() == 0,
    decreases bytes.len(),
{
    if bytes.len() > 0 {
        let front = bytes.drop_last();
        assert forall|i: int| 0 < i < front.len() && #[trigger] front[i] == 0x5f implies front[i
            - 1] != 0x1b by {
            assert(bytes[i] == front[i]);
        }
        law_other_sequences_are_no_commands(front);
        assert(bytes.last() == bytes[bytes.len() - 1]);
        if front.len() > 0 {
            assert(front.last() == bytes[bytes.len() - 2]);
        }
    }
}

/// The cells of an image are taken line by line: each line of the box that is on
/// screen is reached by moving the cursor to its first cell, counted from one,
/// and filled with one marker a cell, as far as the screen goes. A box with one
/// more row has one more such line, unless that is below the screen.
pub proof fn law_cells_are_taken_line_by_line(
    col: usize,
    row: isize,
    cols: usize,
    rows: usize,
    columns: usize,
    lines: usize,
)
    requires
        0 <= row < lines,
        col < columns,
        0 < cols,
        rows < usize::MAX,
    ensures
        ({
            let width = if col + cols <= columns {
                cols as int
            } else {
                columns - col
            };
            let less = allocation_text(col, row, cols, rows, columns, lines);
            let more = allocation_text(col, row, cols, (rows + 1) as usize, columns, lines);
            &&& row + rows >= lines ==> more == less
            &&& row + rows < lines ==> {
                &&& more == less + ("\x1b["@ + decimal((row + rows + 1) as nat) + ";"@ + decimal(
                    (col + 1) as nat,
                ) + "H"@) + more.skip(more.len() - width)
                &&& width <= more.len()
                &&& forall|i: int|
                    more.len() - width <= i < more.len() ==> #[trigger] more[i] == '\u{e000}'
            }
        }),
        allocation_text(col, row, cols, 0, columns, lines).len() == 0,
{
    let width = if col + cols <= columns {
        cols as int
    } else {
        columns - col
    };
    let less = allocation_text(col, row, cols, rows, columns, lines);
    let more = allocation_text(col, row, cols, (rows + 1) as usize, columns, lines);
    if row + rows < lines {
        let markers = Seq::new(width as nat, |i: int| KITTY_MARKER);
        let line = cursor_text(row + rows, col as int);
        if rows == 0 {
            assert(less =~= marker_text(col as int, row as int, width as nat, 0));
        }
        assert(less == marker_text(col as int, row as int, width as nat, rows as nat));
        assert(more == less + line + markers);
        assert(more.skip(more.len() - width) =~= markers);
    }
}

/// A box that starts beside, above or below the screen, or that has no cells,
/// takes none.
pub proof fn law_no_cells_off_screen(
    col: usize,
    row: isize,
    cols: usize,
    rows: usize,
    columns: usize,
    lines: usize,
)
    requires
        row < 0 || row >= lines || col >= columns || cols == 0 || rows == 0,
    ensures
        allocation_text(col, row, cols, rows, columns, lines).len() == 0,
{
}

/// Every query among the actions is answered once, in the protocol's own words,
/// and nothing else is.
pub proof fn law_every_query_is_answered(actions: Seq<KittyAction>, action: KittyAction)
    ensures
        response_text(responses(seq![])).len() == 0,
        action == KittyAction::Respond ==> response_text(responses(actions.push(action)))
            == response_text(responses(actions)) + "\x1b_Gi=1;OK\x1b\\"@,
        action != KittyAction::Respond ==> response_text(responses(actions.push(action)))
            == response_text(responses(actions)),
{
    assert(actions.push(action).drop_last() =~= actions);
}

/// Anything that changes the store or the cells asks for a redraw; a query and a
/// command without effect do not.
pub proof fn law_changes_are_drawn(col: usize, row: isize, cols: usize, rows: usize)
    ensures
        redraws(KittyAction::Changed),
        redraws(KittyAction::Place { col, row, cols, rows }),
        redraws(KittyAction::MarkCells { col, row, cols, rows }),
        !redraws(KittyAction::Respond),
        !redraws(KittyAction::Nothing),
{
}

/// By the time a command is carried out, the parser has been fed everything up
/// to its end and nothing behind it; the command comes with its own payload.
pub proof fn law_parser_is_fed_up_to_each_command(
    parts: Seq<ChunkPart>,
    bytes: Seq<u8>,
    st: ScanState,
    i: int,
)
    requires
        cuts(parts, bytes, found(st, bytes)),
        0 <= i < found(st, bytes).len(),
    ensures
        fed(parts.take(i + 1)) == bytes.take(found(st, bytes)[i].0),
        parts[i].command matches Some(payload) && payload@ == found(st, bytes)[i].1,
        parts.len() == found(st, bytes).len() + 1,
        parts.last().command is None,
    decreases i,
{
    let commands = found(st, bytes);
    lemma_part_start(st, bytes, i);
    lemma_found_bounds(st, bytes);
    let here = parts.take(i + 1);
    assert(here.last() == parts[i]);
    assert(here.drop_last() =~= parts.take(i));
    if i > 0 {
        law_parser_is_fed_up_to_each_command(parts, bytes, st, i - 1);
        assert(commands[i - 1].0 < commands[i].0);
    } else {
        assert(fed(parts.take(0)) =~= bytes.take(0));
    }
    let from = part_start(commands, i);
    assert(bytes.take(from) + bytes.subrange(from, commands[i].0) =~= bytes.take(commands[i].0));
}

} // verus!
