# Optix

A GPU-accelerated terminal emulator whose logic is a Verus library: every
function under `src/` states what it does in `requires` and `ensures`, and Verus
proves it. `app/` is the window around it.

## The library

| Module      | What it holds |
|-------------|---------------|
| `text`, `text_map` | Texts as sequences of characters; tables from text to text |
| `keyboard`, `bindings`, `input` | Keys, key bindings, and the bytes that keys and the mouse send |
| `session`   | What a key press does: search, `/command` line, magic lines, shell |
| `magic`, `ipc` | Lines that the terminal handles itself; commands over the socket |
| `kitty`     | The store of the Kitty graphics protocol |
| `pty_io`    | Finding graphics commands in a byte stream; turns of the I/O thread |
| `layout`    | The tree of split panes, its rectangles and its focus |
| `terminal`, `scroll` | Grid positions, sizes and scrolling of a pane |
| `window`, `event` | What follows from events of the window, the pointer and the panes |
| `color`, `palette`, `config`, `themes` | Colors, the palette, the configuration and theme presets |
| `fonts`, `render` | Which fonts to load; the glyph atlas, cells, the cursor and frames |

Proof functions whose names begin with `law_` state what holds across functions,
such as that the panes tile the window, that a removed pane takes no other with
it, or that a byte stream gives the same commands however it is cut into chunks.

What the library takes on trust are a few functions of std on texts and three
calls into outside crates: base64 decoding, zlib decompression and image
decoding. Each stands behind one function with a doc comment that says what is
claimed of it.

## The application

`app/` opens the window, reads files and the pseudoterminal, shapes text, draws,
and does what is floating point arithmetic. Called as `optix-msg` it is the
client that drives a running terminal.
