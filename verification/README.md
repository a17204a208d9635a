# gpui_vim

A vim engine for text editors built with gpui, verified with Verus.

The engine owns the cursor, the mode and the selection. A host hands it keys
and lends it a buffer and itself; the engine edits the buffer through
`VimBufferMut` and reaches the outside world through `VimHost`. Keys that it
does not take (`KeyResult::Unknown`) go on to the host's own bindings and text
input.

## Layout

`src/` is the library. Everything in it is verified.

- Text: `cells`, `doc`, `buffer`, `text`, `strs`, `chars`. A text is a sequence
  of bytes of which each first byte of a character carries that character; a
  `Doc` adds the starts of its lines. `Doc` is what contracts speak of.
- Engine state: `state` (with its models `Vim` and `World`), `mode`, `key`,
  `keymap`, `tables`, `options`, `registers`, `marks`, `shift`, `lists`,
  `record`, `charmap`.
- Commands: `motions` and `movement`, `word`, `objects`, `ops`, `operators`,
  `edits`, `format`, `number`, `block`, `visual`, `insert_mode`, `commands`,
  `normal`, `execute`, `search`, `cmdline`, `ex`, `config`.
- Keys: `pipeline` (one key), `drive` (a key and all that follows it), `replay`,
  `dispatch` (keystrokes and text from the host), `api`.
- `groups`: laws over whole commands and keys; `shifting`: the round trip of `>>`
  and `<<`.
- Buffers and hosts: `lines` and `edit_host` under the edit box `edit`; `rope`
  and `snapshots` under the editor pane `editor`; `pager` and `flat` for text
  that is only read; `overlay` for what is painted over a line; `layers` for
  configuration files; `tck` for testing buffers of other hosts.

`app/` is the demo program: windows, painting, input methods, files and the
clipboard, with gpui. `tests/` holds the tests.

## How it is specified

`World` is the engine's state, its buffer's text and whether that can be
edited. Every step of the engine is a function from a world to a world, and the
contract of the code that takes the step says that it computes that function.
What the engine tells its host is noted in the world, and every contract says
that the host was told just that: `hears` in `host` relates the two, and for the
hosts in `src/` it fixes their state as well. What a host shows and answers in
the meantime is a sequence of moments, over which the contract of `handle_key`
is quantified: `shows` in `drive` says that each is what the host shows then,
the first what it shows when the key comes.

Laws are public proof functions. They state, among other things, that a command
is one step of undo, that every insert session is, that a read-only text stays
as it is, that marks follow the text, and that what is composed with an input
method leaves no trace once it is committed or given up.

What is taken on trust are the calls into `regex`, `ropey`, `unicode-width` and
a few functions of std on characters and strings; each is a small function
marked `external_body` in `search`, `rope`, `chars` and `tck`.
