# freminal

A terminal emulator core, written in Verus: every function of the library is
proved against its contract.

## Layout

- `src/` — the verified library.
  - Parsing terminal output: `ansi` (the top-level parser), `csi` and
    `csi_commands` (control sequences), `osc` and `osc_types` (operating
    system commands), `params` (numeric parameters), `sgr`, `mode`,
    `output` (the items the parser emits and their text).
  - Terminal state: `buffer` (the text buffer, its lines and the screen),
    `byte_buffer` (lines of a raw UTF-8 buffer), `format_tracker` (which
    format applies where), `cursor`, `term_char`, `graphemes`, `playback`
    (the terminal state machine that plays output into the buffer).
  - Around the window: `emulator` (what key presses send), `input` (which
    window events are key presses), `layout` (screen text and its formats
    as UTF-8 text and byte ranges), `render`, `colors`, `fonts`, `args`,
    `log`, `pty`, `error` (parser failures and the report of an error's
    chain of sources).
  - `utf8`, `text`, `vec_lemmas`: helpers.
- `tests/` — tests of the library.
- `app/` — the program: command line, the shell on a pseudo terminal, and
  the egui window.

The laws of the library are public proof functions, among them:
`ansi::lemma_parser_state_ignores_chunking` and
`ansi::lemma_parser_items_ignore_chunking` (cutting input into calls of
`push` changes nothing but how text is split),
`buffer::lemma_written_text_reads_back`,
`buffer::lemma_lines_are_short_and_unbroken`,
`buffer::lemma_sections_make_up_buffer`,
`format_tracker::lemma_written_range_takes_cursor_format` and the lemmas
that keep format tags well-formed,
`format_tracker::lemma_push_range_keeps_tiling`,
`format_tracker::lemma_insert_adjustment_keeps_tiling`,
`format_tracker::lemma_delete_keeps_tiling` (the tags tile the buffer),
`playback::lemma_decoration_toggles`,
`csi::lemma_csi_done_is_stable`,
`emulator::lemma_decckm_changes_only_cursor_keys`.
