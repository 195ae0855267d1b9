# toku

The core of a terminal text editor, written in Verus. The library under `src/` states
a contract for each function and Verus proves it, except for the small wrappers marked
`#[verifier::external_body]` that call `bytecount`, `memchr`, `bstr`, `circular-buffer`,
`ropey`, `fuzzy-matcher`, `slotmap` and a few std functions: their contracts restate
what those crates' sources and documentation give, and are trusted.

- `slab`, `tree`, `edit`, `rope`: a persistent rope of bytes held in a red-black tree.
  Insertion, splitting, joining and deletion keep the bytes exactly as stated and keep
  the tree a red-black tree. Insertion keeps it so when the root is black, as it is in
  every rope these operations build from an empty one; under a red root, a red pair
  made below it can stay.
- `nav`, `cursor`, `lines`, `iter`, `chars`: walking a rope byte by byte, leaf by leaf,
  line by line, and char by char, with the conversions between offsets and points.
- `sumtree`: a generic red-black tree that keeps a summary at each branch, with a cursor
  that walks its leaves in order or searches down from the root, and insertion beside a
  leaf that keeps the tree balanced.
- `buffer`, `editor`: the text of a buffer as a `ropey` rope, and an editor whose cursor
  moves by chars, lines and words over it.
- `byte_editor`: an editor whose cursor walks the bytes of the rope above.
- `metrics`: the length, line count and first and last line lengths of a run of text,
  and how two runs combine.
- `commands`: a registry of named commands searched with a fuzzy matcher, its matches
  ordered by score.
- `theme`, `ui`: the colour palette and scheme, colours written as `#rrggbb`, and the
  cells the picker's frame and the commands pane's result rows draw.
- `selector`, `app`, `term`: the query and focus of a picker, the key bindings of the
  panes, the order of visible panes, what a command does to the panes, editors and
  buffers, and the bytes a terminal sends and is sent.

`app/` is the terminal program around the library: argument parsing, file reading, the
terminal and the event loop. `tests/` holds the tests.
