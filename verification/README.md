# oxmap

Terminal mind map and flowchart editor with Mermaid `.mmd` export, built
around a library whose behaviour is specified and proved with Verus.

## Layout

- `src/` — the verified library:
  - `text.rs`: character-sequence utilities with the meaning of `str`'s
    methods (trimming, lines, words, replacing, joining).
  - `cursor.rs`: UTF-8 byte offsets, character boundaries, and inserting or
    removing a character at a byte offset.
  - `model.rs`: notes, note colours, relation types and their glyphs.
  - `editor.rs`: the editor state and the transition every key makes, with
    the outside work (drawing, files, the external editor, the `f32` canvas)
    handed back as an `Action`.
  - `mermaid.rs`: writing and reading the Mermaid definition, note labels,
    and the layout block of a saved `.mmd` file.
  - `markdown.rs`: the Markdown text a note is edited as outside the editor.
  - `geometry.rs`: integer screen geometry and the cells of a straight line.
  - `edges.rs`: relations as `oxdraw` edges and their route identifiers.
  - `laws.rs`, `round_trip.rs`: properties across several operations, such as
    what a saved file gives back when it is read again.
- `app/` — the terminal program: arguments, the event loop, drawing with
  `ratatui`, files, configuration, the external editor, and the canvas.
- `tests/` — tests of the library.

## Commands

| Key / Command | Action |
| --- | --- |
| `a` | Add a note and start editing it |
| `f` then `<key>` | Select a note by key |
| `i` | Edit the selected note inline |
| `o` | Open the selected note in your configured editor |
| `x` | Delete the selected note |
| `m` `f` `<key>` | Create a relation from the selected note |
| `u` `f` `<key>` | Remove the relation from the selected note to the target |
| `h` `j` `k` `l` | Move selected note, or pan when nothing is selected |
| `<count>` then motion | Repeat a move, e.g. `8l` |
| `s` / `d` | Zoom in / out |
| `G` | Fit all notes on screen |
| `Esc` | Cancel pending mode or clear selection |
| `:` | Enter command mode |
| `:w` / `:wq` / `:q` / `:q!` | Save / save and quit / quit if clean / force quit |
| `:export` | Write a Mermaid `.mmd` export |
| `:editor <cmd>` | Change editor command and save it to config |

Config lives at `~/.config/oxmap/config.json` (keys `editor`,
`movement_step`, `monocolor`).
