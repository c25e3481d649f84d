# nixos-config

View, diff and save the tracked configuration of a NixOS system: the values
that a configuration sets (`tracking.json`, `tracking-explicit.json`) and the
dependencies between options (`tracking-deps.json`), read from a system
directory or evaluated from a flake with `nix eval`.

The library in `src/` is written in Verus. Every function in it is verified
against its `requires`/`ensures` contract, except six small wrappers marked
`#[verifier::external_body]` whose contracts are trusted: the calls into
`similar` (`line_changes`, `unified_diff` in `diff`), into ratatui's layout
(`split_area` in `theme`), and into std for `str::to_lowercase`
(`to_lowercase` in `paths`), `String::push` (`push_char` in `text`) and
`str::len` (`byte_len` in `values`).

- `json`, `json2nix`: the JSON document model and its rendering as Nix text
  (nested, or flat with full dotted paths).
- `tree`, `tree_edit`, `tree_diff`, `tag_paths`, `deps`: the configuration
  tree, the dependency index, placeholders for paths only the index mentions,
  the tags of a tree diff, and those tags told path by path.
- `browse`, `browse_input`, `browse_step`: the state of the tree browser and
  what each key press or mouse event does to it.
- `values`, `panes`, `results`, `theme`, `frame`: what each pane shows, the
  layouts of the browser, and the panels of a frame.
- `diff`, `diff_frame`, `show`, `show_frame`: the side-by-side diff viewer and
  the text viewer, their keys and their frames.
- `resolve`, `cli`: which file to read or which `nix eval` to run, and the
  choices of the command line.

`app/` holds the program around the library: argument parsing, reading files
and running `nix`, the terminal, and drawing the panels with ratatui.
