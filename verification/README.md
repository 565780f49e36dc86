# hmm_rs

A terminal mind-map editor, with its logic written and proved in Verus.

- `src/` is the verified library: the tree model over an `indextree` arena
  (`tree`), reading and writing the tab-indented text form (`parser`,
  `outline`, `readback`), the editor's state and undo history (`app`), the
  actions (`actions/`), key bindings (`event`), the layout (`layout`), the
  text drawn on screen (`ui/`), and properties of the library as a whole
  (`laws`).
- `app/` is the terminal program around it: command line, settings file,
  terminal input and drawing, file and clipboard access, and the
  floating-point viewport.
- `tests/` exercises the library.
