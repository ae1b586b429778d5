# zdtwalk

A terminal browser for the device trees of a Zephyr workspace, with its
logic written and proved in Verus.

- `src/` is the verified library: the DTS grammar, parser and writer
  (`grammar`, `parser`, `serializer`, `error`), what the writer and the
  reader agree on, from single values up to whole trees (`round_trip`,
  `node_round_trip`, `tree_round_trip`), the order of sorted output and
  the layout of a node's body (`sorting`), the tree model
  (`model`), merging of included trees (`resolver`), the west workspace rules
  (`west`, `workspace`), the binding types (`binding`), and the state of the
  browser: the file list (`file_tree`), the viewer (`viewer`, `highlight`),
  the overlay generator (`generator`), panel focus (`panel`), the clipboard
  sequence (`clipboard`) and the browser as a whole (`session`), which turns
  keys and the results of background work into new states and requests for
  outside work.
- `app/` is the program around it: the command line, the terminal, drawing
  with ratatui, reading files and directories, YAML parsing with serde, git
  checkouts of HAL sources, and carrying out the requests of `session`.
- `tests/` runs the library on concrete inputs.
