# yumete_core

The core of a modal text editor for writers of Chinese prose, verified with
Verus: the buffers with their undo history, the verbs and motions that keys run,
the command line, and the wiki of a book.

- `src/` is the library. `editor` holds the state and its view, `EditorView`;
  every operation is a function on that view, and the method that performs it
  is proved to do what the function says. `laws`, `laws_of_keys` and
  `laws_of_lines` state what holds of several operations together.
- `tests/` runs the library.
- `app/` does what the library decides on the disk: it opens and writes files
  and reads the wiki.

Text is kept in a [ropey](https://docs.rs/ropey) rope, searched with
[regex](https://docs.rs/regex), and cut and measured with
[unicode-segmentation](https://docs.rs/unicode-segmentation) and
[unicode-width](https://docs.rs/unicode-width). What is relied on of these is
written above each function that calls them.
