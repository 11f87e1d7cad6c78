# cobalt

COBALT turns COBOL source files into interactive terminal user interfaces:
the SCREEN SECTION describes a tree of containers, fields and buttons, the
WORKING-STORAGE SECTION the application's state, and the paragraphs of the
PROCEDURE DIVISION the handlers that buttons perform.

The library under `src/` is written in Verus and verified:

- `source`, `lexer`, `grammar`, `parser`: normalisation, tokens, the grammar
  as spec functions, and a parser proved to follow it exactly;
- `tree`: the screen tree built from level numbers;
- `interp`, `interp_laws`: the paragraph interpreter and its laws; work on
  binary floating point and the clock is asked for through `Request` values
  and answered by the caller;
- `focus`, `keys`, `view`, `session`: what the terminal front end decides
  (focus order, key handling, what each node looks like, the event loop's
  steps);
- `outline`, `project`: the `check` report and the files of a new project.

`app/` holds the command-line program: file I/O, JSON output, the terminal
drawing with ratatui and crossterm, and the floating-point answers to the
interpreter's requests.
