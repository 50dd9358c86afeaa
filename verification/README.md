# fff-tui

A file finder, a shell-history picker and a grep front end for the terminal.

`src/` is a library in Verus. Each function states what it returns in `requires`
and `ensures`, and Verus proves it. What holds of several functions together is
stated in the proof functions whose names begin with `law_`.

Calls into other crates and into a few functions of std are not proved: their
contracts are believed. They stand in `query` (reading queries), `history_search`
(the fuzzy matcher), `files` (git's flags, hashing), `text` (functions on
strings), and in `types` and `history_engine` (types that are carried through),
each with a comment that says what is claimed.

| module | what it holds |
| --- | --- |
| `types` | the values that pass between the parts |
| `text`, `order` | strings, numbers, sorting |
| `history` | reading a shell history |
| `history_search`, `history_engine` | searching it |
| `query` | reading queries |
| `files`, `paths` | the file list, and where data is kept |
| `grep` | grep: options, results, printing |
| `layout`, `selection` | fitting text, matching a query, the selected row |
| `ansi`, `lines`, `screen`, `render` | styles, rows, drawing |
| `picker` | the picker's state and what keys do to it |

`app/` is the program around it: arguments, terminal, file system, environment.
`tests/` holds the tests of the library.
