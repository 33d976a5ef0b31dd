# debth

A terminal program that keeps track of which lines of a source tree have been read: accepted,
rejected, or still waiting.

- `src/` is the library. It holds the rules and the state, and everything in it is verified
  with Verus. It reads and writes nothing: what lies on disk is handed to it as plain values,
  and what has to be written is handed back.
- `app/` is the program around it: the terminal, the keys, the disk and the JSON files.
- `tests/` runs the library.

The modules of the library:

| module | what it holds |
| --- | --- |
| `text`, `path`, `digest` | texts, paths and names for files |
| `wildcard`, `ignore`, `ignore_laws` | which paths are left out, and what a line of the ignore file does |
| `diff`, `review` | the state of lines, and how it survives a change of the file |
| `store` | the reviews of a workspace and what is saved of them |
| `git` | `.gitignore` and the address of the repository |
| `fs_tree`, `tree_laws` | the file explorer |
| `app`, `view` | what keys do, and what is on the screen |
