# shikigami

A terminal UI for [Jujutsu (jj)](https://github.com/jj-vcs/jj): the change
graph with its diffs, and `new` / `edit` / `describe` / `squash` / `rebase` /
`abandon` / `restore` / `absorb` / `undo` bound to single keys.

## Layout

- `src/` is the library, verified with Verus. Each public function states
  its result in its contract; the laws of the state machine and of the
  cache are proof functions named `law_*`.
  - `text`: lines, words, trimming and joining over character sequences.
  - `jj`: the jj command lines and the parsers of `jj log` and
    `jj diff --summary`.
  - `app`: the state machine, from a key to the jj command it runs; the
    caller runs the command and hands the outcome back.
  - `cache`: the per-commit cache of jj's output, least recently used
    first.
  - `ui`: the text and tints of each pane, and the pane sizes.
  - `ai`, `diff_filter`, `editor`, `decode`, `process`, `rich`, `cli`: what
    is made of the user's commands and of what child processes wrote.
- `app/` is the binary: argument parsing, the terminal, the event loop,
  the child processes and the cache file.
- `tests/` exercises the library on concrete values.

## Notes

- The cache keeps its entries in one `Vec`, least recently used first,
  with unique commit ids and at most 300 entries as its invariant. Keyed by
  `String`, the specifications of the std maps prove nothing about lookups
  here, and a sequence states the order of use directly.
- On Windows, output that is not valid UTF-8 is read lossily. Reading it
  in the console's OEM code page needs the Win32 API through unsafe code,
  which this crate does not carry.
