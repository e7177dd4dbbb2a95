# iris

A syntax highlighter for git output (`git diff`, `git log -p`), usable as
git's pager. The library under `src/` is verified with Verus; `app/` holds
the command (`main`, standard input and output, the pager, theme loading).

- `src/diff.rs`: the streaming diff parser and its model as a step function.
- `src/segments.rs`: the whole-input statement of the parser and the proof
  that feeding lines one by one yields it.
- `src/invariants.rs`: state invariants, at most one block per line, every
  input line handed out exactly once, plain text only first.
- `src/segments.rs` also proves that file blocks match the `diff ` lines one
  to one, and that the plain-text form of a line has no effect once a file
  is open.
- `src/highlight.rs`, `src/visible.rs`: terminal rendering with `syntect`
  (each code region in the colour of the style syntect gives it), and the
  proofs that, once the colour sequences are removed, a rendered
  line shows its marker and a beginning of its text, and all of its text
  when the highlighter succeeds on the line.
- `src/text.rs`, `src/ansi.rs`, `src/pipeline.rs`, `src/cli.rs`: helpers,
  escape removal with `strip-ansi-escapes`, per-line processing (and the
  law over a whole input of raw lines), command line decisions.
