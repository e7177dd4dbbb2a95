//! A syntax highlighter for the output of `git diff` and `git log -p`:
//! a streaming parser that splits the text into plain blocks and per-file
//! diff blocks, and a renderer that colours those blocks for a terminal.
//!
//! - `diff`: the parser, with its model (`step`, `finish_spec`);
//! - `segments`: what the parser makes of a whole input, and the law that
//!   streaming gives exactly that;
//! - `invariants`: what every parser state keeps, and what follows for the
//!   blocks handed out;
//! - `text`, `ansi`: string helpers, tab expansion, escape removal;
//! - `highlight`: terminal rendering with `syntect`;
//! - `visible`: the law that rendering keeps the text;
//! - `pipeline`: one line of git output in, terminal lines out;
//! - `cli`: the command line's decisions.

pub mod text;
pub mod diff;
pub mod segments;
pub mod invariants;
pub mod ansi;
pub mod highlight;

pub mod pipeline;
pub mod cli;
pub mod visible;
