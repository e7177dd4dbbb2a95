//! How each line of git output reaches the parser.

use vstd::prelude::*;

use crate::ansi::{strip_ansi, strip_ansi_spec};
use syntect::highlighting::Theme;
use syntect::parsing::{SyntaxReference, SyntaxSet};

use crate::diff::{blocks_view, initial_state, step, strings_view, Block, BlockView, DiffParser};
use crate::highlight::{opt_deref, render_file, renders_file};
use crate::segments::{law_stream_is_segmentation, parse_stream, run, segment_blocks, InputLine};
use crate::text::{expand_tabs, expand_tabs_spec};

verus! {

/// A line of git output as the parser reads it: the line used to
/// recognise the diff (tabs expanded, escape sequences removed) and the
/// line kept as plain text (tabs expanded).
pub open spec fn prepared_line(line: Seq<char>) -> InputLine {
    let expanded = expand_tabs_spec(line);
    (strip_ansi_spec(expanded), expanded)
}

/// Lines of git output as the parser reads them.
pub open spec fn prepared(lines: Seq<Seq<char>>) -> Seq<InputLine> {
    lines.map_values(|l: Seq<char>| prepared_line(l))
}

/// Reads one line of git output: tabs become four spaces; the line with
/// its escape sequences removed is used to recognise the diff, and the
/// line with tabs expanded is what plain text keeps.
pub fn process_line(parser: &mut DiffParser, line: &str) -> (emitted: Vec<Block>)
    ensures
        final(parser)@ == step(old(parser)@, prepared_line(line@).0, prepared_line(line@).1).0,
        blocks_view(emitted@) == step(old(parser)@, prepared_line(line@).0, prepared_line(line@).1).1,
{
    let expanded = expand_tabs(line);
    let stripped = strip_ansi(expanded.as_str());
    parser.feed(stripped.as_str(), expanded.as_str())
}

/// The terminal lines for a block: plain text as it is, a diff file
/// rendered with its code highlighted; `found` is the syntax found for the
/// file's name, if any.
pub fn render_block(block: &Block, found: Option<&SyntaxReference>, ss: &SyntaxSet, theme: &Theme) -> (out: Vec<String>)
    ensures
        match block@ {
            BlockView::Plain(lines) => strings_view(out@) == lines,
            BlockView::Diff(f) => renders_file(strings_view(out@), f, opt_deref(found), *ss, *theme),
        },
{
    match block {
        Block::Plain(lines) => {
            let mut out: Vec<String> = Vec::new();
            for i in 0..lines.len()
                invariant
                    out@.len() == i,
                    forall|k: int| 0 <= k < i ==> (#[trigger] out@[k])@ == lines@[k]@,
            {
                out.push(lines[i].clone());
            }
            assert(strings_view(out@) =~= strings_view(lines@));
            out
        },
        Block::Diff(file) => render_file(file, found, ss, theme),
    }
}

/// Processing git output line by line: after `process_line` on each line
/// of `lines` from a new parser, the parser's state and the blocks handed
/// out are those of `run` over the prepared lines, one more line adding one
/// `process_line` step; finishing then hands out, in all, the segmentation
/// of the prepared lines (one plain block before the first `diff ` line,
/// then one file per `diff ` line).
pub proof fn law_processed_input_is_segmentation(lines: Seq<Seq<char>>, next: Seq<char>)
    ensures
        ({
            let (s0, b0) = run(initial_state(), prepared(lines));
            let (s1, b1) = step(s0, prepared_line(next).0, prepared_line(next).1);
            run(initial_state(), prepared(lines.push(next))) == (s1, b0 + b1)
        }),
        parse_stream(prepared(lines)) == segment_blocks(prepared(lines)),
{
    assert(prepared(lines.push(next)).drop_last() =~= prepared(lines));
    assert(prepared(lines.push(next)).last() == prepared_line(next));
    law_stream_is_segmentation(prepared(lines));
}

} // verus!
