//! Properties that every state of the parser keeps, and what they say of
//! the blocks it hands out.

use vstd::prelude::*;

use crate::diff::{
    finish_spec, flush_file_spec, flush_plain_spec, initial_state, is_file_start, step, BlockView,
    FileView, LineView, ParserState,
};
use crate::segments::{
    file_of, last_file_start, parse_stream, raws, run, segment_blocks, InputLine,
};

verus! {

/// What holds of every state that a parser reaches: outside a file there
/// is no file being read; inside one there is no plain text left, and the
/// file's header starts with the `diff ` line that opened it.
pub open spec fn consistent(st: ParserState) -> bool {
    if st.in_file {
        &&& st.plain.len() == 0
        &&& st.header.len() > 0
        &&& is_file_start(st.header[0])
    } else {
        &&& st.header.len() == 0
        &&& st.lines.len() == 0
        &&& st.filename is None
    }
}

/// A block that is handed out is never empty: plain text has a line, and a
/// file's header starts with its `diff ` line.
pub open spec fn block_ok(b: BlockView) -> bool {
    match b {
        BlockView::Plain(ls) => ls.len() > 0,
        BlockView::Diff(f) => f.header.len() > 0 && is_file_start(f.header[0]),
    }
}

/// The number of input lines that a block holds.
pub open spec fn block_size(b: BlockView) -> nat {
    match b {
        BlockView::Plain(ls) => ls.len(),
        BlockView::Diff(f) => f.header.len() + f.lines.len(),
    }
}

/// The number of input lines that a sequence of blocks holds.
pub open spec fn blocks_size(bs: Seq<BlockView>) -> nat
    decreases bs.len(),
{
    if bs.len() == 0 {
        0
    } else {
        blocks_size(bs.drop_last()) + block_size(bs.last())
    }
}

/// The number of input lines that a parser holds and has not handed out.
pub open spec fn state_size(st: ParserState) -> nat {
    st.plain.len() + st.header.len() + st.lines.len()
}

proof fn lemma_blocks_size_concat(a: Seq<BlockView>, b: Seq<BlockView>)
    ensures
        blocks_size(a + b) == blocks_size(a) + blocks_size(b),
    decreases b.len(),
{
    if b.len() > 0 {
        assert((a + b).drop_last() =~= a + b.drop_last());
        lemma_blocks_size_concat(a, b.drop_last());
    } else {
        assert(a + b =~= a);
    }
}

proof fn lemma_blocks_size_one(b: BlockView)
    ensures
        blocks_size(seq![b]) == block_size(b),
{
    assert(seq![b].drop_last() =~= Seq::<BlockView>::empty());
    assert(blocks_size(seq![b].drop_last()) == 0);
    assert(seq![b].last() == b);
}

/// A new parser is in a consistent state.
pub proof fn law_initial_consistent()
    ensures
        consistent(initial_state()),
        state_size(initial_state()) == 0,
{
}

/// Reading a line from a consistent state: the state stays consistent;
/// once a file is open the parser never goes back to plain text; at most
/// one block is handed out, and one exactly when the line opens a file
/// while the parser holds plain text or a file; each block handed out is
/// well formed.
pub proof fn law_step_consistent(st: ParserState, line: Seq<char>, raw: Seq<char>)
    requires
        consistent(st),
    ensures
        consistent(step(st, line, raw).0),
        st.in_file ==> step(st, line, raw).0.in_file,
        step(st, line, raw).1.len() <= 1,
        step(st, line, raw).1.len() == 1 <==> (is_file_start(line) && (st.in_file || st.plain.len()
            > 0)),
        forall|i: int|
            0 <= i < step(st, line, raw).1.len() ==> block_ok(#[trigger] step(st, line, raw).1[i]),
{
    let r = step(st, line, raw);
    if is_file_start(line) {
        let (s1, b1) = flush_file_spec(st);
        let (s2, b2) = flush_plain_spec(s1);
        if st.in_file {
            assert(b2 =~= Seq::<BlockView>::empty());
            assert(r.1 =~= b1);
        } else {
            assert(b1 =~= Seq::<BlockView>::empty());
            assert(r.1 =~= b2);
        }
    }
}

/// Ending a consistent state hands out at most one well-formed block, and
/// one exactly when the parser holds any line.
pub proof fn law_finish_consistent(st: ParserState)
    requires
        consistent(st),
    ensures
        finish_spec(st).len() <= 1,
        finish_spec(st).len() == 1 <==> state_size(st) > 0,
        forall|i: int| 0 <= i < finish_spec(st).len() ==> block_ok(#[trigger] finish_spec(st)[i]),
{
    let (s1, b1) = flush_file_spec(st);
    let (s2, b2) = flush_plain_spec(s1);
    if st.in_file {
        assert(b2 =~= Seq::<BlockView>::empty());
        assert(finish_spec(st) =~= b1);
    } else {
        assert(b1 =~= Seq::<BlockView>::empty());
        assert(finish_spec(st) =~= b2);
    }
}

/// Every line read is kept exactly once: the lines that a step hands out
/// plus those it keeps are those kept before plus the new one; ending the
/// input hands out every line kept.
pub proof fn law_lines_kept(st: ParserState, line: Seq<char>, raw: Seq<char>)
    ensures
        state_size(step(st, line, raw).0) + blocks_size(step(st, line, raw).1) == state_size(st)
            + 1,
        blocks_size(finish_spec(st)) == state_size(st),
{
    let (s1, b1) = flush_file_spec(st);
    let (s2, b2) = flush_plain_spec(s1);
    lemma_blocks_size_concat(b1, b2);
    if st.header.len() > 0 || st.lines.len() > 0 {
        lemma_blocks_size_one(b1[0]);
        assert(b1 =~= seq![b1[0]]);
    }
    if s1.plain.len() > 0 {
        lemma_blocks_size_one(b2[0]);
        assert(b2 =~= seq![b2[0]]);
    }
}

proof fn lemma_run_size(inputs: Seq<InputLine>)
    ensures
        state_size(run(initial_state(), inputs).0) + blocks_size(run(initial_state(), inputs).1)
            == inputs.len(),
    decreases inputs.len(),
{
    if inputs.len() > 0 {
        lemma_run_size(inputs.drop_last());
        let (s1, b1) = run(initial_state(), inputs.drop_last());
        law_lines_kept(s1, inputs.last().0, inputs.last().1);
        lemma_blocks_size_concat(b1, step(s1, inputs.last().0, inputs.last().1).1);
    }
}

/// Parsing a whole input hands out every input line exactly once: the
/// blocks hold as many lines as the input has.
pub proof fn law_every_line_once(inputs: Seq<InputLine>)
    ensures
        blocks_size(parse_stream(inputs)) == inputs.len(),
{
    lemma_run_size(inputs);
    let (s, b) = run(initial_state(), inputs);
    law_lines_kept(s, Seq::empty(), Seq::empty());
    lemma_blocks_size_concat(b, finish_spec(s));
}

proof fn lemma_segment_shape(inputs: Seq<InputLine>)
    ensures
        forall|i: int|
            0 <= i < segment_blocks(inputs).len() ==> block_ok(#[trigger] segment_blocks(inputs)[i]),
        forall|i: int|
            1 <= i < segment_blocks(inputs).len() ==> (#[trigger] segment_blocks(inputs)[i]) is Diff,
    decreases inputs.len(),
{
    crate::segments::lemma_last_file_start_bounds(inputs);
    match last_file_start(inputs) {
        None => {
            if inputs.len() > 0 {
                assert(raws(inputs).len() > 0);
            }
        },
        Some(j) => {
            let pre = inputs.take(j);
            lemma_segment_shape(pre);
            let seg = inputs.skip(j);
            assert(seg[0] == inputs[j]);
            assert(file_of(seg).header[0] == seg[0].0);
            let all = segment_blocks(inputs);
            let sp = segment_blocks(pre);
            assert(all == sp + seq![BlockView::Diff(file_of(seg))]);
            assert forall|i: int| 0 <= i < all.len() implies block_ok(#[trigger] all[i]) by {
                if i < sp.len() {
                    assert(all[i] == sp[i]);
                }
            }
            assert forall|i: int| 1 <= i < all.len() implies (#[trigger] all[i]) is Diff by {
                if i < sp.len() {
                    assert(all[i] == sp[i]);
                }
            }
        },
    }
}

/// The blocks of a whole input are well formed, and only the first can be
/// plain text: every block after it is a file.
pub proof fn law_plain_only_first(inputs: Seq<InputLine>)
    ensures
        forall|i: int|
            0 <= i < parse_stream(inputs).len() ==> block_ok(#[trigger] parse_stream(inputs)[i]),
        forall|i: int| 1 <= i < parse_stream(inputs).len() ==> (#[trigger] parse_stream(inputs)[i]) is Diff,
{
    crate::segments::law_stream_is_segmentation(inputs);
    lemma_segment_shape(inputs);
}

/// A line that begins with `p` begins with `p`'s first character.
proof fn lemma_first_char(p: Seq<char>, line: Seq<char>)
    requires
        p.len() > 0,
        p.is_prefix_of(line),
    ensures
        line.len() > 0,
        line[0] == p[0],
{
    assert(line.subrange(0, p.len() as int)[0] == line[0]);
}

/// The first characters of the prefixes that the parser tells apart.
proof fn lemma_prefix_firsts()
    ensures
        "diff "@.len() == 5 && "diff "@[0] == 'd',
        "@@"@.len() == 2 && "@@"@[0] == '@',
        "+++ b/"@.len() == 6 && "+++ /dev/null"@.len() == 13,
        "--- "@.len() == 4 && "--- "@[0] == '-',
        "index "@.len() > 0 && "index "@[0] == 'i',
        "new file"@.len() > 0 && "new file"@[0] == 'n',
        "deleted file"@.len() > 0 && "deleted file"@[0] == 'd',
        "old mode"@.len() > 0 && "old mode"@[0] == 'o',
        "new mode"@.len() > 0 && "new mode"@[0] == 'n',
        "similarity index"@.len() > 0 && "similarity index"@[0] == 's',
        "rename from"@.len() > 0 && "rename from"@[0] == 'r',
        "rename to"@.len() > 0 && "rename to"@[0] == 'r',
        "copy from"@.len() > 0 && "copy from"@[0] == 'c',
        "copy to"@.len() > 0 && "copy to"@[0] == 'c',
        "Binary files"@.len() > 0 && "Binary files"@[0] == 'B',
{
    reveal_strlit("diff ");
    reveal_strlit("@@");
    reveal_strlit("+++ b/");
    reveal_strlit("+++ /dev/null");
    reveal_strlit("--- ");
    reveal_strlit("index ");
    reveal_strlit("new file");
    reveal_strlit("deleted file");
    reveal_strlit("old mode");
    reveal_strlit("new mode");
    reveal_strlit("similarity index");
    reveal_strlit("rename from");
    reveal_strlit("rename to");
    reveal_strlit("copy from");
    reveal_strlit("copy to");
    reveal_strlit("Binary files");
}

/// A line whose first character is none of the characters that begin a
/// recognised prefix (other than `+` and `-`) matches none of them.
proof fn lemma_not_structural(line: Seq<char>)
    requires
        line.len() > 0,
        line[0] == '+' || line[0] == '-' || line[0] == ' ',
    ensures
        !is_file_start(line),
        !"@@"@.is_prefix_of(line),
        line[0] != '+' ==> !"+++ b/"@.is_prefix_of(line) && !"+++ /dev/null"@.is_prefix_of(line),
        !"index "@.is_prefix_of(line) && !"new file"@.is_prefix_of(line) && !"deleted file"@.is_prefix_of(line),
        !"old mode"@.is_prefix_of(line) && !"new mode"@.is_prefix_of(line),
        !"similarity index"@.is_prefix_of(line) && !"rename from"@.is_prefix_of(line),
        !"rename to"@.is_prefix_of(line) && !"copy from"@.is_prefix_of(line),
        !"copy to"@.is_prefix_of(line) && !"Binary files"@.is_prefix_of(line),
        line[0] != '-' ==> !"--- "@.is_prefix_of(line),
{
    lemma_prefix_firsts();
    reveal_strlit("+++ b/");
    reveal_strlit("+++ /dev/null");
    let ps = seq![
        "diff "@, "@@"@, "+++ b/"@, "+++ /dev/null"@, "--- "@, "index "@, "new file"@,
        "deleted file"@, "old mode"@, "new mode"@, "similarity index"@, "rename from"@,
        "rename to"@, "copy from"@, "copy to"@, "Binary files"@
    ];
    assert forall|k: int| 0 <= k < ps.len() && (#[trigger] ps[k]).is_prefix_of(line) implies line[0]
        == ps[k][0] by {
        lemma_first_char(ps[k], line);
    }
    assert(ps[0] == "diff "@ && ps[1] == "@@"@ && ps[2] == "+++ b/"@ && ps[3] == "+++ /dev/null"@);
    assert(ps[4] == "--- "@ && ps[5] == "index "@ && ps[6] == "new file"@ && ps[7] == "deleted file"@);
    assert(ps[8] == "old mode"@ && ps[9] == "new mode"@ && ps[10] == "similarity index"@);
    assert(ps[11] == "rename from"@ && ps[12] == "rename to"@ && ps[13] == "copy from"@);
    assert(ps[14] == "copy to"@ && ps[15] == "Binary files"@);
}

/// Inside a file, a line that begins with `+` (and is not a `+++ b/` or
/// `+++ /dev/null` line) is an added line whose text is the rest of the
/// line after the `+`, the one-character line `+` (an added blank line)
/// included; it goes to the file's body, nothing else changes, and no
/// block is handed out.
pub proof fn law_plus_line_is_added(st: ParserState, line: Seq<char>, raw: Seq<char>)
    requires
        st.in_file,
        line.len() >= 1,
        line[0] == '+',
        !"+++ b/"@.is_prefix_of(line),
        !"+++ /dev/null"@.is_prefix_of(line),
    ensures
        step(st, line, raw).0 == (ParserState { lines: st.lines.push(LineView::Added(line.skip(1))), ..st }),
        step(st, line, raw).1.len() == 0,
{
    lemma_not_structural(line);
    lemma_prefix_firsts();
    assert(!"--- "@.is_prefix_of(line));
}

/// Inside a file, a line that begins with `-` but not with `--- ` is a
/// removed line whose text is the rest of the line after the `-`, the
/// one-character line `-` (a removed blank line) included; it goes to the
/// file's body, nothing else changes, and no block is handed out.
pub proof fn law_minus_line_is_removed(st: ParserState, line: Seq<char>, raw: Seq<char>)
    requires
        st.in_file,
        line.len() >= 1,
        line[0] == '-',
        !"--- "@.is_prefix_of(line),
    ensures
        step(st, line, raw).0 == (ParserState { lines: st.lines.push(LineView::Removed(line.skip(1))), ..st }),
        step(st, line, raw).1.len() == 0,
{
    lemma_not_structural(line);
    lemma_prefix_firsts();
    assert(!"+++ b/"@.is_prefix_of(line)) by {
        if "+++ b/"@.is_prefix_of(line) {
            reveal_strlit("+++ b/");
            lemma_first_char("+++ b/"@, line);
        }
    }
    assert(!"+++ /dev/null"@.is_prefix_of(line)) by {
        if "+++ /dev/null"@.is_prefix_of(line) {
            reveal_strlit("+++ /dev/null");
            lemma_first_char("+++ /dev/null"@, line);
        }
    }
}

/// Inside a file, a line that begins with a space is a context line whose
/// text is the rest of the line after the space.
pub proof fn law_space_line_is_context(st: ParserState, line: Seq<char>, raw: Seq<char>)
    requires
        st.in_file,
        line.len() >= 1,
        line[0] == ' ',
    ensures
        step(st, line, raw).0 == (ParserState { lines: st.lines.push(LineView::Context(line.skip(1))), ..st }),
        step(st, line, raw).1.len() == 0,
{
    lemma_not_structural(line);
    lemma_prefix_firsts();
    assert(!"+++ b/"@.is_prefix_of(line)) by {
        if "+++ b/"@.is_prefix_of(line) {
            reveal_strlit("+++ b/");
            lemma_first_char("+++ b/"@, line);
        }
    }
    assert(!"+++ /dev/null"@.is_prefix_of(line)) by {
        if "+++ /dev/null"@.is_prefix_of(line) {
            reveal_strlit("+++ /dev/null");
            lemma_first_char("+++ /dev/null"@, line);
        }
    }
}

/// Inside a file, every line that begins with `--- ` (whatever follows,
/// `--- /dev/null` included), `index `, `new file`, `deleted file`,
/// `old mode`, `new mode`, `similarity index`, `rename from`, `rename to`,
/// `copy from`, `copy to` or `Binary files` is a header line: it is added
/// to the file's header as it is, the body and the file name are kept, and
/// no block is handed out.
pub proof fn law_header_lines_go_to_header(st: ParserState, line: Seq<char>, raw: Seq<char>)
    requires
        st.in_file,
        "--- "@.is_prefix_of(line) || "index "@.is_prefix_of(line) || "new file"@.is_prefix_of(line)
            || "deleted file"@.is_prefix_of(line) || "old mode"@.is_prefix_of(line)
            || "new mode"@.is_prefix_of(line) || "similarity index"@.is_prefix_of(line)
            || "rename from"@.is_prefix_of(line) || "rename to"@.is_prefix_of(line)
            || "copy from"@.is_prefix_of(line) || "copy to"@.is_prefix_of(line)
            || "Binary files"@.is_prefix_of(line),
    ensures
        step(st, line, raw).0 == (ParserState { header: st.header.push(line), ..st }),
        step(st, line, raw).1.len() == 0,
{
    lemma_prefix_firsts();
    reveal_strlit("diff ");
    reveal_strlit("deleted file");
    reveal_strlit("+++ b/");
    reveal_strlit("+++ /dev/null");
    // no header prefix is a file start: only `deleted file` begins with `d`,
    // and it differs from `diff ` at its second character
    assert(!is_file_start(line)) by {
        if is_file_start(line) {
            lemma_first_char("diff "@, line);
            if "deleted file"@.is_prefix_of(line) {
                assert(line[1] == "diff "@[1]);
                assert(line[1] == "deleted file"@[1]);
            } else {
                let ps = seq![
                    "--- "@, "index "@, "new file"@, "old mode"@, "new mode"@,
                    "similarity index"@, "rename from"@, "rename to"@, "copy from"@, "copy to"@,
                    "Binary files"@
                ];
                assert forall|k: int| 0 <= k < ps.len() implies !(#[trigger] ps[k]).is_prefix_of(line) by {
                    if ps[k].is_prefix_of(line) {
                        lemma_first_char(ps[k], line);
                    }
                }
                assert(ps[0] == "--- "@ && ps[1] == "index "@ && ps[2] == "new file"@ && ps[3] == "old mode"@);
                assert(ps[4] == "new mode"@ && ps[5] == "similarity index"@ && ps[6] == "rename from"@);
                assert(ps[7] == "rename to"@ && ps[8] == "copy from"@ && ps[9] == "copy to"@);
                assert(ps[10] == "Binary files"@);
            }
        }
    }
    assert(!"+++ b/"@.is_prefix_of(line)) by {
        if "+++ b/"@.is_prefix_of(line) {
            lemma_first_char("+++ b/"@, line);
            let ps = seq![
                "--- "@, "index "@, "new file"@, "deleted file"@, "old mode"@, "new mode"@,
                "similarity index"@, "rename from"@, "rename to"@, "copy from"@, "copy to"@,
                "Binary files"@
            ];
            assert forall|k: int| 0 <= k < ps.len() implies !(#[trigger] ps[k]).is_prefix_of(line) by {
                if ps[k].is_prefix_of(line) {
                    lemma_first_char(ps[k], line);
                }
            }
            assert(ps[0] == "--- "@ && ps[1] == "index "@ && ps[2] == "new file"@ && ps[3] == "deleted file"@);
            assert(ps[4] == "old mode"@ && ps[5] == "new mode"@ && ps[6] == "similarity index"@);
            assert(ps[7] == "rename from"@ && ps[8] == "rename to"@ && ps[9] == "copy from"@);
            assert(ps[10] == "copy to"@ && ps[11] == "Binary files"@);
        }
    }
}

/// Inside a file, a line that begins with `@@` is a hunk header, kept
/// whole in the file's body.
pub proof fn law_hunk_line(st: ParserState, line: Seq<char>, raw: Seq<char>)
    requires
        st.in_file,
        "@@"@.is_prefix_of(line),
    ensures
        step(st, line, raw).0 == (ParserState { lines: st.lines.push(LineView::HunkHeader(line)), ..st }),
        step(st, line, raw).1.len() == 0,
{
    lemma_prefix_firsts();
    lemma_first_char("@@"@, line);
    lemma_no_prefix_but_first(line, '@');
}

/// Whether `line` begins with none of the prefixes the parser tells apart
/// inside a file, as its first character shows.
proof fn lemma_no_prefix_but_first(line: Seq<char>, c: char)
    requires
        line.len() > 0,
        line[0] == c,
        c != 'd' && c != '+' && c != '-' && c != 'i' && c != 'n' && c != 'o' && c != 's' && c
            != 'r' && c != 'B',
    ensures
        !is_file_start(line),
        !"+++ b/"@.is_prefix_of(line) && !"+++ /dev/null"@.is_prefix_of(line),
        !"--- "@.is_prefix_of(line) && !"index "@.is_prefix_of(line),
        !"new file"@.is_prefix_of(line) && !"deleted file"@.is_prefix_of(line),
        !"old mode"@.is_prefix_of(line) && !"new mode"@.is_prefix_of(line),
        !"similarity index"@.is_prefix_of(line) && !"rename from"@.is_prefix_of(line),
        !"rename to"@.is_prefix_of(line) && !"Binary files"@.is_prefix_of(line),
        c != 'c' ==> !"copy from"@.is_prefix_of(line) && !"copy to"@.is_prefix_of(line),
        c != '@' ==> !"@@"@.is_prefix_of(line),
{
    lemma_prefix_firsts();
    reveal_strlit("+++ b/");
    reveal_strlit("+++ /dev/null");
    let ps = seq![
        "diff "@, "@@"@, "+++ b/"@, "+++ /dev/null"@, "--- "@, "index "@, "new file"@,
        "deleted file"@, "old mode"@, "new mode"@, "similarity index"@, "rename from"@,
        "rename to"@, "copy from"@, "copy to"@, "Binary files"@
    ];
    assert forall|k: int| 0 <= k < ps.len() && (#[trigger] ps[k]).is_prefix_of(line) implies line[0]
        == ps[k][0] by {
        lemma_first_char(ps[k], line);
    }
    assert(ps[0] == "diff "@ && ps[1] == "@@"@ && ps[2] == "+++ b/"@ && ps[3] == "+++ /dev/null"@);
    assert(ps[4] == "--- "@ && ps[5] == "index "@ && ps[6] == "new file"@ && ps[7] == "deleted file"@);
    assert(ps[8] == "old mode"@ && ps[9] == "new mode"@ && ps[10] == "similarity index"@);
    assert(ps[11] == "rename from"@ && ps[12] == "rename to"@ && ps[13] == "copy from"@);
    assert(ps[14] == "copy to"@ && ps[15] == "Binary files"@);
}

/// Inside a file, a line with no marker and no recognised prefix (it is
/// empty or starts with a character that begins none of them, such as `\`
/// in `\ No newline at end of file`) is a context line kept whole.
pub proof fn law_unmarked_line_is_context(st: ParserState, line: Seq<char>, raw: Seq<char>)
    requires
        st.in_file,
        line.len() == 0 || {
            let c = line[0];
            c != 'd' && c != '+' && c != '-' && c != ' ' && c != '@' && c != 'i' && c != 'n' && c
                != 'o' && c != 's' && c != 'r' && c != 'c' && c != 'B'
        },
    ensures
        step(st, line, raw).0 == (ParserState { lines: st.lines.push(LineView::Context(line)), ..st }),
        step(st, line, raw).1.len() == 0,
{
    lemma_prefix_firsts();
    reveal_strlit("+++ b/");
    reveal_strlit("+++ /dev/null");
    if line.len() == 0 {
        let ps = seq![
            "diff "@, "@@"@, "+++ b/"@, "+++ /dev/null"@, "--- "@, "index "@, "new file"@,
            "deleted file"@, "old mode"@, "new mode"@, "similarity index"@, "rename from"@,
            "rename to"@, "copy from"@, "copy to"@, "Binary files"@
        ];
        assert forall|k: int| 0 <= k < ps.len() implies !(#[trigger] ps[k]).is_prefix_of(line) by {
            assert(ps[k].len() > 0);
        }
        assert(ps[0] == "diff "@ && ps[1] == "@@"@ && ps[2] == "+++ b/"@ && ps[3] == "+++ /dev/null"@);
        assert(ps[4] == "--- "@ && ps[5] == "index "@ && ps[6] == "new file"@ && ps[7] == "deleted file"@);
        assert(ps[8] == "old mode"@ && ps[9] == "new mode"@ && ps[10] == "similarity index"@);
        assert(ps[11] == "rename from"@ && ps[12] == "rename to"@ && ps[13] == "copy from"@);
        assert(ps[14] == "copy to"@ && ps[15] == "Binary files"@);
    } else {
        lemma_no_prefix_but_first(line, line[0]);
    }
}

/// Inside a file, a `+++ b/NAME` line goes to the header and makes NAME
/// (the rest of the line after `+++ b/`) the file's name; a
/// `+++ /dev/null` line goes to the header and keeps the name.
pub proof fn law_new_name_line(st: ParserState, line: Seq<char>, raw: Seq<char>)
    requires
        st.in_file,
        "+++ b/"@.is_prefix_of(line) || "+++ /dev/null"@.is_prefix_of(line),
    ensures
        step(st, line, raw).0.header == st.header.push(line),
        step(st, line, raw).0.lines == st.lines,
        step(st, line, raw).0.plain == st.plain,
        step(st, line, raw).0.in_file,
        "+++ b/"@.is_prefix_of(line) ==> step(st, line, raw).0.filename == Some(line.skip(6)),
        !"+++ b/"@.is_prefix_of(line) ==> step(st, line, raw).0.filename == st.filename,
        step(st, line, raw).1.len() == 0,
{
    lemma_prefix_firsts();
    reveal_strlit("+++ b/");
    reveal_strlit("+++ /dev/null");
    assert(!is_file_start(line)) by {
        if is_file_start(line) {
            lemma_first_char("diff "@, line);
            if "+++ b/"@.is_prefix_of(line) {
                lemma_first_char("+++ b/"@, line);
            } else {
                lemma_first_char("+++ /dev/null"@, line);
            }
        }
    }
}

/// Outside a file, a line that does not begin with `diff ` is plain text,
/// kept as its plain-text form (`raw`), and nothing is handed out.
pub proof fn law_plain_line_kept_raw(st: ParserState, line: Seq<char>, raw: Seq<char>)
    requires
        !st.in_file,
        !"diff "@.is_prefix_of(line),
    ensures
        step(st, line, raw).0 == (ParserState { plain: st.plain.push(raw), ..st }),
        step(st, line, raw).1.len() == 0,
{
}

/// Any line that begins with `diff ` (`diff --git`, `diff --cc`, ...)
/// opens a new file, from any consistent state: the file being read, if
/// any, is handed out whole as a block, else the plain text read so far,
/// if any; the new file's header is that line alone, with no body and no
/// name yet.
pub proof fn law_diff_line_opens_file(st: ParserState, line: Seq<char>, raw: Seq<char>)
    requires
        consistent(st),
        "diff "@.is_prefix_of(line),
    ensures
        step(st, line, raw).0 == (ParserState {
            plain: Seq::empty(),
            header: seq![line],
            filename: None,
            lines: Seq::empty(),
            in_file: true,
        }),
        st.in_file ==> step(st, line, raw).1 == seq![
            BlockView::Diff((FileView { header: st.header, filename: st.filename, lines: st.lines })),
        ],
        !st.in_file && st.plain.len() > 0 ==> step(st, line, raw).1 == seq![BlockView::Plain(st.plain)],
        !st.in_file && st.plain.len() == 0 ==> step(st, line, raw).1.len() == 0,
{
    let (s1, b1) = flush_file_spec(st);
    let (s2, b2) = flush_plain_spec(s1);
    assert(Seq::<Seq<char>>::empty().push(line) =~= seq![line]);
    if st.in_file {
        assert(st.plain =~= Seq::<Seq<char>>::empty());
        assert(b2 =~= Seq::<BlockView>::empty());
        assert(b1 + b2 =~= b1);
    } else {
        assert(st.header =~= Seq::<Seq<char>>::empty());
        assert(st.lines =~= Seq::<LineView>::empty());
        assert(b1 + b2 =~= b2);
        if st.plain.len() == 0 {
            assert(st.plain =~= Seq::<Seq<char>>::empty());
        }
    }
    assert(s2.header =~= Seq::<Seq<char>>::empty());
    assert(s2.lines =~= Seq::<LineView>::empty());
    assert(s2.plain =~= Seq::<Seq<char>>::empty());
    assert(s2.header.push(line) =~= seq![line]);
}

} // verus!
