//! What the parser does to a whole input, stated without its internal
//! state, and the laws that tie the streaming parser to that statement.

use vstd::prelude::*;

use crate::diff::{
    body_line, finish_spec, goes_to_header, initial_state, is_file_start, name_after, step, BlockView,
    FileView, LineView, ParserState,
};

verus! {

/// One input line: the line used to recognise the diff structure, and the
/// line as kept in plain text.
pub type InputLine = (Seq<char>, Seq<char>);

/// Feeding `inputs` one after the other from state `st`: the state reached
/// and the blocks handed out on the way, in order.
pub open spec fn run(st: ParserState, inputs: Seq<InputLine>) -> (ParserState, Seq<BlockView>)
    decreases inputs.len(),
{
    if inputs.len() == 0 {
        (st, Seq::empty())
    } else {
        let (s1, b1) = run(st, inputs.drop_last());
        let (s2, b2) = step(s1, inputs.last().0, inputs.last().1);
        (s2, b1 + b2)
    }
}

/// All the blocks that a new parser hands out for `inputs`, `finish` included.
pub open spec fn parse_stream(inputs: Seq<InputLine>) -> Seq<BlockView> {
    let (s, b) = run(initial_state(), inputs);
    b + finish_spec(s)
}

/// The position of the last line that opens a file, if there is one.
pub open spec fn last_file_start(inputs: Seq<InputLine>) -> Option<int>
    decreases inputs.len(),
{
    if inputs.len() == 0 {
        None
    } else if is_file_start(inputs.last().0) {
        Some(inputs.len() - 1)
    } else {
        last_file_start(inputs.drop_last())
    }
}

/// The plain-text form of each line.
pub open spec fn raws(inputs: Seq<InputLine>) -> Seq<Seq<char>> {
    inputs.map_values(|p: InputLine| p.1)
}

/// The lines of a file's body (after its `diff ` line) that go to its header.
pub open spec fn header_part(rest: Seq<InputLine>) -> Seq<Seq<char>>
    decreases rest.len(),
{
    if rest.len() == 0 {
        Seq::empty()
    } else if goes_to_header(rest.last().0) {
        header_part(rest.drop_last()).push(rest.last().0)
    } else {
        header_part(rest.drop_last())
    }
}

/// The body lines of a file, from the lines after its `diff ` line.
pub open spec fn body_part(rest: Seq<InputLine>) -> Seq<LineView>
    decreases rest.len(),
{
    if rest.len() == 0 {
        Seq::empty()
    } else if goes_to_header(rest.last().0) {
        body_part(rest.drop_last())
    } else {
        body_part(rest.drop_last()).push(body_line(rest.last().0))
    }
}

/// The file name given by the last `+++ b/` line after the `diff ` line.
pub open spec fn name_part(rest: Seq<InputLine>) -> Option<Seq<char>>
    decreases rest.len(),
{
    if rest.len() == 0 {
        None
    } else if goes_to_header(rest.last().0) {
        name_after(name_part(rest.drop_last()), rest.last().0)
    } else {
        name_part(rest.drop_last())
    }
}

/// The file made of a `diff ` line and the lines up to the next one.
pub open spec fn file_of(seg: Seq<InputLine>) -> FileView {
    FileView {
        header: seq![seg[0].0] + header_part(seg.drop_first()),
        filename: name_part(seg.drop_first()),
        lines: body_part(seg.drop_first()),
    }
}

/// The blocks of an input: the lines before the first `diff ` line, if
/// any, form one plain block; each `diff ` line and the lines up to the
/// next one form one file.
pub open spec fn segment_blocks(inputs: Seq<InputLine>) -> Seq<BlockView>
    decreases inputs.len(),
{
    match last_file_start(inputs) {
        None => if inputs.len() == 0 {
            Seq::empty()
        } else {
            seq![BlockView::Plain(raws(inputs))]
        },
        Some(j) => if 0 <= j < inputs.len() {
            segment_blocks(inputs.take(j)) + seq![BlockView::Diff(file_of(inputs.skip(j)))]
        } else {
            Seq::empty()
        },
    }
}

pub proof fn lemma_last_file_start_bounds(inputs: Seq<InputLine>)
    ensures
        last_file_start(inputs) matches Some(j) ==> 0 <= j < inputs.len() && is_file_start(
            inputs[j].0,
        ) && (forall|k: int| j < k < inputs.len() ==> !is_file_start(#[trigger] inputs[k].0)),
    decreases inputs.len(),
{
    if inputs.len() > 0 && !is_file_start(inputs.last().0) {
        lemma_last_file_start_bounds(inputs.drop_last());
        if let Some(j) = last_file_start(inputs.drop_last()) {
            assert forall|k: int| j < k < inputs.len() implies !is_file_start(
                #[trigger] inputs[k].0,
            ) by {
                if k < inputs.len() - 1 {
                    assert(inputs.drop_last()[k] == inputs[k]);
                }
            }
        }
    }
}

/// What the parser holds after reading `inputs` from the start, and what
/// it has handed out so far, described by the segmentation.
pub open spec fn run_matches(inputs: Seq<InputLine>) -> bool {
    let (s, b) = run(initial_state(), inputs);
    match last_file_start(inputs) {
        None => {
            &&& s == ParserState {
                plain: raws(inputs),
                header: Seq::empty(),
                filename: None,
                lines: Seq::empty(),
                in_file: false,
            }
            &&& b == Seq::<BlockView>::empty()
        },
        Some(j) => {
            let f = file_of(inputs.skip(j));
            &&& s == ParserState {
                plain: Seq::empty(),
                header: f.header,
                filename: f.filename,
                lines: f.lines,
                in_file: true,
            }
            &&& b == segment_blocks(inputs.take(j))
        },
    }
}

proof fn lemma_run_matches(inputs: Seq<InputLine>)
    ensures
        run_matches(inputs),
    decreases inputs.len(),
{
    if inputs.len() == 0 {
        assert(raws(inputs) =~= Seq::<Seq<char>>::empty());
        return;
    }
    let prefix = inputs.drop_last();
    let l = inputs.last();
    let n = inputs.len() as int;
    lemma_run_matches(prefix);
    lemma_last_file_start_bounds(prefix);
    assert(prefix.push(l) =~= inputs);
    assert(raws(inputs) =~= raws(prefix).push(l.1));
    let (s1, b1) = run(initial_state(), prefix);
    if is_file_start(l.0) {
        assert(inputs.take(n - 1) =~= prefix);
        let seg = inputs.skip(n - 1);
        assert(seg.drop_first() =~= Seq::<InputLine>::empty());
        assert(seg[0] == l);
        match last_file_start(prefix) {
            None => {
                if prefix.len() == 0 {
                    assert(raws(prefix) =~= Seq::<Seq<char>>::empty());
                }
            },
            Some(j) => {
                assert(prefix.take(j) =~= inputs.take(n - 1).take(j));
            },
        }
        assert(seq![l.0] + header_part(seg.drop_first()) =~= seq![l.0]);
        let (s2, b2) = run(initial_state(), inputs);
        assert(b2 =~= segment_blocks(inputs.take(n - 1)));
    } else {
        match last_file_start(prefix) {
            None => {},
            Some(j) => {
                let seg_prev = prefix.skip(j);
                let seg = inputs.skip(j);
                assert(seg =~= seg_prev.push(l));
                assert(seg.drop_first() =~= seg_prev.drop_first().push(l));
                assert(seg.drop_first().drop_last() =~= seg_prev.drop_first());
                assert(inputs.take(j) =~= prefix.take(j));
                let f = file_of(seg);
                let fp = file_of(seg_prev);
                if goes_to_header(l.0) {
                    assert(f.header =~= fp.header.push(l.0));
                } else {
                    assert(f.header =~= fp.header);
                }
            },
        }
    }
}

/// Feeding a new parser the lines of an input one by one and then
/// finishing it hands out exactly the segmentation of that input: one
/// plain block of the lines before the first `diff ` line, if there are
/// any, then one file block for each `diff ` line with the lines up to the
/// next one.
pub proof fn law_stream_is_segmentation(inputs: Seq<InputLine>)
    ensures
        parse_stream(inputs) == segment_blocks(inputs),
{
    lemma_run_matches(inputs);
    lemma_last_file_start_bounds(inputs);
    let (s, b) = run(initial_state(), inputs);
    match last_file_start(inputs) {
        None => {
            if inputs.len() == 0 {
                assert(raws(inputs) =~= Seq::<Seq<char>>::empty());
            }
            assert(parse_stream(inputs) =~= segment_blocks(inputs));
        },
        Some(j) => {
            assert(parse_stream(inputs) =~= segment_blocks(inputs));
        },
    }
}

/// Whether two inputs differ at most in the plain-text form of lines at
/// or after the first line that opens a file.
pub open spec fn differ_only_in_files(a: Seq<InputLine>, b: Seq<InputLine>) -> bool {
    &&& a.len() == b.len()
    &&& forall|i: int| 0 <= i < a.len() ==> (#[trigger] a[i]).0 == b[i].0
    &&& forall|i: int|
        0 <= i < a.len() && (#[trigger] a[i]).1 != b[i].1 ==> exists|k: int|
            0 <= k <= i && is_file_start(#[trigger] a[k].0)
}

proof fn lemma_no_file_start(inputs: Seq<InputLine>)
    ensures
        last_file_start(inputs) is None ==> forall|k: int|
            0 <= k < inputs.len() ==> !is_file_start(#[trigger] inputs[k].0),
    decreases inputs.len(),
{
    if inputs.len() > 0 {
        lemma_no_file_start(inputs.drop_last());
        if last_file_start(inputs) is None {
            assert forall|k: int| 0 <= k < inputs.len() implies !is_file_start(
                #[trigger] inputs[k].0,
            ) by {
                if k < inputs.len() - 1 {
                    assert(inputs.drop_last()[k] == inputs[k]);
                }
            }
        }
    }
}

proof fn lemma_run_ignores_raw(a: Seq<InputLine>, b: Seq<InputLine>)
    requires
        differ_only_in_files(a, b),
    ensures
        run(initial_state(), a) == run(initial_state(), b),
    decreases a.len(),
{
    if a.len() == 0 {
        return;
    }
    let n = a.len() - 1;
    let a0 = a.drop_last();
    let b0 = b.drop_last();
    assert(differ_only_in_files(a0, b0)) by {
        assert forall|i: int| 0 <= i < a0.len() implies (#[trigger] a0[i]).0 == b0[i].0 by {
            assert(a0[i] == a[i] && b0[i] == b[i]);
        }
        assert forall|i: int| 0 <= i < a0.len() && (#[trigger] a0[i]).1 != b0[i].1 implies exists|
            k: int,
        | 0 <= k <= i && is_file_start(#[trigger] a0[k].0) by {
            assert(a0[i] == a[i] && b0[i] == b[i]);
            let k = choose|k: int| 0 <= k <= i && is_file_start(#[trigger] a[k].0);
            assert(a0[k] == a[k]);
        }
    }
    lemma_run_ignores_raw(a0, b0);
    assert(a[n].0 == b[n].0);
    if a[n].1 != b[n].1 {
        let k = choose|k: int| 0 <= k <= n && is_file_start(#[trigger] a[k].0);
        if k < n {
            lemma_no_file_start(a0);
            assert(a0[k] == a[k]);
            lemma_run_matches(a0);
        }
    }
}

/// From the first line that opens a file on, the plain-text form of a line
/// has no effect: inputs that differ only there make the parser hand out
/// the same blocks, call by call, and end in the same state.
pub proof fn law_raw_ignored_in_files(a: Seq<InputLine>, b: Seq<InputLine>)
    requires
        differ_only_in_files(a, b),
    ensures
        run(initial_state(), a) == run(initial_state(), b),
        parse_stream(a) == parse_stream(b),
{
    lemma_run_ignores_raw(a, b);
}

/// The lines of an input that open a file, in order.
pub open spec fn file_starts(inputs: Seq<InputLine>) -> Seq<Seq<char>>
    decreases inputs.len(),
{
    if inputs.len() == 0 {
        Seq::empty()
    } else if is_file_start(inputs.last().0) {
        file_starts(inputs.drop_last()).push(inputs.last().0)
    } else {
        file_starts(inputs.drop_last())
    }
}

/// The first header line of each file block, in order.
pub open spec fn diff_headers(blocks: Seq<BlockView>) -> Seq<Seq<char>>
    decreases blocks.len(),
{
    if blocks.len() == 0 {
        Seq::empty()
    } else {
        match blocks.last() {
            BlockView::Diff(f) => diff_headers(blocks.drop_last()).push(f.header[0]),
            BlockView::Plain(_) => diff_headers(blocks.drop_last()),
        }
    }
}

proof fn lemma_file_starts_tail(inputs: Seq<InputLine>, j: int)
    requires
        0 <= j < inputs.len(),
        is_file_start(inputs[j].0),
        forall|k: int| j < k < inputs.len() ==> !is_file_start(#[trigger] inputs[k].0),
    ensures
        file_starts(inputs) == file_starts(inputs.take(j)).push(inputs[j].0),
    decreases inputs.len(),
{
    if inputs.len() - 1 == j {
        assert(inputs.drop_last() =~= inputs.take(j));
    } else {
        let p = inputs.drop_last();
        assert forall|k: int| j < k < p.len() implies !is_file_start(#[trigger] p[k].0) by {
            assert(p[k] == inputs[k]);
        }
        lemma_file_starts_tail(p, j);
        assert(p.take(j) =~= inputs.take(j));
    }
}

proof fn lemma_file_starts_none(inputs: Seq<InputLine>)
    requires
        forall|k: int| 0 <= k < inputs.len() ==> !is_file_start(#[trigger] inputs[k].0),
    ensures
        file_starts(inputs) == Seq::<Seq<char>>::empty(),
    decreases inputs.len(),
{
    if inputs.len() > 0 {
        let p = inputs.drop_last();
        assert forall|k: int| 0 <= k < p.len() implies !is_file_start(#[trigger] p[k].0) by {
            assert(p[k] == inputs[k]);
        }
        lemma_file_starts_none(p);
    }
}

proof fn lemma_segment_headers(inputs: Seq<InputLine>)
    ensures
        diff_headers(segment_blocks(inputs)) == file_starts(inputs),
    decreases inputs.len(),
{
    lemma_last_file_start_bounds(inputs);
    lemma_no_file_start(inputs);
    match last_file_start(inputs) {
        None => {
            lemma_file_starts_none(inputs);
            if inputs.len() > 0 {
                let bs = seq![BlockView::Plain(raws(inputs))];
                assert(bs.drop_last() =~= Seq::<BlockView>::empty());
                assert(segment_blocks(inputs) == bs);
                assert(diff_headers(bs) == diff_headers(bs.drop_last()));
            }
        },
        Some(j) => {
            let pre = inputs.take(j);
            lemma_segment_headers(pre);
            lemma_file_starts_tail(inputs, j);
            let seg = inputs.skip(j);
            assert(seg[0] == inputs[j]);
            let d = BlockView::Diff(file_of(seg));
            let all = segment_blocks(pre) + seq![d];
            assert(all.drop_last() =~= segment_blocks(pre));
            assert(all.last() == d);
            assert(segment_blocks(inputs) == all);
            assert(file_of(seg).header[0] == inputs[j].0);
            assert(diff_headers(all) == diff_headers(segment_blocks(pre)).push(inputs[j].0));
        },
    }
}

/// The file blocks of an input match one to one, in order, the lines that
/// open a file: the n-th file block's header starts with the n-th such line.
pub proof fn law_files_match_diff_lines(inputs: Seq<InputLine>)
    ensures
        diff_headers(parse_stream(inputs)) == file_starts(inputs),
{
    law_stream_is_segmentation(inputs);
    lemma_segment_headers(inputs);
}

} // verus!
