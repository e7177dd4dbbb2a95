//! A streaming parser that splits git output into plain-text blocks and
//! per-file diff blocks.
//!
//! Lines are fed one at a time. A line that starts with `diff ` opens a new
//! file; everything before the first such line is plain text. Inside a file,
//! header lines (`--- `, `+++ `, `index `, mode and rename lines, ...) are
//! collected apart from the hunk headers and the added, removed and context
//! lines. A block is handed out as soon as it is complete: the plain text or
//! the previous file when a `diff ` line arrives, and the rest on `finish`.

use vstd::prelude::*;

use crate::invariants::{consistent, law_initial_consistent, law_step_consistent};
use crate::text::{has_prefix, starts_with_char, suffix_after, to_owned_string};

verus! {

/// A block of output: text outside any diff, or one file of a diff.
pub enum Block {
    Plain(Vec<String>),
    Diff(DiffFile),
}

/// One line of a file's diff body.
pub enum DiffLine {
    Context(String),
    Added(String),
    Removed(String),
    HunkHeader(String),
}

/// One file of a diff: its header lines, the name of the new file when the
/// header gives one, and the lines of its hunks.
pub struct DiffFile {
    pub header_lines: Vec<String>,
    pub filename: Option<String>,
    pub lines: Vec<DiffLine>,
}

/// The streaming parser.
pub struct DiffParser {
    pending: Vec<Block>,
    plain_lines: Vec<String>,
    current_header: Vec<String>,
    current_filename: Option<String>,
    current_lines: Vec<DiffLine>,
    in_file: bool,
}

// ---------------------------------------------------------------------------
// The mathematical model
// ---------------------------------------------------------------------------

/// A diff body line, with its text as characters.
pub enum LineView {
    Context(Seq<char>),
    Added(Seq<char>),
    Removed(Seq<char>),
    HunkHeader(Seq<char>),
}

/// A diff file, with its strings as characters.
pub struct FileView {
    pub header: Seq<Seq<char>>,
    pub filename: Option<Seq<char>>,
    pub lines: Seq<LineView>,
}

/// A block, with its strings as characters.
pub enum BlockView {
    Plain(Seq<Seq<char>>),
    Diff(FileView),
}

/// What the parser holds between two calls.
pub struct ParserState {
    /// Lines of plain text not handed out yet.
    pub plain: Seq<Seq<char>>,
    /// Header lines of the file being read.
    pub header: Seq<Seq<char>>,
    /// Name of the file being read, once its `+++ b/` line was seen.
    pub filename: Option<Seq<char>>,
    /// Body lines of the file being read.
    pub lines: Seq<LineView>,
    /// Whether a `diff ` line has opened a file.
    pub in_file: bool,
}

pub open spec fn strings_view(v: Seq<String>) -> Seq<Seq<char>> {
    v.map_values(|s: String| s@)
}

pub open spec fn option_view(o: Option<String>) -> Option<Seq<char>> {
    match o {
        Some(s) => Some(s@),
        None => None,
    }
}

impl View for DiffLine {
    type V = LineView;

    open spec fn view(&self) -> LineView {
        match self {
            DiffLine::Context(s) => LineView::Context(s@),
            DiffLine::Added(s) => LineView::Added(s@),
            DiffLine::Removed(s) => LineView::Removed(s@),
            DiffLine::HunkHeader(s) => LineView::HunkHeader(s@),
        }
    }
}

pub open spec fn lines_view(v: Seq<DiffLine>) -> Seq<LineView> {
    v.map_values(|l: DiffLine| l@)
}

impl View for DiffFile {
    type V = FileView;

    open spec fn view(&self) -> FileView {
        FileView {
            header: strings_view(self.header_lines@),
            filename: option_view(self.filename),
            lines: lines_view(self.lines@),
        }
    }
}

impl View for Block {
    type V = BlockView;

    open spec fn view(&self) -> BlockView {
        match self {
            Block::Plain(v) => BlockView::Plain(strings_view(v@)),
            Block::Diff(f) => BlockView::Diff(f@),
        }
    }
}

pub open spec fn blocks_view(v: Seq<Block>) -> Seq<BlockView> {
    v.map_values(|b: Block| b@)
}

impl View for DiffParser {
    type V = ParserState;

    closed spec fn view(&self) -> ParserState {
        ParserState {
            plain: strings_view(self.plain_lines@),
            header: strings_view(self.current_header@),
            filename: option_view(self.current_filename),
            lines: lines_view(self.current_lines@),
            in_file: self.in_file,
        }
    }
}

/// The state of a parser that has read nothing.
pub open spec fn initial_state() -> ParserState {
    ParserState {
        plain: Seq::empty(),
        header: Seq::empty(),
        filename: None,
        lines: Seq::empty(),
        in_file: false,
    }
}

/// Whether a line inside a file belongs to the file's header (apart from
/// the `+++ ` lines, which are told apart first).
pub open spec fn is_header(line: Seq<char>) -> bool {
    ||| "--- "@.is_prefix_of(line)
    ||| "index "@.is_prefix_of(line)
    ||| "new file"@.is_prefix_of(line)
    ||| "deleted file"@.is_prefix_of(line)
    ||| "old mode"@.is_prefix_of(line)
    ||| "new mode"@.is_prefix_of(line)
    ||| "similarity index"@.is_prefix_of(line)
    ||| "rename from"@.is_prefix_of(line)
    ||| "rename to"@.is_prefix_of(line)
    ||| "copy from"@.is_prefix_of(line)
    ||| "copy to"@.is_prefix_of(line)
    ||| "Binary files"@.is_prefix_of(line)
}

/// Whether a line opens a new file.
pub open spec fn is_file_start(line: Seq<char>) -> bool {
    "diff "@.is_prefix_of(line)
}

/// Whether a line inside a file is a `+++ ` line that names the new file
/// (`+++ b/...`) or says that there is none (`+++ /dev/null`).
pub open spec fn is_new_name(line: Seq<char>) -> bool {
    "+++ b/"@.is_prefix_of(line) || "+++ /dev/null"@.is_prefix_of(line)
}

/// Whether a line inside a file goes to the file's header.
pub open spec fn goes_to_header(line: Seq<char>) -> bool {
    is_new_name(line) || is_header(line)
}

/// The body line that a line inside a file becomes, when it is not a
/// header line: a hunk header, or an added, removed or context line whose
/// marker character is dropped. A line with no marker is context as it is.
pub open spec fn body_line(line: Seq<char>) -> LineView {
    if "@@"@.is_prefix_of(line) {
        LineView::HunkHeader(line)
    } else if line.len() > 0 && line[0] == '+' {
        LineView::Added(line.skip(1))
    } else if line.len() > 0 && line[0] == '-' {
        LineView::Removed(line.skip(1))
    } else if line.len() > 0 && line[0] == ' ' {
        LineView::Context(line.skip(1))
    } else {
        LineView::Context(line)
    }
}

/// The file name that a `+++ ` line gives, if any, else the one known so far.
pub open spec fn name_after(known: Option<Seq<char>>, line: Seq<char>) -> Option<Seq<char>> {
    if "+++ b/"@.is_prefix_of(line) {
        Some(line.skip(6))
    } else {
        known
    }
}

/// Hands out the file being read, if it has any line.
pub open spec fn flush_file_spec(st: ParserState) -> (ParserState, Seq<BlockView>) {
    if st.header.len() > 0 || st.lines.len() > 0 {
        (
            ParserState {
                header: Seq::empty(),
                filename: None,
                lines: Seq::empty(),
                in_file: false,
                ..st
            },
            seq![BlockView::Diff(FileView { header: st.header, filename: st.filename, lines: st.lines })],
        )
    } else {
        (st, Seq::empty())
    }
}

/// Hands out the plain text, if there is any.
pub open spec fn flush_plain_spec(st: ParserState) -> (ParserState, Seq<BlockView>) {
    if st.plain.len() > 0 {
        (ParserState { plain: Seq::empty(), ..st }, seq![BlockView::Plain(st.plain)])
    } else {
        (st, Seq::empty())
    }
}

/// What reading one line does: the next state, and the blocks handed out.
/// `line` is the line as classified (escape codes removed); `raw` is the
/// line as kept in plain text.
pub open spec fn step(st: ParserState, line: Seq<char>, raw: Seq<char>) -> (
    ParserState,
    Seq<BlockView>,
) {
    if is_file_start(line) {
        let (s1, b1) = flush_file_spec(st);
        let (s2, b2) = flush_plain_spec(s1);
        (ParserState { header: s2.header.push(line), in_file: true, ..s2 }, b1 + b2)
    } else if !st.in_file {
        (ParserState { plain: st.plain.push(raw), ..st }, Seq::empty())
    } else if goes_to_header(line) {
        (
            ParserState {
                header: st.header.push(line),
                filename: name_after(st.filename, line),
                ..st
            },
            Seq::empty(),
        )
    } else {
        (ParserState { lines: st.lines.push(body_line(line)), ..st }, Seq::empty())
    }
}

/// What the end of the input hands out: the file being read, then the
/// plain text.
pub open spec fn finish_spec(st: ParserState) -> Seq<BlockView> {
    let (s1, b1) = flush_file_spec(st);
    let (_, b2) = flush_plain_spec(s1);
    b1 + b2
}

// ---------------------------------------------------------------------------
// The executable parser
// ---------------------------------------------------------------------------

proof fn lemma_push_strings(v: Seq<String>, s: String)
    ensures
        strings_view(v.push(s)) == strings_view(v).push(s@),
{
    assert(strings_view(v.push(s)) =~= strings_view(v).push(s@));
}

proof fn lemma_push_lines(v: Seq<DiffLine>, l: DiffLine)
    ensures
        lines_view(v.push(l)) == lines_view(v).push(l@),
{
    assert(lines_view(v.push(l)) =~= lines_view(v).push(l@));
}

proof fn lemma_push_blocks(v: Seq<Block>, b: Block)
    ensures
        blocks_view(v.push(b)) == blocks_view(v).push(b@),
{
    assert(blocks_view(v.push(b)) =~= blocks_view(v).push(b@));
}

/// Whether a line goes to a file's header as one of the lines that
/// describe the change (not the `+++ ` line).
pub fn is_header_line(line: &str) -> (b: bool)
    ensures
        b == is_header(line@),
{
    has_prefix(line, "--- ")
        || has_prefix(line, "index ")
        || has_prefix(line, "new file")
        || has_prefix(line, "deleted file")
        || has_prefix(line, "old mode")
        || has_prefix(line, "new mode")
        || has_prefix(line, "similarity index")
        || has_prefix(line, "rename from")
        || has_prefix(line, "rename to")
        || has_prefix(line, "copy from")
        || has_prefix(line, "copy to")
        || has_prefix(line, "Binary files")
}

/// The body line for a line inside a file that is not a header line.
fn make_body_line(line: &str) -> (l: DiffLine)
    ensures
        l@ == body_line(line@),
{
    if has_prefix(line, "@@") {
        DiffLine::HunkHeader(to_owned_string(line))
    } else if starts_with_char(line, '+') {
        DiffLine::Added(suffix_after(line, 1))
    } else if starts_with_char(line, '-') {
        DiffLine::Removed(suffix_after(line, 1))
    } else if starts_with_char(line, ' ') {
        DiffLine::Context(suffix_after(line, 1))
    } else {
        DiffLine::Context(to_owned_string(line))
    }
}

impl DiffParser {
    /// A parser that has read nothing.
    pub fn new() -> (p: Self)
        ensures
            p@ == initial_state(),
            consistent(p@),
    {
        proof {
            law_initial_consistent();
        }
        let p = Self {
            pending: Vec::new(),
            plain_lines: Vec::new(),
            current_header: Vec::new(),
            current_filename: None,
            current_lines: Vec::new(),
            in_file: false,
        };
        assert(p@.plain =~= Seq::<Seq<char>>::empty());
        assert(p@.header =~= Seq::<Seq<char>>::empty());
        assert(p@.lines =~= Seq::<LineView>::empty());
        p
    }

    /// Reads one line. `line` is the line used to recognise the diff
    /// structure; `raw_line` is the line kept in plain-text blocks. Returns
    /// the blocks that this line completes.
    pub fn feed(&mut self, line: &str, raw_line: &str) -> (emitted: Vec<Block>)
        ensures
            final(self)@ == step(old(self)@, line@, raw_line@).0,
            blocks_view(emitted@) == step(old(self)@, line@, raw_line@).1,
            consistent(old(self)@) ==> consistent(final(self)@),
    {
        proof {
            if consistent(self@) {
                law_step_consistent(self@, line@, raw_line@);
            }
        }
        self.pending.clear();
        assert(blocks_view(self.pending@) =~= Seq::<BlockView>::empty());

        if has_prefix(line, "diff ") {
            self.flush_file();
            self.flush_plain();
            let ghost before = self.current_header@;
            let l = to_owned_string(line);
            self.current_header.push(l);
            proof {
                lemma_push_strings(before, l);
            }
            self.in_file = true;
            return self.take_pending();
        }
        if !self.in_file {
            let ghost before = self.plain_lines@;
            let l = to_owned_string(raw_line);
            self.plain_lines.push(l);
            proof {
                lemma_push_strings(before, l);
            }
            return self.take_pending();
        }
        if has_prefix(line, "+++ b/") || has_prefix(line, "+++ /dev/null") {
            if has_prefix(line, "+++ b/") {
                proof {
                    reveal_strlit("+++ b/");
                }
                self.current_filename = Some(suffix_after(line, 6));
            }
            let ghost before = self.current_header@;
            let l = to_owned_string(line);
            self.current_header.push(l);
            proof {
                lemma_push_strings(before, l);
            }
            return self.take_pending();
        }
        if is_header_line(line) {
            let ghost before = self.current_header@;
            let l = to_owned_string(line);
            self.current_header.push(l);
            proof {
                lemma_push_strings(before, l);
            }
            return self.take_pending();
        }
        let ghost before = self.current_lines@;
        let d = make_body_line(line);
        self.current_lines.push(d);
        proof {
            lemma_push_lines(before, d);
        }
        self.take_pending()
    }

    /// Hands out the blocks gathered during one call, leaving none.
    fn take_pending(&mut self) -> (out: Vec<Block>)
        ensures
            final(self)@ == old(self)@,
            final(self).pending@.len() == 0,
            out@ == old(self).pending@,
    {
        let mut out = Vec::new();
        std::mem::swap(&mut out, &mut self.pending);
        out
    }

    fn flush_plain(&mut self)
        ensures
            final(self)@ == flush_plain_spec(old(self)@).0,
            blocks_view(final(self).pending@) == blocks_view(old(self).pending@) + flush_plain_spec(
                old(self)@,
            ).1,
    {
        if !self.plain_lines.is_empty() {
            let mut taken = Vec::new();
            std::mem::swap(&mut taken, &mut self.plain_lines);
            let ghost before = self.pending@;
            let b = Block::Plain(taken);
            self.pending.push(b);
            proof {
                lemma_push_blocks(before, b);
            }
            assert(strings_view(self.plain_lines@) =~= Seq::<Seq<char>>::empty());
        } else {
            assert(blocks_view(old(self).pending@) + Seq::<BlockView>::empty() =~= blocks_view(
                self.pending@,
            ));
        }
    }

    fn flush_file(&mut self)
        ensures
            final(self)@ == flush_file_spec(old(self)@).0,
            final(self).plain_lines@ == old(self).plain_lines@,
            blocks_view(final(self).pending@) == blocks_view(old(self).pending@) + flush_file_spec(
                old(self)@,
            ).1,
    {
        if !self.current_header.is_empty() || !self.current_lines.is_empty() {
            let mut header = Vec::new();
            std::mem::swap(&mut header, &mut self.current_header);
            let filename = self.current_filename.take();
            let mut lines = Vec::new();
            std::mem::swap(&mut lines, &mut self.current_lines);
            let ghost before = self.pending@;
            let b = Block::Diff(DiffFile { header_lines: header, filename, lines });
            self.pending.push(b);
            proof {
                lemma_push_blocks(before, b);
            }
            self.in_file = false;
            assert(strings_view(self.current_header@) =~= Seq::<Seq<char>>::empty());
            assert(lines_view(self.current_lines@) =~= Seq::<LineView>::empty());
        } else {
            assert(blocks_view(old(self).pending@) + Seq::<BlockView>::empty() =~= blocks_view(
                self.pending@,
            ));
        }
    }

    /// Ends the input: hands out the file being read, then any plain text.
    pub fn finish(self) -> (emitted: Vec<Block>)
        ensures
            blocks_view(emitted@) == finish_spec(self@),
    {
        let mut p = self;
        p.pending.clear();
        assert(blocks_view(p.pending@) =~= Seq::<BlockView>::empty());
        p.flush_file();
        p.flush_plain();
        assert(blocks_view(p.pending@) =~= finish_spec(self@));
        p.pending
    }
}

} // verus!
