//! Rendering diff files for a 24-bit colour terminal, with the code lines
//! highlighted by `syntect`.

use vstd::prelude::*;

use syntect::easy::HighlightLines;
use syntect::highlighting::{Style, Theme};
use syntect::parsing::{SyntaxReference, SyntaxSet};

use crate::diff::{strings_view, DiffFile, DiffLine, FileView, LineView};
use crate::text::to_owned_string;
use crate::visible::{lacks, law_full_highlighting_shows_text, law_highlighting_keeps_text, visible};

verus! {

#[verifier::external_type_specification]
#[verifier::external_body]
pub struct ExSyntaxSet(SyntaxSet);

#[verifier::external_type_specification]
#[verifier::external_body]
pub struct ExSyntaxReference(SyntaxReference);

#[verifier::external_type_specification]
#[verifier::external_body]
pub struct ExTheme(Theme);

#[verifier::external_type_specification]
#[verifier::external_body]
pub struct ExStyle(Style);

#[verifier::external_type_specification]
#[verifier::external_body]
pub struct ExHighlightLines<'a>(HighlightLines<'a>);

/// Resets all colours and attributes.
pub const RESET: &'static str = "\x1b[0m";

/// Bold text, for file headers.
pub const BOLD: &'static str = "\x1b[1m";

/// Cyan text, for hunk headers.
pub const CYAN: &'static str = "\x1b[36m";

/// Green text, for the `+` of added lines.
pub const GREEN: &'static str = "\x1b[32m";

/// Red text, for the `-` of removed lines.
pub const RED: &'static str = "\x1b[31m";

// ---------------------------------------------------------------------------
// What a highlighted line is
// ---------------------------------------------------------------------------

/// The decimal digit for `d < 10`.
pub open spec fn digit(d: nat) -> char {
    if d == 0 {
        '0'
    } else if d == 1 {
        '1'
    } else if d == 2 {
        '2'
    } else if d == 3 {
        '3'
    } else if d == 4 {
        '4'
    } else if d == 5 {
        '5'
    } else if d == 6 {
        '6'
    } else if d == 7 {
        '7'
    } else if d == 8 {
        '8'
    } else {
        '9'
    }
}

/// `n` written in decimal, without leading zeros.
pub open spec fn decimal(n: nat) -> Seq<char>
    decreases n,
{
    if n < 10 {
        seq![digit(n)]
    } else {
        decimal(n / 10).push(digit(n % 10))
    }
}

/// The escape sequence that sets the foreground to the colour `(r, g, b)`.
pub open spec fn fg_code(r: u8, g: u8, b: u8) -> Seq<char> {
    seq!['\x1b', '[', '3', '8', ';', '2', ';'] + decimal(r as nat) + seq![';'] + decimal(
        g as nat,
    ) + seq![';'] + decimal(b as nat) + seq!['m']
}

/// Whether `c` is a foreground colour escape sequence.
pub open spec fn is_fg_code(c: Seq<char>) -> bool {
    exists|r: u8, g: u8, b: u8| c == fg_code(r, g, b)
}

/// The texts of highlighted regions.
pub open spec fn region_texts(regions: Seq<(Style, &str)>) -> Seq<Seq<char>> {
    regions.map_values(|p: (Style, &str)| p.1@)
}

/// The highlighted regions, with their texts as characters.
pub open spec fn region_views(regions: Seq<(Style, &str)>) -> Seq<(Style, Seq<char>)> {
    regions.map_values(|p: (Style, &str)| (p.0, p.1@))
}

/// The texts of regions.
pub open spec fn texts_of(regions: Seq<(Style, Seq<char>)>) -> Seq<Seq<char>> {
    regions.map_values(|p: (Style, Seq<char>)| p.1)
}

/// The escape sequences of regions, one for each region's style.
pub open spec fn codes_of(regions: Seq<(Style, Seq<char>)>) -> Seq<Seq<char>> {
    regions.map_values(|p: (Style, Seq<char>)| style_code(p.0))
}

/// What a line highlighted into `regions` is: each region's text after the
/// escape sequence for its style, trailing newlines removed.
pub open spec fn rendered_regions(regions: Seq<(Style, Seq<char>)>) -> Seq<char> {
    trim_newlines(colored(codes_of(regions), texts_of(regions)))
}

/// The concatenation of `texts`.
pub open spec fn concat(texts: Seq<Seq<char>>) -> Seq<char>
    decreases texts.len(),
{
    if texts.len() == 0 {
        Seq::empty()
    } else {
        concat(texts.drop_last()) + texts.last()
    }
}

/// Each text preceded by its escape sequence.
pub open spec fn colored(codes: Seq<Seq<char>>, texts: Seq<Seq<char>>) -> Seq<char>
    recommends
        codes.len() == texts.len(),
    decreases texts.len(),
{
    if texts.len() == 0 || codes.len() == 0 {
        Seq::empty()
    } else {
        colored(codes.drop_last(), texts.drop_last()) + codes.last() + texts.last()
    }
}

/// `s` without its trailing newlines.
pub open spec fn trim_newlines(s: Seq<char>) -> Seq<char>
    decreases s.len(),
{
    if s.len() > 0 && s.last() == '\n' {
        trim_newlines(s.drop_last())
    } else {
        s
    }
}

/// `text` ending with a newline, as the highlighter expects a line.
pub open spec fn as_line(text: Seq<char>) -> Seq<char> {
    if text.len() > 0 && text.last() == '\n' {
        text
    } else {
        text.push('\n')
    }
}

/// The regions of a highlighted line: each text non-empty, each preceded
/// by a foreground colour sequence.
pub open spec fn regions_ok(codes: Seq<Seq<char>>, texts: Seq<Seq<char>>) -> bool {
    &&& codes.len() == texts.len()
    &&& forall|i: int| 0 <= i < codes.len() ==> is_fg_code(#[trigger] codes[i])
    &&& forall|i: int| 0 <= i < texts.len() ==> (#[trigger] texts[i]).len() > 0
}

/// Whether `h` is a highlighting of a beginning of `text`: the first part
/// of the line (`text` ending with a newline) cut into coloured regions,
/// trailing newlines removed. The part is the whole line when the
/// highlighter succeeds, and can be shorter (or empty) when it fails.
pub open spec fn is_partial_coloring_of(h: Seq<char>, text: Seq<char>) -> bool {
    exists|codes: Seq<Seq<char>>, texts: Seq<Seq<char>>|
        {
            &&& regions_ok(codes, texts)
            &&& concat(texts).is_prefix_of(as_line(text))
            &&& h == trim_newlines(colored(codes, texts))
        }
}

/// Whether `h` is a highlighting of all of `text`: the whole line cut into
/// coloured regions, trailing newlines removed.
pub open spec fn is_full_coloring_of(h: Seq<char>, text: Seq<char>) -> bool {
    exists|codes: Seq<Seq<char>>, texts: Seq<Seq<char>>|
        {
            &&& regions_ok(codes, texts)
            &&& concat(texts) == as_line(text)
            &&& h == trim_newlines(colored(codes, texts))
        }
}

/// What `HighlightLines::highlight_line` does, from highlighter state `h`,
/// with `line` and the syntax set `ss`: whether it highlights the whole
/// line (it returns `Ok` and its regions run to the end of the line), the
/// highlighter's state afterwards, and the regions it gives (none on an
/// error), each a style and a piece of the line.
pub uninterp spec fn highlight_outcome(h: HighlightLines, line: Seq<char>, ss: SyntaxSet) -> (
    bool,
    HighlightLines,
    Seq<(Style, Seq<char>)>,
);

/// The escape sequence that `syntect::util::as_24_bit_terminal_escaped`
/// writes before a region of style `s` (without backgrounds): the
/// foreground colour, blended with the background by its alpha.
pub uninterp spec fn style_code(s: Style) -> Seq<char>;

/// The highlighter that `HighlightLines::new` makes for a syntax and a theme.
pub uninterp spec fn highlighter_for(syntax: SyntaxReference, theme: Theme) -> HighlightLines<
    'static,
>;

/// The syntax that `SyntaxSet::find_syntax_by_name` finds in a set by name.
pub uninterp spec fn syntax_named(ss: SyntaxSet, name: Seq<char>) -> Option<SyntaxReference>;

/// The text of a code line (context, added or removed), if `l` is one.
pub open spec fn code_text(l: LineView) -> Option<Seq<char>> {
    match l {
        LineView::Context(t) => Some(t),
        LineView::Added(t) => Some(t),
        LineView::Removed(t) => Some(t),
        LineView::HunkHeader(_) => None,
    }
}

/// What goes before the highlighted text of a code line: a space for
/// context, a green `+` for added, a red `-` for removed lines.
pub open spec fn code_marker(l: LineView) -> Seq<char> {
    match l {
        LineView::Context(_) => seq![' '],
        LineView::Added(_) => GREEN@ + seq!['+'] + RESET@,
        LineView::Removed(_) => RED@ + seq!['-'] + RESET@,
        LineView::HunkHeader(_) => Seq::empty(),
    }
}

/// Whether `shown` is what a code line shows for `text`: with a
/// highlighter in state `h`, the regions the highlighter gives for the
/// line, each in the colour of its style: a highlighting of the beginning
/// of the line, of all of it when the highlighter succeeds on it; without a highlighter
/// (the syntax set has no syntax to use), the text itself.
pub open spec fn shows_text(shown: Seq<char>, text: Seq<char>, h: Option<HighlightLines>, ss: SyntaxSet) -> bool {
    match h {
        Some(st) => {
            &&& shown == rendered_regions(highlight_outcome(st, as_line(text), ss).2)
            &&& is_partial_coloring_of(shown, text)
            &&& highlight_outcome(st, as_line(text), ss).0 ==> is_full_coloring_of(shown, text)
        },
        None => shown == trim_newlines(text),
    }
}

/// Whether `out` is the terminal line for the diff body line `l`, with the
/// highlighter (if any) in state `h`: hunk headers in cyan; code lines as
/// their marker, the text shown, and a reset.
pub open spec fn renders_body_line(out: Seq<char>, l: LineView, h: Option<HighlightLines>, ss: SyntaxSet) -> bool {
    match code_text(l) {
        None => out == CYAN@ + l->HunkHeader_0 + RESET@,
        Some(t) => exists|shown: Seq<char>|
            #[trigger] shows_text(shown, t, h, ss) && out == code_marker(l) + shown + RESET@,
    }
}

/// The highlighter's state after the code lines among `lines`, from `h0`.
pub open spec fn state_after(h0: HighlightLines, lines: Seq<LineView>, ss: SyntaxSet) -> HighlightLines
    decreases lines.len(),
{
    if lines.len() == 0 {
        h0
    } else {
        let h = state_after(h0, lines.drop_last(), ss);
        match code_text(lines.last()) {
            Some(t) => highlight_outcome(h, as_line(t), ss).1,
            None => h,
        }
    }
}

/// The syntax a file is highlighted with: the one found for its name, else
/// the set's plain text syntax.
pub open spec fn used_syntax(found: Option<SyntaxReference>, ss: SyntaxSet) -> Option<SyntaxReference> {
    match found {
        Some(s) => Some(s),
        None => syntax_named(ss, "Plain Text"@),
    }
}

/// The highlighter's state before body line `j` of `f`, if there is a
/// highlighter.
pub open spec fn state_before(f: FileView, j: int, found: Option<SyntaxReference>, ss: SyntaxSet, theme: Theme) -> Option<HighlightLines<'static>> {
    match used_syntax(found, ss) {
        Some(syn) => Some(state_after(highlighter_for(syn, theme), f.lines.take(j), ss)),
        None => None,
    }
}

/// Whether `out` is the terminal rendering of the file `f`: its header
/// lines in bold, then one line for each body line, code highlighted with
/// one highlighter for the whole file.
pub open spec fn renders_file(out: Seq<Seq<char>>, f: FileView, found: Option<SyntaxReference>, ss: SyntaxSet, theme: Theme) -> bool {
    &&& out.len() == f.header.len() + f.lines.len()
    &&& forall|i: int| 0 <= i < f.header.len() ==> #[trigger] out[i] == BOLD@ + f.header[i] + RESET@
    &&& forall|j: int|
        0 <= j < f.lines.len() ==> renders_body_line(
            #[trigger] out[f.header.len() + j],
            f.lines[j],
            state_before(f, j, found, ss, theme),
            ss,
        )
}

/// The syntax found for a file's name is the one its code is highlighted
/// with: before each body line the highlighter is the one made from that
/// syntax and the theme, carried through the code lines before. The set's
/// plain text syntax is used only when no syntax was found, and without
/// it too, code is not highlighted.
pub proof fn law_found_syntax_is_used(
    f: FileView,
    j: int,
    s: SyntaxReference,
    ss: SyntaxSet,
    theme: Theme,
)
    ensures
        state_before(f, j, Some(s), ss, theme) == Some(
            state_after(highlighter_for(s, theme), f.lines.take(j), ss),
        ),
        syntax_named(ss, "Plain Text"@) is None ==> state_before(f, j, None, ss, theme) is None,
        (syntax_named(ss, "Plain Text"@) matches Some(p) ==> state_before(f, j, None, ss, theme)
            == Some(state_after(highlighter_for(p, theme), f.lines.take(j), ss))),
{
}

pub open spec fn opt_deref(o: Option<&SyntaxReference>) -> Option<SyntaxReference> {
    match o {
        Some(s) => Some(*s),
        None => None,
    }
}

// ---------------------------------------------------------------------------
// Calls into syntect
// ---------------------------------------------------------------------------

/// Calls `SyntaxSet::find_syntax_by_name`, whose result depends on the set
/// and the name only (named `syntax_named`).
#[verifier::external_body]
fn syntax_by_name<'a>(ss: &'a SyntaxSet, name: &str) -> (r: Option<&'a SyntaxReference>)
    ensures
        opt_deref(r) == syntax_named(*ss, name@),
{
    ss.find_syntax_by_name(name)
}

/// Calls `HighlightLines::new`: the highlighter for `syntax` and `theme`
/// (named `highlighter_for`).
#[verifier::external_body]
fn new_highlighter<'a>(syntax: &SyntaxReference, theme: &'a Theme) -> (r: HighlightLines<'a>)
    ensures
        r == highlighter_for(*syntax, *theme),
{
    HighlightLines::new(syntax, theme)
}

/// Calls `HighlightLines::highlight_line`; its error becomes no regions.
/// The regions, the next state and the success are named by
/// `highlight_outcome`. The regions are consecutive non-empty pieces of the
/// line from its start (the iterator skips empty pieces; on a scope error
/// it stops early); when the call highlights the whole line, they make the
/// line.
#[verifier::external_body]
fn highlight_regions<'b>(h: &mut HighlightLines, line: &'b str, ss: &SyntaxSet) -> (r: Vec<
    (Style, &'b str),
>)
    ensures
        *final(h) == highlight_outcome(*old(h), line@, *ss).1,
        region_views(r@) == highlight_outcome(*old(h), line@, *ss).2,
        concat(region_texts(r@)).is_prefix_of(line@),
        forall|i: int| 0 <= i < r@.len() ==> (#[trigger] region_texts(r@)[i]).len() > 0,
        highlight_outcome(*old(h), line@, *ss).0 ==> concat(region_texts(r@)) == line@,
{
    h.highlight_line(line, ss).unwrap_or_default()
}

/// Whether `s` is `regions` written for the terminal: each text after the
/// escape sequence for its style, each such sequence a foreground colour.
pub open spec fn escapes(s: Seq<char>, regions: Seq<(Style, &str)>) -> bool {
    &&& s == colored(codes_of(region_views(regions)), region_texts(regions))
    &&& forall|i: int| 0 <= i < regions.len() ==> is_fg_code(#[trigger] style_code(regions[i].0))
}

/// Calls `syntect::util::as_24_bit_terminal_escaped` without backgrounds:
/// each region's text after the escape sequence for its style (named
/// `style_code`), which sets the foreground to a colour written in decimal.
#[verifier::external_body]
fn escape_regions(regions: &[(Style, &str)]) -> (r: String)
    ensures
        r@ == colored(
            regions@.map_values(|p: (Style, &str)| style_code(p.0)),
            region_texts(regions@),
        ),
        escapes(r@, regions@),
{
    syntect::util::as_24_bit_terminal_escaped(regions, false)
}

// ---------------------------------------------------------------------------
// Rendering
// ---------------------------------------------------------------------------

/// `s` without its trailing newlines.
pub fn trim_trailing_newlines(s: &str) -> (r: String)
    ensures
        r@ == trim_newlines(s@),
{
    let mut k = s.unicode_len();
    assert(s@.subrange(0, k as int) =~= s@);
    while k > 0 && s.get_char(k - 1) == '\n'
        invariant
            k <= s@.len(),
            trim_newlines(s@) == trim_newlines(s@.subrange(0, k as int)),
        decreases k,
    {
        assert(s@.subrange(0, k as int).drop_last() =~= s@.subrange(0, k - 1));
        k -= 1;
    }
    let t = s.substring_char(0, k);
    to_owned_string(t)
}

/// `text` ending with a newline.
pub fn with_newline(text: &str) -> (r: String)
    ensures
        r@ == as_line(text@),
{
    let n = text.unicode_len();
    let mut r = to_owned_string(text);
    if n == 0 || text.get_char(n - 1) != '\n' {
        r.append("\n");
        proof {
            reveal_strlit("\n");
        }
    }
    r
}

/// Highlights one code line with the highlighter `h`, which keeps the
/// parse state from the lines before.
pub fn highlight_line(h: &mut HighlightLines, ss: &SyntaxSet, text: &str) -> (r: String)
    ensures
        *final(h) == highlight_outcome(*old(h), as_line(text@), *ss).1,
        r@ == rendered_regions(highlight_outcome(*old(h), as_line(text@), *ss).2),
        is_partial_coloring_of(r@, text@),
        highlight_outcome(*old(h), as_line(text@), *ss).0 ==> is_full_coloring_of(r@, text@),
        lacks(text@, '\x1b') && lacks(text@, '\n') ==> visible(r@).is_prefix_of(text@),
        lacks(text@, '\x1b') && lacks(text@, '\n') && highlight_outcome(*old(h), as_line(text@), *ss).0
            ==> visible(r@) == text@,
{
    let line = with_newline(text);
    let regions = highlight_regions(h, line.as_str(), ss);
    let escaped = escape_regions(regions.as_slice());
    let r = trim_trailing_newlines(escaped.as_str());
    proof {
        let texts = region_texts(regions@);
        let views = region_views(regions@);
        let codes = codes_of(views);
        assert(texts_of(views) =~= texts);
        assert(codes.len() == texts.len());
        assert forall|i: int| 0 <= i < codes.len() implies is_fg_code(#[trigger] codes[i]) by {
            assert(codes[i] == style_code(regions@[i].0));
        }
        assert(regions_ok(codes, texts));
        assert(r@ == trim_newlines(colored(codes, texts)));
        if lacks(text@, '\x1b') && lacks(text@, '\n') {
            law_highlighting_keeps_text(r@, text@);
            if highlight_outcome(*old(h), as_line(text@), *ss).0 {
                law_full_highlighting_shows_text(r@, text@);
            }
        }
    }
    r
}

/// A string made of the given parts, in order.
fn join3(a: &str, b: &str, c: &str) -> (r: String)
    ensures
        r@ == a@ + b@ + c@,
{
    let mut r = to_owned_string(a);
    r.append(b);
    r.append(c);
    r
}

/// Renders a diff file for the terminal: its header lines in bold, then
/// its body lines, code highlighted with `found`, the syntax found for the
/// file's name, or else with the set's plain text syntax; when the set has
/// none either, code is shown uncoloured.
pub fn render_file(file: &DiffFile, found: Option<&SyntaxReference>, ss: &SyntaxSet, theme: &Theme) -> (out: Vec<String>)
    ensures
        renders_file(strings_view(out@), file@, opt_deref(found), *ss, *theme),
{
    let mut out: Vec<String> = Vec::new();
    let nh = file.header_lines.len();
    for i in 0..nh
        invariant
            nh == file.header_lines@.len(),
            out@.len() == i,
            forall|k: int|
                0 <= k < i ==> (#[trigger] out@[k])@ == BOLD@ + file.header_lines@[k]@ + RESET@,
    {
        out.push(join3(BOLD, file.header_lines[i].as_str(), RESET));
    }
    let syntax = match found {
        Some(s) => Some(s),
        None => syntax_by_name(ss, "Plain Text"),
    };
    proof {
        reveal_strlit("Plain Text");
    }
    assert(opt_deref(syntax) == used_syntax(opt_deref(found), *ss));
    let mut hl = match syntax {
        Some(s) => Some(new_highlighter(s, theme)),
        None => None,
    };
    let plus = join3(GREEN, "+", RESET);
    let minus = join3(RED, "-", RESET);
    proof {
        reveal_strlit("+");
        reveal_strlit("-");
        reveal_strlit(" ");
    }
    let ghost f = file@;
    let nl = file.lines.len();
    assert(f.lines.take(0) =~= Seq::<LineView>::empty());
    for j in 0..nl
        invariant
            f == file@,
            nh == file.header_lines@.len(),
            nl == file.lines@.len(),
            f.lines.len() == nl,
            plus@ == GREEN@ + seq!['+'] + RESET@,
            minus@ == RED@ + seq!['-'] + RESET@,
            " "@ == seq![' '],
            out@.len() == nh + j,
            hl == state_before(f, j as int, opt_deref(found), *ss, *theme),
            forall|k: int|
                0 <= k < nh ==> (#[trigger] out@[k])@ == BOLD@ + file.header_lines@[k]@ + RESET@,
            forall|k: int|
                0 <= k < j ==> renders_body_line(
                    (#[trigger] out@[nh + k])@,
                    f.lines[k],
                    state_before(f, k, opt_deref(found), *ss, *theme),
                    *ss,
                ),
    {
        let ghost before_hl = hl;
        let ghost l = f.lines[j as int];
        assert(l == file.lines@[j as int]@);
        assert(f.lines.take(j + 1).drop_last() =~= f.lines.take(j as int));
        assert(f.lines.take(j + 1).last() == l);
        let line = match &file.lines[j] {
            DiffLine::HunkHeader(t) => join3(CYAN, t.as_str(), RESET),
            DiffLine::Context(t) => {
                let shown = match &mut hl {
                    Some(h) => highlight_line(h, ss, t.as_str()),
                    None => trim_trailing_newlines(t.as_str()),
                };
                assert(shows_text(shown@, t@, before_hl, *ss));
                join3(" ", shown.as_str(), RESET)
            },
            DiffLine::Added(t) => {
                let shown = match &mut hl {
                    Some(h) => highlight_line(h, ss, t.as_str()),
                    None => trim_trailing_newlines(t.as_str()),
                };
                assert(shows_text(shown@, t@, before_hl, *ss));
                join3(plus.as_str(), shown.as_str(), RESET)
            },
            DiffLine::Removed(t) => {
                let shown = match &mut hl {
                    Some(h) => highlight_line(h, ss, t.as_str()),
                    None => trim_trailing_newlines(t.as_str()),
                };
                assert(shows_text(shown@, t@, before_hl, *ss));
                join3(minus.as_str(), shown.as_str(), RESET)
            },
        };
        assert(renders_body_line(line@, l, before_hl, *ss));
        assert(hl == state_before(f, j + 1, opt_deref(found), *ss, *theme));
        let ghost prev = out@;
        out.push(line);
        proof {
            assert forall|k: int| 0 <= k < j + 1 implies renders_body_line(
                (#[trigger] out@[nh + k])@,
                f.lines[k],
                state_before(f, k, opt_deref(found), *ss, *theme),
                *ss,
            ) by {
                if k < j {
                    assert(out@[nh + k] == prev[nh + k]);
                }
            }
        }
    }
    proof {
        let o = strings_view(out@);
        assert forall|i: int| 0 <= i < f.header.len() implies #[trigger] o[i] == BOLD@ + f.header[i] + RESET@ by {
            assert(o[i] == out@[i]@);
        }
        assert forall|j: int| 0 <= j < f.lines.len() implies renders_body_line(
            #[trigger] o[f.header.len() + j],
            f.lines[j],
            state_before(f, j, opt_deref(found), *ss, *theme),
            *ss,
        ) by {
            assert(o[nh + j] == out@[nh + j]@);
        }
    }
    out
}

} // verus!
