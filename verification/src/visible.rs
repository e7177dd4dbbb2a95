//! What a rendered line shows on a terminal once its colour sequences are
//! taken out, and the law that rendering keeps the text of the diff.

use vstd::prelude::*;

use syntect::easy::HighlightLines;
use syntect::parsing::SyntaxSet;

use crate::diff::LineView;
use crate::highlight::{
    as_line, code_marker, code_text, colored, concat, decimal, fg_code, highlight_outcome,
    is_fg_code, is_full_coloring_of, is_partial_coloring_of, regions_ok, renders_body_line,
    shows_text, trim_newlines, BOLD, CYAN, GREEN, RED, RESET,
};

verus! {

/// The rest of a sequence after the `m` that ends an escape sequence.
pub open spec fn skip_escape(s: Seq<char>) -> Seq<char>
    decreases s.len(),
{
    if s.len() == 0 {
        s
    } else if s[0] == 'm' {
        s.drop_first()
    } else {
        skip_escape(s.drop_first())
    }
}

pub proof fn lemma_skip_escape_len(s: Seq<char>)
    ensures
        skip_escape(s).len() <= s.len(),
    decreases s.len(),
{
    if s.len() > 0 && s[0] != 'm' {
        lemma_skip_escape_len(s.drop_first());
    }
}

/// The characters a terminal shows for `s`: every sequence from an escape
/// character up to the next `m` is taken out.
pub open spec fn visible(s: Seq<char>) -> Seq<char>
    decreases s.len(),
{
    if s.len() == 0 {
        s
    } else if s[0] == '\x1b' {
        proof {
            lemma_skip_escape_len(s.drop_first());
        }
        visible(skip_escape(s.drop_first()))
    } else {
        seq![s[0]] + visible(s.drop_first())
    }
}

/// Whether `c` does not occur in `s`.
pub open spec fn lacks(s: Seq<char>, c: char) -> bool {
    forall|i: int| 0 <= i < s.len() ==> s[i] != c
}

proof fn lemma_skip_escape_prefix(p: Seq<char>, rest: Seq<char>)
    requires
        lacks(p, 'm'),
    ensures
        skip_escape(p + seq!['m'] + rest) == rest,
    decreases p.len(),
{
    let s = p + seq!['m'] + rest;
    if p.len() == 0 {
        assert(s[0] == 'm');
        assert(s.drop_first() =~= rest);
    } else {
        assert(s[0] == p[0]);
        assert(s.drop_first() =~= p.drop_first() + seq!['m'] + rest);
        lemma_skip_escape_prefix(p.drop_first(), rest);
    }
}

/// An escape sequence `ESC p m`, where `p` has no `m`, shows nothing.
pub proof fn lemma_visible_escape(p: Seq<char>, rest: Seq<char>)
    requires
        lacks(p, 'm'),
    ensures
        visible(seq!['\x1b'] + p + seq!['m'] + rest) == visible(rest),
{
    let s = seq!['\x1b'] + p + seq!['m'] + rest;
    assert(s[0] == '\x1b');
    assert(s.drop_first() =~= p + seq!['m'] + rest);
    lemma_skip_escape_prefix(p, rest);
}

/// Text without escape characters shows as it is.
pub proof fn lemma_visible_text(t: Seq<char>, rest: Seq<char>)
    requires
        lacks(t, '\x1b'),
    ensures
        visible(t + rest) == t + visible(rest),
    decreases t.len(),
{
    if t.len() == 0 {
        assert(t + rest =~= rest);
        assert(t + visible(rest) =~= visible(rest));
    } else {
        let s = t + rest;
        assert(s[0] == t[0]);
        assert(s.drop_first() =~= t.drop_first() + rest);
        lemma_visible_text(t.drop_first(), rest);
        assert(seq![t[0]] + (t.drop_first() + visible(rest)) =~= t + visible(rest));
    }
}

proof fn lemma_decimal_digits(n: nat)
    ensures
        lacks(decimal(n), 'm'),
        decimal(n).len() > 0,
    decreases n,
{
    if n >= 10 {
        lemma_decimal_digits(n / 10);
        let d = decimal(n / 10);
        assert forall|i: int| 0 <= i < decimal(n).len() implies decimal(n)[i] != 'm' by {
            if i < d.len() {
                assert(decimal(n)[i] == d[i]);
            }
        }
    }
}

/// A foreground colour sequence shows nothing.
proof fn lemma_visible_fg_code(code: Seq<char>, rest: Seq<char>)
    requires
        is_fg_code(code),
    ensures
        visible(code + rest) == visible(rest),
        code.len() > 0,
        code.last() == 'm',
{
    let (r, g, b) = choose|r: u8, g: u8, b: u8| code == fg_code(r, g, b);
    lemma_decimal_digits(r as nat);
    lemma_decimal_digits(g as nat);
    lemma_decimal_digits(b as nat);
    let p = seq!['[', '3', '8', ';', '2', ';'] + decimal(r as nat) + seq![';'] + decimal(g as nat)
        + seq![';'] + decimal(b as nat);
    assert(lacks(p, 'm')) by {
        let d1 = decimal(r as nat);
        let d2 = decimal(g as nat);
        let d3 = decimal(b as nat);
        assert forall|i: int| 0 <= i < p.len() implies p[i] != 'm' by {
            let a = 6int;
            let b1 = a + d1.len();
            let c = b1 + 1;
            let d = c + d2.len();
            let e = d + 1;
            if i < a {
            } else if i < b1 {
                assert(p[i] == d1[i - a]);
            } else if i < c {
            } else if i < d {
                assert(p[i] == d2[i - c]);
            } else if i < e {
            } else {
                assert(p[i] == d3[i - e]);
            }
        }
    }
    assert(code =~= seq!['\x1b'] + p + seq!['m']);
    assert(code + rest =~= seq!['\x1b'] + p + seq!['m'] + rest);
    lemma_visible_escape(p, rest);
}

proof fn lemma_lacks_concat(a: Seq<char>, b: Seq<char>, c: char)
    requires
        lacks(a + b, c),
    ensures
        lacks(a, c),
        lacks(b, c),
{
    assert forall|i: int| 0 <= i < a.len() implies a[i] != c by {
        assert((a + b)[i] == a[i]);
    }
    assert forall|i: int| 0 <= i < b.len() implies b[i] != c by {
        assert((a + b)[a.len() + i] == b[i]);
    }
}

/// Coloured regions show their texts.
proof fn lemma_visible_colored(codes: Seq<Seq<char>>, texts: Seq<Seq<char>>, rest: Seq<char>)
    requires
        codes.len() == texts.len(),
        forall|i: int| 0 <= i < codes.len() ==> is_fg_code(#[trigger] codes[i]),
        lacks(concat(texts), '\x1b'),
    ensures
        visible(colored(codes, texts) + rest) == concat(texts) + visible(rest),
    decreases texts.len(),
{
    if texts.len() == 0 {
        assert(colored(codes, texts) + rest =~= rest);
        assert(concat(texts) + visible(rest) =~= visible(rest));
    } else {
        let c0 = codes.drop_last();
        let t0 = texts.drop_last();
        let code = codes.last();
        let tl = texts.last();
        lemma_lacks_concat(concat(t0), tl, '\x1b');
        assert(is_fg_code(codes[codes.len() - 1]));
        assert forall|i: int| 0 <= i < c0.len() implies is_fg_code(#[trigger] c0[i]) by {
            assert(c0[i] == codes[i]);
        }
        let tail = code + tl + rest;
        lemma_visible_colored(c0, t0, tail);
        assert(colored(codes, texts) + rest =~= colored(c0, t0) + tail);
        lemma_visible_fg_code(code, tl + rest);
        assert(code + tl + rest =~= code + (tl + rest));
        lemma_visible_text(tl, rest);
        assert(concat(t0) + (tl + visible(rest)) =~= concat(texts) + visible(rest));
    }
}

/// The last region of a non-empty highlighting, taken apart.
proof fn lemma_split_last(codes: Seq<Seq<char>>, texts: Seq<Seq<char>>)
    requires
        regions_ok(codes, texts),
        texts.len() > 0,
    ensures
        regions_ok(codes.drop_last(), texts.drop_last()),
        is_fg_code(codes.last()),
        texts.last().len() > 0,
        concat(texts) == concat(texts.drop_last()) + texts.last(),
        colored(codes, texts) == colored(codes.drop_last(), texts.drop_last()) + codes.last()
            + texts.last(),
        codes.last().len() > 0 && codes.last().last() == 'm',
{
    let c0 = codes.drop_last();
    let t0 = texts.drop_last();
    assert(is_fg_code(codes[codes.len() - 1]));
    assert(texts[texts.len() - 1].len() > 0);
    assert forall|i: int| 0 <= i < c0.len() implies is_fg_code(#[trigger] c0[i]) by {
        assert(c0[i] == codes[i]);
    }
    assert forall|i: int| 0 <= i < t0.len() implies (#[trigger] t0[i]).len() > 0 by {
        assert(t0[i] == texts[i]);
    }
    lemma_visible_fg_code(codes.last(), Seq::empty());
}

/// The shape of a highlighting of the whole line `t` and its newline:
/// everything before the newline, which ends in a code or in a character
/// of `t`, then the newline.
proof fn lemma_full_shape(codes: Seq<Seq<char>>, texts: Seq<Seq<char>>, t: Seq<char>)
    requires
        regions_ok(codes, texts),
        concat(texts) == t.push('\n'),
        lacks(t, '\n'),
    ensures
        texts.len() > 0,
        colored(codes, texts) == colored(codes.drop_last(), texts.drop_last()) + codes.last()
            + texts.last().drop_last() + seq!['\n'],
        concat(texts.drop_last()) + texts.last().drop_last() == t,
        ({
            let y = colored(codes.drop_last(), texts.drop_last()) + codes.last()
                + texts.last().drop_last();
            y.len() > 0 && y.last() != '\n'
        }),
{
    let line = t.push('\n');
    assert(texts.len() > 0) by {
        if texts.len() == 0 {
            assert(concat(texts).len() == 0);
        }
    }
    lemma_split_last(codes, texts);
    let c0 = codes.drop_last();
    let t0 = texts.drop_last();
    let code = codes.last();
    let tl = texts.last();
    let u = tl.drop_last();
    assert(tl.last() == line.last());
    assert(tl =~= u.push('\n'));
    assert(colored(codes, texts) =~= colored(c0, t0) + code + u + seq!['\n']);
    assert(line =~= (concat(t0) + u).push('\n'));
    assert(concat(t0) + u =~= t) by {
        assert(line.drop_last() =~= t);
        assert((concat(t0) + u).push('\n').drop_last() =~= concat(t0) + u);
    }
    let y = colored(c0, t0) + code + u;
    if u.len() == 0 {
        assert(y =~= colored(c0, t0) + code);
    } else {
        assert(y.last() == u.last());
        let k = concat(t0).len() + u.len() - 1;
        assert(t[k] == u.last());
    }
}

/// A highlighting of the whole line shows the text.
proof fn lemma_visible_full(codes: Seq<Seq<char>>, texts: Seq<Seq<char>>, t: Seq<char>, rest: Seq<char>)
    requires
        regions_ok(codes, texts),
        concat(texts) == t.push('\n'),
        lacks(t, '\x1b'),
        lacks(t, '\n'),
    ensures
        visible(trim_newlines(colored(codes, texts)) + rest) == t + visible(rest),
{
    lemma_full_shape(codes, texts, t);
    lemma_split_last(codes, texts);
    let c0 = codes.drop_last();
    let t0 = texts.drop_last();
    let code = codes.last();
    let u = texts.last().drop_last();
    let x = colored(codes, texts);
    let y = colored(c0, t0) + code + u;
    assert(x =~= y + seq!['\n']);
    assert(x.last() == '\n');
    assert(x.drop_last() =~= y);
    assert(trim_newlines(y) == y);
    assert(trim_newlines(x) == y);
    lemma_lacks_concat(concat(t0), u, '\x1b');
    lemma_visible_colored(c0, t0, code + u + rest);
    lemma_visible_fg_code(code, u + rest);
    lemma_visible_text(u, rest);
    assert(y + rest =~= colored(c0, t0) + (code + u + rest));
    assert(code + u + rest =~= code + (u + rest));
    assert(concat(t0) + (u + visible(rest)) =~= t + visible(rest));
}

/// A highlighting of a part of the line short of its newline shows that
/// part, a beginning of the text.
proof fn lemma_visible_short(codes: Seq<Seq<char>>, texts: Seq<Seq<char>>, t: Seq<char>, rest: Seq<char>)
    requires
        regions_ok(codes, texts),
        concat(texts).is_prefix_of(t),
        lacks(t, '\x1b'),
        lacks(t, '\n'),
    ensures
        visible(trim_newlines(colored(codes, texts)) + rest) == concat(texts) + visible(rest),
{
    let cc = concat(texts);
    assert(lacks(cc, '\x1b') && lacks(cc, '\n')) by {
        assert forall|i: int| 0 <= i < cc.len() implies cc[i] != '\x1b' && cc[i] != '\n' by {
            assert(cc[i] == t[i]);
        }
    }
    let x = colored(codes, texts);
    if texts.len() == 0 {
        assert(x =~= Seq::<char>::empty());
    } else {
        lemma_split_last(codes, texts);
        let tl = texts.last();
        assert(x.last() == tl.last());
        assert(tl.last() == cc[cc.len() - 1]);
    }
    assert(trim_newlines(x) == x);
    lemma_visible_colored(codes, texts, rest);
}

/// What a highlighting shows, with `rest` after it: the highlighted part
/// of the line, which is the whole text once the part reaches the newline.
proof fn lemma_visible_partial(
    codes: Seq<Seq<char>>,
    texts: Seq<Seq<char>>,
    t: Seq<char>,
    rest: Seq<char>,
)
    requires
        regions_ok(codes, texts),
        concat(texts).is_prefix_of(as_line(t)),
        lacks(t, '\x1b'),
        lacks(t, '\n'),
    ensures
        concat(texts) == as_line(t) ==> visible(trim_newlines(colored(codes, texts)) + rest) == t
            + visible(rest),
        concat(texts) != as_line(t) ==> visible(trim_newlines(colored(codes, texts)) + rest)
            == concat(texts) + visible(rest) && concat(texts).is_prefix_of(t),
{
    let line = t.push('\n');
    assert(as_line(t) == line) by {
        if t.len() > 0 {
            assert(t[t.len() - 1] != '\n');
        }
    }
    let cc = concat(texts);
    if cc == line {
        lemma_visible_full(codes, texts, t, rest);
    } else {
        assert(cc.len() < line.len()) by {
            if cc.len() == line.len() {
                assert(cc =~= line);
            }
        }
        assert(cc.is_prefix_of(t)) by {
            assert(cc =~= line.subrange(0, cc.len() as int));
            assert(cc =~= t.subrange(0, cc.len() as int));
        }
        lemma_visible_short(codes, texts, t, rest);
    }
}

proof fn lemma_trim_plain(t: Seq<char>)
    requires
        lacks(t, '\n'),
    ensures
        trim_newlines(t) == t,
{
    if t.len() > 0 {
        assert(t[t.len() - 1] != '\n');
    }
}

/// What a code line's shown text shows, followed by `rest`: a beginning
/// `v` of the text, all of it for a full highlighting or uncoloured text.
proof fn lemma_visible_shown(shown: Seq<char>, t: Seq<char>, rest: Seq<char>) -> (v: Seq<char>)
    requires
        is_partial_coloring_of(shown, t) || shown == trim_newlines(t),
        lacks(t, '\x1b'),
        lacks(t, '\n'),
    ensures
        visible(shown + rest) == v + visible(rest),
        v.is_prefix_of(t),
        (is_full_coloring_of(shown, t) || shown == trim_newlines(t)) ==> v == t,
{
    assert(t.is_prefix_of(t)) by {
        assert(t =~= t.subrange(0, t.len() as int));
    }
    if shown == trim_newlines(t) {
        lemma_trim_plain(t);
        lemma_visible_text(t, rest);
        t
    } else if is_full_coloring_of(shown, t) {
        let (codes, texts) = choose|codes: Seq<Seq<char>>, texts: Seq<Seq<char>>|
            {
                &&& regions_ok(codes, texts)
                &&& concat(texts) == as_line(t)
                &&& shown == trim_newlines(colored(codes, texts))
            };
        assert(concat(texts).is_prefix_of(as_line(t)));
        lemma_visible_partial(codes, texts, t, rest);
        t
    } else {
        let (codes, texts) = choose|codes: Seq<Seq<char>>, texts: Seq<Seq<char>>|
            {
                &&& regions_ok(codes, texts)
                &&& concat(texts).is_prefix_of(as_line(t))
                &&& shown == trim_newlines(colored(codes, texts))
            };
        lemma_visible_partial(codes, texts, t, rest);
        if concat(texts) == as_line(t) {
            t
        } else {
            concat(texts)
        }
    }
}

/// Highlighting never changes the text of a line (one without escape
/// characters or newlines of its own): with its colour sequences taken
/// out, what a code line shows is a beginning of its text.
pub proof fn law_highlighting_keeps_text(h: Seq<char>, t: Seq<char>)
    requires
        is_partial_coloring_of(h, t) || h == trim_newlines(t),
        lacks(t, '\x1b'),
        lacks(t, '\n'),
    ensures
        visible(h).is_prefix_of(t),
{
    let v = lemma_visible_shown(h, t, Seq::empty());
    assert(h + Seq::<char>::empty() =~= h);
    assert(v + Seq::<char>::empty() =~= v);
}

/// Once the highlighter succeeds on a line, the line shows exactly its
/// text, with the colour sequences taken out.
pub proof fn law_full_highlighting_shows_text(h: Seq<char>, t: Seq<char>)
    requires
        is_full_coloring_of(h, t) || h == trim_newlines(t),
        lacks(t, '\x1b'),
        lacks(t, '\n'),
    ensures
        visible(h) == t,
{
    if is_full_coloring_of(h, t) {
        let (codes, texts) = choose|codes: Seq<Seq<char>>, texts: Seq<Seq<char>>|
            {
                &&& regions_ok(codes, texts)
                &&& concat(texts) == as_line(t)
                &&& h == trim_newlines(colored(codes, texts))
            };
        assert(concat(texts).is_prefix_of(as_line(t))) by {
            assert(concat(texts) =~= as_line(t).subrange(0, concat(texts).len() as int));
        }
    }
    let v = lemma_visible_shown(h, t, Seq::empty());
    assert(h + Seq::<char>::empty() =~= h);
    assert(v + Seq::<char>::empty() =~= v);
}

/// The colour sequences used around the parts of a rendered line show
/// nothing.
proof fn lemma_visible_styles(rest: Seq<char>)
    ensures
        visible(RESET@ + rest) == visible(rest),
        visible(BOLD@ + rest) == visible(rest),
        visible(CYAN@ + rest) == visible(rest),
        visible(GREEN@ + rest) == visible(rest),
        visible(RED@ + rest) == visible(rest),
{
    reveal_strlit("\x1b[0m");
    reveal_strlit("\x1b[1m");
    reveal_strlit("\x1b[36m");
    reveal_strlit("\x1b[32m");
    reveal_strlit("\x1b[31m");
    let p0 = seq!['[', '0'];
    let p1 = seq!['[', '1'];
    let p36 = seq!['[', '3', '6'];
    let p32 = seq!['[', '3', '2'];
    let p31 = seq!['[', '3', '1'];
    assert(RESET@ + rest =~= seq!['\x1b'] + p0 + seq!['m'] + rest);
    assert(BOLD@ + rest =~= seq!['\x1b'] + p1 + seq!['m'] + rest);
    assert(CYAN@ + rest =~= seq!['\x1b'] + p36 + seq!['m'] + rest);
    assert(GREEN@ + rest =~= seq!['\x1b'] + p32 + seq!['m'] + rest);
    assert(RED@ + rest =~= seq!['\x1b'] + p31 + seq!['m'] + rest);
    lemma_visible_escape(p0, rest);
    lemma_visible_escape(p1, rest);
    lemma_visible_escape(p36, rest);
    lemma_visible_escape(p32, rest);
    lemma_visible_escape(p31, rest);
}

/// The text of a diff body line.
pub open spec fn body_text(l: LineView) -> Seq<char> {
    match l {
        LineView::Context(t) => t,
        LineView::Added(t) => t,
        LineView::Removed(t) => t,
        LineView::HunkHeader(t) => t,
    }
}

/// What a body line's marker shows: a space for context, `+` for added,
/// `-` for removed lines, nothing for hunk headers.
pub open spec fn body_marker(l: LineView) -> Seq<char> {
    match l {
        LineView::Context(_) => seq![' '],
        LineView::Added(_) => seq!['+'],
        LineView::Removed(_) => seq!['-'],
        LineView::HunkHeader(_) => Seq::empty(),
    }
}

/// Whether the line's text is shown in full: always for hunk headers and
/// uncoloured code, and for highlighted code once the highlighter succeeds
/// on the line.
pub open spec fn shown_in_full(l: LineView, h: Option<HighlightLines>, ss: SyntaxSet) -> bool {
    match h {
        Some(st) => code_text(l) is None || highlight_outcome(st, as_line(body_text(l)), ss).0,
        None => true,
    }
}

proof fn lemma_visible_marker(l: LineView, x: Seq<char>)
    requires
        code_text(l) is Some,
    ensures
        visible(code_marker(l) + x) == body_marker(l) + visible(x),
{
    let m = code_marker(l);
    let s = body_marker(l);
    match l {
        LineView::Context(_) => {
            lemma_visible_text(s, x);
        },
        LineView::Added(_) => {
            lemma_visible_styles(s + RESET@ + x);
            lemma_visible_text(s, RESET@ + x);
            lemma_visible_styles(x);
            assert(m + x =~= GREEN@ + (s + RESET@ + x));
            assert(s + RESET@ + x =~= s + (RESET@ + x));
        },
        LineView::Removed(_) => {
            lemma_visible_styles(s + RESET@ + x);
            lemma_visible_text(s, RESET@ + x);
            lemma_visible_styles(x);
            assert(m + x =~= RED@ + (s + RESET@ + x));
            assert(s + RESET@ + x =~= s + (RESET@ + x));
        },
        LineView::HunkHeader(_) => {},
    }
}

/// Rendering never changes the text of a diff body line (one without
/// escape characters or newlines of its own): with the colour sequences
/// taken out, the terminal line shows the line's marker and a beginning of
/// its text, and all of its text when the highlighter succeeds on it (or
/// when it is not highlighted).
pub proof fn law_rendered_line_keeps_text(
    out: Seq<char>,
    l: LineView,
    h: Option<HighlightLines>,
    ss: SyntaxSet,
)
    requires
        renders_body_line(out, l, h, ss),
        lacks(body_text(l), '\x1b'),
        lacks(body_text(l), '\n'),
    ensures
        visible(out).is_prefix_of(body_marker(l) + body_text(l)),
        visible(out).len() >= body_marker(l).len(),
        shown_in_full(l, h, ss) ==> visible(out) == body_marker(l) + body_text(l),
{
    let t = body_text(l);
    lemma_visible_styles(Seq::empty());
    assert(RESET@ + Seq::<char>::empty() =~= RESET@);
    assert(visible(Seq::<char>::empty()) == Seq::<char>::empty());
    match code_text(l) {
        None => {
            lemma_visible_styles(t + RESET@);
            lemma_visible_text(t, RESET@);
            assert(out =~= CYAN@ + (t + RESET@));
            assert(body_marker(l) + t =~= t);
            assert(t + Seq::<char>::empty() =~= t);
        },
        Some(_) => {
            let shown = choose|shown: Seq<char>|
                #[trigger] shows_text(shown, t, h, ss) && out == code_marker(l) + shown + RESET@;
            assert(out =~= code_marker(l) + (shown + RESET@));
            lemma_visible_marker(l, shown + RESET@);
            if h is Some {
                assert(is_partial_coloring_of(shown, t));
            }
            let v = lemma_visible_shown(shown, t, RESET@);
            assert(v + visible(RESET@) =~= v);
            assert(visible(out) == body_marker(l) + v);
            assert(visible(out).is_prefix_of(body_marker(l) + t)) by {
                assert(v =~= t.subrange(0, v.len() as int));
                assert(body_marker(l) + v =~= (body_marker(l) + t).subrange(
                    0,
                    visible(out).len() as int,
                ));
            }
        },
    }
}

/// A rendered header line shows the header line itself.
pub proof fn law_rendered_header_keeps_text(header: Seq<char>)
    requires
        lacks(header, '\x1b'),
    ensures
        visible(BOLD@ + header + RESET@) == header,
{
    lemma_visible_styles(header + RESET@);
    lemma_visible_text(header, RESET@);
    lemma_visible_styles(Seq::empty());
    assert(RESET@ + Seq::<char>::empty() =~= RESET@);
    assert(visible(Seq::<char>::empty()) == Seq::<char>::empty());
    assert(BOLD@ + header + RESET@ =~= BOLD@ + (header + RESET@));
    assert(header + Seq::<char>::empty() =~= header);
}

} // verus!
