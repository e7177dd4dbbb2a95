use iris::diff::{Block, DiffFile, DiffLine};
use iris::highlight::{highlight_line, render_file, trim_trailing_newlines, with_newline, BOLD, CYAN, GREEN, RED, RESET};
use iris::pipeline::render_block;
use syntect::easy::HighlightLines;
use syntect::highlighting::ThemeSet;
use syntect::parsing::SyntaxSet;

/// The text with its `ESC [ ... m` sequences removed.
fn visible(s: &str) -> String {
    let mut out = String::new();
    let mut chars = s.chars();
    while let Some(c) = chars.next() {
        if c == '\x1b' {
            for d in chars.by_ref() {
                if d == 'm' {
                    break;
                }
            }
        } else {
            out.push(c);
        }
    }
    out
}

fn is_fg_code_sequence_only(s: &str) -> bool {
    // every escape sequence in s is a 24-bit foreground colour
    let mut rest = s;
    while let Some(pos) = rest.find('\x1b') {
        let after = &rest[pos..];
        if !after.starts_with("\x1b[38;2;") {
            return false;
        }
        let end = after.find('m').unwrap();
        let nums: Vec<&str> = after[7..end].split(';').collect();
        if nums.len() != 3 || nums.iter().any(|n| n.parse::<u8>().is_err()) {
            return false;
        }
        rest = &after[end + 1..];
    }
    true
}

#[test]
fn newline_helpers() {
    assert_eq!(with_newline("a"), "a\n");
    assert_eq!(with_newline("a\n"), "a\n");
    assert_eq!(with_newline(""), "\n");
    assert_eq!(trim_trailing_newlines("a\n\n"), "a");
    assert_eq!(trim_trailing_newlines("a\nb"), "a\nb");
    assert_eq!(trim_trailing_newlines("\n"), "");
}

#[test]
fn highlighting_keeps_the_text() {
    let ss = SyntaxSet::load_defaults_newlines();
    let ts = ThemeSet::load_defaults();
    let theme = &ts.themes["base16-ocean.dark"];
    let syntax = ss.find_syntax_by_extension("rs").unwrap();
    let mut h = HighlightLines::new(syntax, theme);
    for text in ["fn main() {", "    let x = 1; // note", "}", ""] {
        let out = highlight_line(&mut h, &ss, text);
        let shown = visible(&out);
        assert_eq!(shown, text, "{out:?}");
        assert!(is_fg_code_sequence_only(&out), "{out:?}");
        if !text.is_empty() {
            assert!(out.starts_with("\x1b[38;2;"), "{out:?}");
        }
    }
}

#[test]
fn files_are_rendered_line_by_line() {
    let ss = SyntaxSet::load_defaults_newlines();
    let ts = ThemeSet::load_defaults();
    let theme = &ts.themes["base16-ocean.dark"];
    let file = DiffFile {
        header_lines: vec!["diff --git a/m.rs b/m.rs".to_string(), "+++ b/m.rs".to_string()],
        filename: Some("m.rs".to_string()),
        lines: vec![
            DiffLine::HunkHeader("@@ -1 +1 @@".to_string()),
            DiffLine::Removed("let a = 1;".to_string()),
            DiffLine::Added("let a = 2;".to_string()),
            DiffLine::Context("}".to_string()),
        ],
    };
    let found = ss.find_syntax_by_extension("rs");
    let out = render_file(&file, found, &ss, theme);
    assert_eq!(out.len(), 6);
    assert_eq!(out[0], format!("{BOLD}diff --git a/m.rs b/m.rs{RESET}"));
    assert_eq!(out[1], format!("{BOLD}+++ b/m.rs{RESET}"));
    assert_eq!(out[2], format!("{CYAN}@@ -1 +1 @@{RESET}"));
    assert!(out[3].starts_with(&format!("{RED}-{RESET}")) && out[3].ends_with(RESET));
    assert!(out[4].starts_with(&format!("{GREEN}+{RESET}")) && out[4].ends_with(RESET));
    assert!(out[5].starts_with(' ') && out[5].ends_with(RESET));
    let body = |s: &str, prefix: &str| visible(&s[prefix.len()..s.len() - RESET.len()]);
    assert_eq!(body(&out[3], &format!("{RED}-{RESET}")), "let a = 1;");
    assert_eq!(body(&out[4], &format!("{GREEN}+{RESET}")), "let a = 2;");
    assert_eq!(body(&out[5], " "), "}");
    assert_eq!(visible(&out[4]), "+let a = 2;");
    assert_eq!(visible(&out[0]), "diff --git a/m.rs b/m.rs");
}

#[test]
fn a_set_without_plain_text_shows_code_uncoloured() {
    let ss = SyntaxSet::new();
    let ts = ThemeSet::load_defaults();
    let theme = &ts.themes["base16-ocean.dark"];
    let file = DiffFile {
        header_lines: vec![],
        filename: None,
        lines: vec![DiffLine::Added("x\n".to_string())],
    };
    let out = render_file(&file, None, &ss, theme);
    assert_eq!(out, vec![format!("{GREEN}+{RESET}x{RESET}")]);
}

#[test]
fn blocks_are_rendered() {
    let ss = SyntaxSet::load_defaults_newlines();
    let ts = ThemeSet::load_defaults();
    let theme = &ts.themes["base16-ocean.dark"];
    let plain = Block::Plain(vec!["commit 1".to_string(), "".to_string()]);
    assert_eq!(render_block(&plain, None, &ss, theme), vec!["commit 1".to_string(), "".to_string()]);
    let diff = Block::Diff(DiffFile {
        header_lines: vec!["diff --git a/t b/t".to_string()],
        filename: None,
        lines: vec![DiffLine::Context("plain words".to_string())],
    });
    let out = render_block(&diff, None, &ss, theme);
    assert_eq!(out.len(), 2);
    assert_eq!(out[0], format!("{BOLD}diff --git a/t b/t{RESET}"));
    assert_eq!(visible(&out[1]), " plain words");
}

#[test]
fn highlighting_uses_syntect_colours() {
    let ss = SyntaxSet::load_defaults_newlines();
    let ts = ThemeSet::load_defaults();
    let theme = &ts.themes["base16-ocean.dark"];
    let syntax = ss.find_syntax_by_extension("rs").unwrap();
    let mut ours = HighlightLines::new(syntax, theme);
    let mut direct = HighlightLines::new(syntax, theme);
    for text in ["fn main() {", "    let s = \"str\"; // c", "}"] {
        let got = highlight_line(&mut ours, &ss, text);
        let line = format!("{text}\n");
        let regions = direct.highlight_line(&line, &ss).unwrap();
        let expected = syntect::util::as_24_bit_terminal_escaped(&regions, false);
        assert_eq!(got, expected.trim_end_matches('\n'));
    }
}
