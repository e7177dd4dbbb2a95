use iris::ansi::{decoded_or_original, strip_ansi};
use iris::cli::{mode_for_args, theme_name, use_pager, Mode, DEFAULT_THEME};
use iris::diff::{is_header_line, Block, DiffLine, DiffParser};
use iris::pipeline::process_line;
use iris::text::{expand_tabs, has_prefix, same_text, starts_with_char, suffix_after};

#[test]
fn prefixes() {
    assert!(has_prefix("diff --git", "diff "));
    assert!(has_prefix("abc", ""));
    assert!(!has_prefix("dif", "diff "));
    assert!(!has_prefix("Diff x", "diff "));
    assert!(starts_with_char("+x", '+'));
    assert!(!starts_with_char("", '+'));
    assert_eq!(suffix_after("+++ b/ü.rs", 6), "ü.rs");
    assert_eq!(suffix_after("ab", 2), "");
    assert!(same_text("-h", "-h"));
    assert!(!same_text("-h", "-hh"));
    assert!(!same_text("", "x"));
}

#[test]
fn header_lines() {
    for h in [
        "--- a/x", "index 1..2", "new file mode", "deleted file mode", "old mode 1", "new mode 2",
        "similarity index 9", "rename from a", "rename to b", "copy from a", "copy to b",
        "Binary files a and b differ",
    ] {
        assert!(is_header_line(h), "{h}");
    }
    for l in ["---x", "+++ b/x", "@@ -1 +1 @@", " index", "indexes", ""] {
        assert!(!is_header_line(l), "{l}");
    }
}

#[test]
fn tabs_become_four_spaces() {
    assert_eq!(expand_tabs("\tfoo\tbar"), "    foo    bar");
    assert_eq!(expand_tabs("no tabs"), "no tabs");
    assert_eq!(expand_tabs(""), "");
    assert_eq!(expand_tabs("\t\t"), "        ");
}

#[test]
fn ansi_sequences_are_removed() {
    assert_eq!(strip_ansi("\x1b[32mfoo\x1b[m bar"), "foo bar");
    assert_eq!(strip_ansi("plain"), "plain");
    assert_eq!(strip_ansi("\x1b[1;31m+added\x1b[0m"), "+added");
}

#[test]
fn text_without_controls_is_kept() {
    for s in ["", "plain words", "ünïcödé 日本 \u{7f}", "    indented ~!@#$%^&*()"] {
        assert_eq!(strip_ansi(s), s);
    }
}

#[test]
fn stripped_bytes_read_as_text() {
    assert_eq!(decoded_or_original(b"caf\xc3\xa9".to_vec(), "orig"), "café");
    assert_eq!(decoded_or_original(vec![0xff, 0xfe], "orig"), "orig");
    assert_eq!(decoded_or_original(Vec::new(), "orig"), "");
}

#[test]
fn coloured_git_output_is_recognised() {
    let mut parser = DiffParser::new();
    assert!(process_line(&mut parser, "\x1b[33mcommit 1\x1b[m").is_empty());
    let out = process_line(&mut parser, "\x1b[1mdiff --git a/x b/x\x1b[m");
    match &out[..] {
        [Block::Plain(lines)] => assert_eq!(lines, &vec!["\x1b[33mcommit 1\x1b[m".to_string()]),
        _ => panic!("expected one Plain block"),
    }
    assert!(process_line(&mut parser, "\x1b[1m+++ b/x.rs\x1b[m").is_empty());
    assert!(process_line(&mut parser, "\x1b[32m+\tnew\x1b[m").is_empty());
    let blocks = parser.finish();
    match &blocks[..] {
        [Block::Diff(f)] => {
            assert_eq!(f.filename.as_deref(), Some("x.rs"));
            assert!(matches!(&f.lines[0], DiffLine::Added(t) if t == "    new"));
        }
        _ => panic!("expected one Diff block"),
    }
}

#[test]
fn modes_for_arguments() {
    let args = |v: &[&str]| v.iter().map(|s| s.to_string()).collect::<Vec<String>>();
    assert_eq!(mode_for_args(&args(&["iris"])), Mode::Highlight);
    assert_eq!(mode_for_args(&args(&["iris", "-h"])), Mode::Help);
    assert_eq!(mode_for_args(&args(&["iris", "--help"])), Mode::Help);
    assert_eq!(mode_for_args(&args(&["iris", "--list-themes"])), Mode::ListThemes);
    assert_eq!(mode_for_args(&args(&["iris", "--list-themes", "-h"])), Mode::Help);
    assert_eq!(mode_for_args(&args(&["iris", "--helpx"])), Mode::Highlight);
    assert_eq!(mode_for_args(&args(&[])), Mode::Highlight);
}

#[test]
fn theme_and_pager_choices() {
    assert_eq!(theme_name(None), "base16-ocean.dark");
    assert_eq!(DEFAULT_THEME, "base16-ocean.dark");
    assert_eq!(theme_name(Some("Solarized (dark)".to_string())), "Solarized (dark)");
    assert!(use_pager(false, true));
    assert!(!use_pager(true, true));
    assert!(!use_pager(false, false));
    assert!(!use_pager(true, false));
}

#[test]
fn raw_git_output_is_processed_line_by_line() {
    let raw = [
        "\x1b[33mcommit 9\x1b[m",
        "\x1b[1mdiff --git a/k.rs b/k.rs\x1b[m",
        "\x1b[1m--- a/k.rs\x1b[m",
        "\x1b[1m+++ b/k.rs\x1b[m",
        "\x1b[36m@@ -1 +1 @@\x1b[m",
        "\x1b[31m-\told\x1b[m",
        "\x1b[32m+\tnew\x1b[m",
    ];
    let mut parser = DiffParser::new();
    let mut blocks = Vec::new();
    for l in raw {
        blocks.extend(process_line(&mut parser, l));
    }
    blocks.extend(parser.finish());
    assert_eq!(blocks.len(), 2);
    assert!(matches!(&blocks[0], Block::Plain(v) if v.len() == 1));
    match &blocks[1] {
        Block::Diff(f) => {
            assert_eq!(f.filename.as_deref(), Some("k.rs"));
            assert_eq!(f.header_lines.len(), 3);
            assert!(matches!(&f.lines[1], DiffLine::Removed(t) if t == "    old"));
            assert!(matches!(&f.lines[2], DiffLine::Added(t) if t == "    new"));
        }
        _ => panic!("expected Diff block"),
    }
}
