use iris::diff::{Block, DiffLine, DiffParser};

fn parse_all(input: &str) -> Vec<Block> {
    let mut parser = DiffParser::new();
    let mut blocks = Vec::new();
    for line in input.lines() {
        blocks.extend(parser.feed(line, line));
    }
    blocks.extend(parser.finish());
    blocks
}

#[test]
fn parse_simple_diff() {
    let input = "\
diff --git a/foo.rs b/foo.rs
index 1234567..abcdefg 100644
--- a/foo.rs
+++ b/foo.rs
@@ -1,3 +1,3 @@
 fn main() {
-    old();
+    new();
 }";
    let blocks = parse_all(input);

    assert_eq!(blocks.len(), 1);
    match &blocks[0] {
        Block::Diff(file) => {
            assert_eq!(file.filename.as_deref(), Some("foo.rs"));
            assert_eq!(file.header_lines.len(), 4);
            assert_eq!(file.lines.len(), 5);
        }
        _ => panic!("expected Diff block"),
    }
}

#[test]
fn parse_git_log_with_commit_header() {
    let input = "\
commit abc123
Author: Test <test@example.com>
Date:   Mon Jan 1 00:00:00 2026 +0000

    Some commit message

diff --git a/foo.rs b/foo.rs
index 1234567..abcdefg 100644
--- a/foo.rs
+++ b/foo.rs
@@ -1 +1 @@
-old
+new";
    let blocks = parse_all(input);

    assert_eq!(blocks.len(), 2);
    match &blocks[0] {
        Block::Plain(lines) => {
            assert_eq!(lines.len(), 6);
            assert!(lines[0].starts_with("commit"));
        }
        _ => panic!("expected Plain block"),
    }
    match &blocks[1] {
        Block::Diff(file) => {
            assert_eq!(file.filename.as_deref(), Some("foo.rs"));
        }
        _ => panic!("expected Diff block"),
    }
}

#[test]
fn parse_multiple_files() {
    let input = "\
diff --git a/a.rs b/a.rs
--- a/a.rs
+++ b/a.rs
@@ -1 +1 @@
-old_a
+new_a
diff --git a/b.py b/b.py
--- a/b.py
+++ b/b.py
@@ -1 +1 @@
-old_b
+new_b";
    let blocks = parse_all(input);

    assert_eq!(blocks.len(), 2);
    match &blocks[0] {
        Block::Diff(f) => assert_eq!(f.filename.as_deref(), Some("a.rs")),
        _ => panic!("expected Diff"),
    }
    match &blocks[1] {
        Block::Diff(f) => assert_eq!(f.filename.as_deref(), Some("b.py")),
        _ => panic!("expected Diff"),
    }
}

#[test]
fn plain_only_input() {
    let input = "just some text\nno diff here";
    let blocks = parse_all(input);

    assert_eq!(blocks.len(), 1);
    match &blocks[0] {
        Block::Plain(lines) => assert_eq!(lines.len(), 2),
        _ => panic!("expected Plain block"),
    }
}

#[test]
fn deleted_file() {
    let input = "\
diff --git a/gone.rs b/gone.rs
deleted file mode 100644
index 1234567..0000000
--- a/gone.rs
+++ /dev/null
@@ -1 +0,0 @@
-bye";
    let blocks = parse_all(input);

    assert_eq!(blocks.len(), 1);
    match &blocks[0] {
        Block::Diff(file) => {
            assert!(file.filename.is_none());
            assert!(file.header_lines.iter().any(|h| h.starts_with("deleted file")));
        }
        _ => panic!("expected Diff block"),
    }
}

#[test]
fn streaming_emits_blocks_incrementally() {
    let mut parser = DiffParser::new();

    let blocks = parser.feed("commit abc123", "commit abc123");
    assert!(blocks.is_empty());

    let blocks = parser.feed("diff --git a/foo.rs b/foo.rs", "diff --git a/foo.rs b/foo.rs");
    assert_eq!(blocks.len(), 1);
    assert!(matches!(&blocks[0], Block::Plain(_)));

    let blocks = parser.feed("+++ b/foo.rs", "+++ b/foo.rs");
    assert!(blocks.is_empty());

    let blocks = parser.feed("@@ -1 +1 @@", "@@ -1 +1 @@");
    assert!(blocks.is_empty());

    let blocks = parser.feed("+new", "+new");
    assert!(blocks.is_empty());

    let blocks = parser.finish();
    assert_eq!(blocks.len(), 1);
    assert!(matches!(&blocks[0], Block::Diff(_)));
}

// ---------------------------------------------------------------------------
// Further cases
// ---------------------------------------------------------------------------

fn line_text(l: &DiffLine) -> (&'static str, &str) {
    match l {
        DiffLine::Context(t) => ("context", t.as_str()),
        DiffLine::Added(t) => ("added", t.as_str()),
        DiffLine::Removed(t) => ("removed", t.as_str()),
        DiffLine::HunkHeader(t) => ("hunk", t.as_str()),
    }
}

#[test]
fn body_lines_lose_their_marker() {
    let input = "\
diff --git a/x b/x
@@ -1,4 +1,4 @@
+added
-removed
 context
bare";
    let blocks = parse_all(input);
    match &blocks[0] {
        Block::Diff(f) => {
            let got: Vec<(&str, &str)> = f.lines.iter().map(line_text).collect();
            assert_eq!(
                got,
                vec![
                    ("hunk", "@@ -1,4 +1,4 @@"),
                    ("added", "added"),
                    ("removed", "removed"),
                    ("context", "context"),
                    ("context", "bare"),
                ]
            );
            assert_eq!(f.header_lines, vec!["diff --git a/x b/x".to_string()]);
            assert!(f.filename.is_none());
        }
        _ => panic!("expected Diff block"),
    }
}

#[test]
fn every_header_kind_goes_to_the_header() {
    let input = "\
diff --git a/a b/c
similarity index 90%
rename from a
rename to c
copy from a
copy to c
old mode 100644
new mode 100755
new file mode 100644
Binary files a and c differ";
    let blocks = parse_all(input);
    assert_eq!(blocks.len(), 1);
    match &blocks[0] {
        Block::Diff(f) => {
            assert_eq!(f.header_lines.len(), 10);
            assert!(f.lines.is_empty());
        }
        _ => panic!("expected Diff block"),
    }
}

#[test]
fn dev_null_keeps_an_earlier_name() {
    let mut parser = DiffParser::new();
    assert!(parser.feed("diff --git a/f b/f", "diff --git a/f b/f").is_empty());
    assert!(parser.feed("+++ b/first.rs", "+++ b/first.rs").is_empty());
    assert!(parser.feed("+++ /dev/null", "+++ /dev/null").is_empty());
    let blocks = parser.finish();
    match &blocks[0] {
        Block::Diff(f) => {
            assert_eq!(f.filename.as_deref(), Some("first.rs"));
            assert_eq!(f.header_lines.len(), 3);
        }
        _ => panic!("expected Diff block"),
    }
}

#[test]
fn text_after_a_diff_stays_in_the_file() {
    let input = "\
diff --git a/a b/a
+x
commit def456
Author: Someone";
    let blocks = parse_all(input);
    assert_eq!(blocks.len(), 1);
    match &blocks[0] {
        Block::Diff(f) => {
            let got: Vec<(&str, &str)> = f.lines.iter().map(line_text).collect();
            assert_eq!(
                got,
                vec![
                    ("added", "x"),
                    ("context", "commit def456"),
                    ("context", "Author: Someone"),
                ]
            );
        }
        _ => panic!("expected Diff block"),
    }
}

#[test]
fn plain_text_keeps_the_raw_line() {
    let mut parser = DiffParser::new();
    assert!(parser.feed("commit abc", "\x1b[33mcommit abc\x1b[m").is_empty());
    let blocks = parser.finish();
    match &blocks[0] {
        Block::Plain(lines) => assert_eq!(lines, &vec!["\x1b[33mcommit abc\x1b[m".to_string()]),
        _ => panic!("expected Plain block"),
    }
}

#[test]
fn empty_input_gives_no_block() {
    assert!(parse_all("").is_empty());
    assert!(DiffParser::new().finish().is_empty());
}

#[test]
fn every_line_is_kept_once() {
    let input = "\
intro
more intro
diff --git a/a b/a
index 1..2
--- a/a
+++ b/a
@@ -1 +1 @@
-a
+b
diff --git a/c b/c
+c";
    let blocks = parse_all(input);
    let total: usize = blocks
        .iter()
        .map(|b| match b {
            Block::Plain(ls) => ls.len(),
            Block::Diff(f) => f.header_lines.len() + f.lines.len(),
        })
        .sum();
    assert_eq!(total, input.lines().count());
    assert_eq!(blocks.len(), 3);
    assert!(matches!(&blocks[0], Block::Plain(_)));
    assert!(matches!(&blocks[1], Block::Diff(_)));
    assert!(matches!(&blocks[2], Block::Diff(_)));
}

#[test]
fn at_most_one_block_per_line() {
    let input = "a\ndiff --git x\n+1\ndiff --git y\n+2\ndiff --git z";
    let mut parser = DiffParser::new();
    let mut counts = Vec::new();
    for line in input.lines() {
        counts.push(parser.feed(line, line).len());
    }
    assert_eq!(counts, vec![0, 1, 0, 1, 0, 1]);
    assert_eq!(parser.finish().len(), 1);
}

#[test]
fn unicode_names_and_lines() {
    let input = "diff --git a/é b/é\n+++ b/日本.rs\n+ünï";
    let blocks = parse_all(input);
    match &blocks[0] {
        Block::Diff(f) => {
            assert_eq!(f.filename.as_deref(), Some("日本.rs"));
            assert_eq!(line_text(&f.lines[0]), ("added", "ünï"));
        }
        _ => panic!("expected Diff block"),
    }
}

#[test]
fn raw_lines_inside_files_change_nothing() {
    let lines = ["intro", "diff --git a/a b/a", "+x", "diff --git a/b b/b", "-y"];
    let mut p = DiffParser::new();
    let mut q = DiffParser::new();
    let mut from_p = Vec::new();
    let mut from_q = Vec::new();
    for (i, l) in lines.iter().enumerate() {
        let raw_q = if i == 0 { l.to_string() } else { format!("other {i}") };
        from_p.push(p.feed(l, l).len());
        from_q.push(q.feed(l, &raw_q).len());
    }
    assert_eq!(from_p, from_q);
    let (bp, bq) = (p.finish(), q.finish());
    match (&bp[0], &bq[0]) {
        (Block::Diff(f), Block::Diff(g)) => {
            assert_eq!(f.header_lines, g.header_lines);
            assert_eq!(f.lines.len(), g.lines.len());
        }
        _ => panic!("expected Diff blocks"),
    }
}

#[test]
fn file_blocks_follow_diff_lines() {
    let input = "x\ndiff --git a/1 b/1\n+a\ndiff --git a/2 b/2\ndiff --git a/3 b/3\n-b";
    let heads: Vec<String> = parse_all(input)
        .iter()
        .filter_map(|b| match b {
            Block::Diff(f) => Some(f.header_lines[0].clone()),
            _ => None,
        })
        .collect();
    assert_eq!(
        heads,
        vec!["diff --git a/1 b/1", "diff --git a/2 b/2", "diff --git a/3 b/3"]
    );
}
