//! The substitute command.
use hjkl_buffer::Buffer;
use hjkl_engine::substitute::{apply_results, apply_substitute, parse_substitute};
use hjkl_engine::{BufferEdit, DefaultHost, Editor, Options, Pos};

fn editor_with(content: &str) -> Editor<Buffer, DefaultHost> {
    let mut e = Editor::new(Buffer::new(), DefaultHost::new(), Options::default());
    e.set_content(content);
    e
}

// ── Parsing ──────────────────────────────────────────────────────────

#[test]
fn parse_basic() {
    let cmd = parse_substitute("/foo/bar/").unwrap();
    assert_eq!(cmd.pattern.as_deref(), Some("foo"));
    assert_eq!(cmd.replacement, "bar");
    assert!(!cmd.flags.all);
}

#[test]
fn parse_trailing_slash_optional() {
    let cmd = parse_substitute("/foo/bar").unwrap();
    assert_eq!(cmd.pattern.as_deref(), Some("foo"));
    assert_eq!(cmd.replacement, "bar");
}

#[test]
fn parse_global_flag() {
    let cmd = parse_substitute("/x/y/g").unwrap();
    assert!(cmd.flags.all);
}

#[test]
fn parse_ignore_case_flag() {
    let cmd = parse_substitute("/x/y/i").unwrap();
    assert!(cmd.flags.ignore_case);
}

#[test]
fn parse_case_sensitive_flag() {
    let cmd = parse_substitute("/x/y/I").unwrap();
    assert!(cmd.flags.case_sensitive);
}

#[test]
fn parse_confirm_flag_accepted() {
    let cmd = parse_substitute("/x/y/c").unwrap();
    assert!(cmd.flags.confirm);
}

#[test]
fn parse_multi_flags() {
    let cmd = parse_substitute("/x/y/gi").unwrap();
    assert!(cmd.flags.all);
    assert!(cmd.flags.ignore_case);
}

#[test]
fn parse_unknown_flag_errors() {
    let err = parse_substitute("/x/y/z").unwrap_err();
    assert!(err.to_string().contains("unknown flag 'z'"), "{err}");
}

#[test]
fn parse_empty_pattern_is_none() {
    let cmd = parse_substitute("//bar/").unwrap();
    assert!(cmd.pattern.is_none());
    assert_eq!(cmd.replacement, "bar");
}

#[test]
fn parse_empty_replacement_ok() {
    let cmd = parse_substitute("/foo//").unwrap();
    assert_eq!(cmd.pattern.as_deref(), Some("foo"));
    assert_eq!(cmd.replacement, "");
}

#[test]
fn parse_escaped_slash_in_pattern() {
    let cmd = parse_substitute("/a\\/b/c/").unwrap();
    assert_eq!(cmd.pattern.as_deref(), Some("a/b"));
}

#[test]
fn parse_escaped_slash_in_replacement() {
    let cmd = parse_substitute("/a/b\\/c/").unwrap();
    // Replacement is already translated; literal / survives.
    assert_eq!(cmd.replacement, "b/c");
}

#[test]
fn parse_ampersand_becomes_dollar_zero() {
    let cmd = parse_substitute("/foo/[&]/").unwrap();
    assert_eq!(cmd.replacement, "[$0]");
}

#[test]
fn parse_escaped_ampersand_is_literal() {
    let cmd = parse_substitute("/foo/\\&/").unwrap();
    assert_eq!(cmd.replacement, "&");
}

#[test]
fn parse_group_ref_translates() {
    let cmd = parse_substitute("/(foo)/\\1/").unwrap();
    assert_eq!(cmd.replacement, "$1");
}

#[test]
fn parse_group_ref_nine() {
    let cmd = parse_substitute("/(x)/\\9/").unwrap();
    assert_eq!(cmd.replacement, "$9");
}

#[test]
fn parse_wrong_delimiter_errors() {
    let err = parse_substitute("|foo|bar|").unwrap_err();
    assert!(err.to_string().contains("'/'"), "{err}");
}

#[test]
fn parse_too_few_fields_errors() {
    let err = parse_substitute("/foo").unwrap_err();
    assert!(
        err.to_string().contains("needs /pattern/replacement"),
        "{err}"
    );
}

// ── Applying ─────────────────────────────────────────────────────────

#[test]
fn apply_single_line_first_only() {
    let mut e = editor_with("foo foo");
    let cmd = parse_substitute("/foo/bar/").unwrap();
    let out = apply_substitute(&mut e, &cmd, 0..=0).unwrap();
    assert_eq!(out.replacements, 1);
    assert_eq!(out.lines_changed, 1);
    assert_eq!(e.buffer().lines()[0], "bar foo");
}

#[test]
fn apply_single_line_global() {
    let mut e = editor_with("foo foo foo");
    let cmd = parse_substitute("/foo/bar/g").unwrap();
    let out = apply_substitute(&mut e, &cmd, 0..=0).unwrap();
    assert_eq!(out.replacements, 3);
    assert_eq!(out.lines_changed, 1);
    assert_eq!(e.buffer().lines()[0], "bar bar bar");
}

#[test]
fn apply_multi_line_range() {
    let mut e = editor_with("foo\nfoo foo\nbar");
    let cmd = parse_substitute("/foo/xyz/g").unwrap();
    let out = apply_substitute(&mut e, &cmd, 0..=2).unwrap();
    assert_eq!(out.replacements, 3);
    assert_eq!(out.lines_changed, 2);
    assert_eq!(e.buffer().lines()[0], "xyz");
    assert_eq!(e.buffer().lines()[1], "xyz xyz");
    assert_eq!(e.buffer().lines()[2], "bar");
}

#[test]
fn apply_no_match_returns_zero() {
    let mut e = editor_with("hello");
    let original = e.buffer().lines()[0].to_string();
    let cmd = parse_substitute("/xyz/abc/").unwrap();
    let out = apply_substitute(&mut e, &cmd, 0..=0).unwrap();
    assert_eq!(out.replacements, 0);
    assert_eq!(out.lines_changed, 0);
    assert_eq!(e.buffer().lines()[0], original);
}

#[test]
fn apply_case_insensitive_flag() {
    let mut e = editor_with("Foo FOO foo");
    let cmd = parse_substitute("/foo/bar/gi").unwrap();
    let out = apply_substitute(&mut e, &cmd, 0..=0).unwrap();
    assert_eq!(out.replacements, 3);
    assert_eq!(e.buffer().lines()[0], "bar bar bar");
}

#[test]
fn apply_case_sensitive_flag_overrides_editor_setting() {
    let mut e = editor_with("Foo foo");
    // Enable ignorecase on the editor.
    e.settings_mut().ignore_case = true;
    // `I` (capital) forces case-sensitive.
    let cmd = parse_substitute("/foo/bar/I").unwrap();
    let out = apply_substitute(&mut e, &cmd, 0..=0).unwrap();
    // Only the lowercase "foo" matches.
    assert_eq!(out.replacements, 1);
    assert_eq!(e.buffer().lines()[0], "Foo bar");
}

#[test]
fn apply_empty_pattern_reuses_last_search() {
    let mut e = editor_with("hello world");
    e.set_last_search(Some("world".to_string()), true);
    let cmd = parse_substitute("//planet/").unwrap();
    let out = apply_substitute(&mut e, &cmd, 0..=0).unwrap();
    assert_eq!(out.replacements, 1);
    assert_eq!(e.buffer().lines()[0], "hello planet");
}

#[test]
fn apply_empty_pattern_no_last_search_errors() {
    let mut e = editor_with("hello");
    let cmd = parse_substitute("//bar/").unwrap();
    let err = apply_substitute(&mut e, &cmd, 0..=0).unwrap_err();
    assert!(
        err.to_string().contains("no previous regular expression"),
        "{err}"
    );
}

#[test]
fn apply_updates_last_search() {
    let mut e = editor_with("foo");
    let cmd = parse_substitute("/foo/bar/").unwrap();
    apply_substitute(&mut e, &cmd, 0..=0).unwrap();
    assert_eq!(e.last_search(), Some("foo"));
}

#[test]
fn apply_empty_replacement_deletes_match() {
    let mut e = editor_with("hello world");
    let cmd = parse_substitute("/world//").unwrap();
    let out = apply_substitute(&mut e, &cmd, 0..=0).unwrap();
    assert_eq!(out.replacements, 1);
    assert_eq!(e.buffer().lines()[0], "hello ");
}

#[test]
fn apply_undo_reverts_in_one_step() {
    let mut e = editor_with("foo");
    let cmd = parse_substitute("/foo/bar/").unwrap();
    apply_substitute(&mut e, &cmd, 0..=0).unwrap();
    assert_eq!(e.buffer().lines()[0], "bar");
    e.undo();
    assert_eq!(e.buffer().lines()[0], "foo");
}

#[test]
fn apply_ampersand_in_replacement() {
    let mut e = editor_with("foo");
    let cmd = parse_substitute("/foo/[&]/").unwrap();
    apply_substitute(&mut e, &cmd, 0..=0).unwrap();
    assert_eq!(e.buffer().lines()[0], "[foo]");
}

#[test]
fn apply_capture_group_reference() {
    let mut e = editor_with("hello world");
    let cmd = parse_substitute("/(\\w+)/<<\\1>>/g").unwrap();
    apply_substitute(&mut e, &cmd, 0..=0).unwrap();
    assert_eq!(e.buffer().lines()[0], "<<hello>> <<world>>");
}

// ── Messages and edges ───────────────────────────────────────────────

#[test]
fn the_messages_of_the_parser() {
    let messages = [
        ("x/a/b/", "substitute: expected '/' delimiter, got \"x/a/b/\""),
        ("", "substitute: expected '/' delimiter, got \"\""),
        ("|\t", "substitute: expected '/' delimiter, got \"|\\t\""),
        ("/a", "substitute needs /pattern/replacement/"),
        ("/a\\/b", "substitute needs /pattern/replacement/"),
        ("/a/b/gz", "unknown flag 'z' in substitute"),
        ("/a/b/g/", "unknown flag '/' in substitute"),
    ];
    for (command, message) in messages {
        assert_eq!(parse_substitute(command), Err(message.to_string()));
    }
}

#[test]
fn escapes_are_read_once() {
    let cmd = parse_substitute("/\\d\\/x/\\n\\\\\\2&\\&\\").unwrap();
    assert_eq!(cmd.pattern.as_deref(), Some("\\d/x"));
    assert_eq!(cmd.replacement, "n\\$2$0&");
}

#[test]
fn a_pattern_that_does_not_compile() {
    let mut e = editor_with("foo");
    let cmd = parse_substitute("/(/x/").unwrap();
    let err = apply_substitute(&mut e, &cmd, 0..=0).unwrap_err();
    assert_eq!(err, format!("bad pattern: {}", regex::Regex::new("(").unwrap_err()));
    assert_eq!(e.content(), "foo\n");
    assert_eq!(e.last_search(), None);
}

#[test]
fn rows_past_the_end_are_left_out() {
    let mut e = editor_with("a\na\na");
    let cmd = parse_substitute("/a/b/").unwrap();
    let out = apply_substitute(&mut e, &cmd, 1..=99).unwrap();
    assert_eq!((out.replacements, out.lines_changed), (2, 2));
    assert_eq!(e.content(), "a\nb\nb\n");
    assert_eq!(e.cursor(), (2, 0));
    let out = apply_substitute(&mut e, &cmd, 3..=99).unwrap();
    assert_eq!((out.replacements, out.lines_changed), (0, 0));
    assert_eq!(e.content(), "a\nb\nb\n");
}

#[test]
fn the_cursor_goes_to_the_last_line_that_changed() {
    let mut e = editor_with("a\na\nx\na a\nx");
    e.jump_cursor(4, 0);
    let cmd = parse_substitute("/a/\\&&/g").unwrap();
    let out = apply_substitute(&mut e, &cmd, 1..=4).unwrap();
    assert_eq!((out.replacements, out.lines_changed), (3, 2));
    assert_eq!(e.content(), "a\n&a\nx\n&a &a\nx\n");
    assert_eq!(e.cursor(), (3, 0));
    e.undo();
    assert_eq!(e.content(), "a\na\nx\na a\nx\n");
    assert_eq!(e.cursor(), (4, 0));
}

#[test]
fn without_a_replacement_nothing_moves() {
    let mut e = editor_with("a\nb");
    e.jump_cursor(1, 0);
    let steps = e.undo_stack.len();
    let cmd = parse_substitute("/x/y/").unwrap();
    apply_substitute(&mut e, &cmd, 0..=1).unwrap();
    assert_eq!(e.cursor(), (1, 0));
    assert_eq!(e.undo_stack.len(), steps);
    assert_eq!(e.last_search(), None);
}

#[test]
fn results_of_lines_are_put_into_the_text() {
    let mut e = editor_with("a\nb\nc\nd");
    let results = vec![("B".to_string(), 2), ("ignored".to_string(), 0), ("D\nE".to_string(), 1)];
    let out = apply_results(&mut e, "p".to_string(), 1, results);
    assert_eq!((out.replacements, out.lines_changed), (3, 2));
    assert_eq!(e.content(), "a\nB\nc\nD\nE\n");
    assert_eq!(e.cursor(), (3, 0));
    assert_eq!(e.last_search(), Some("p"));
    assert!(e.last_search_forward());
}

#[test]
fn text_follows_a_reference() {
    let mut e = editor_with("foo");
    let cmd = parse_substitute("/foo/&bar/").unwrap();
    assert_eq!(cmd.replacement, "${0}bar");
    let out = apply_substitute(&mut e, &cmd, 0..=0).unwrap();
    assert_eq!(out.replacements, 1);
    assert_eq!(e.content(), "foobar\n");
    let mut e = editor_with("ab");
    let cmd = parse_substitute("/(a)(b)/\\2x\\1_&9/").unwrap();
    assert_eq!(cmd.replacement, "${2}x${1}_${0}9");
    apply_substitute(&mut e, &cmd, 0..=0).unwrap();
    assert_eq!(e.content(), "bxa_ab9\n");
}

#[test]
fn a_read_only_editor_substitutes_nothing() {
    let mut e = editor_with("foo");
    e.settings_mut().readonly = true;
    let cmd = parse_substitute("/foo/bar/").unwrap();
    let out = apply_substitute(&mut e, &cmd, 0..=0).unwrap();
    assert_eq!((out.replacements, out.lines_changed), (0, 0));
    assert_eq!(e.content(), "foo\n");
    assert_eq!(e.undo_stack_len(), 0);
    assert!(e.take_changes().is_empty());
}

#[test]
fn a_substitution_is_told_to_the_host() {
    let before = "foo\nx\na foo foo";
    let mut e = editor_with(before);
    let _ = e.take_changes();
    let _ = e.take_content_reset();
    let cmd = parse_substitute("/foo/q/g").unwrap();
    apply_substitute(&mut e, &cmd, 0..=2).unwrap();
    assert!(e.take_content_reset());
    assert!(e.take_content_edits().is_empty());
    let changes = e.take_changes();
    assert_eq!(changes.len(), 2);
    assert_eq!(changes[0].range, Pos::new(2, 0)..Pos::new(2, 9));
    assert_eq!(changes[0].replacement, "a q q");
    assert_eq!(changes[1].range, Pos::new(0, 0)..Pos::new(0, 3));
    assert_eq!(changes[1].replacement, "q");
    // The changes, done again in their order, give the new text.
    let mut b = Buffer::from_str(before);
    for c in changes {
        BufferEdit::replace_range(&mut b, c.range, &c.replacement);
    }
    assert_eq!(format!("{}\n", b.as_string()), e.content());
}
