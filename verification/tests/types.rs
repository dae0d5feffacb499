//! Values of the public surface.
use hjkl_engine::types::Duration;
use hjkl_engine::{
    Attrs, Edit, EditorSnapshot, EngineError, OptionValue, Options, Pos, Registers, Selection,
    SelectionSet, SnapshotMode, WrapMode,
};

#[test]
fn caret_is_empty() {
    let sel = Selection::caret(Pos::new(2, 4));
    assert!(sel.is_empty());
    assert_eq!(sel.anchor, sel.head);
}

#[test]
fn selection_set_default_has_one_caret() {
    let set = SelectionSet::default();
    assert_eq!(set.items.len(), 1);
    assert_eq!(set.primary, 0);
    assert_eq!(set.primary().anchor, Pos::origin());
}

#[test]
fn edit_constructors() {
    let p = Pos::new(0, 5);
    assert_eq!(Edit::insert(p, "x").range, p..p);
    assert!(Edit::insert(p, "x").replacement == "x");
    assert!(Edit::delete(p..p).replacement.is_empty());
}

#[test]
fn attrs_flags() {
    let a = Attrs::bold() | Attrs::underline();
    assert!(a.contains(Attrs::bold()));
    assert!(!a.contains(Attrs::italic()));
}

#[test]
fn options_set_get_roundtrip() {
    let mut o = Options::default();
    o.set_by_name("tabstop", OptionValue::Int(4)).unwrap();
    assert!(matches!(o.get_by_name("ts"), Some(OptionValue::Int(4))));
    o.set_by_name("expandtab", OptionValue::Bool(true)).unwrap();
    assert!(matches!(o.get_by_name("et"), Some(OptionValue::Bool(true))));
    o.set_by_name("iskeyword", OptionValue::String("a-z".into()))
        .unwrap();
    match o.get_by_name("iskeyword") {
        Some(OptionValue::String(s)) => assert_eq!(s, "a-z"),
        other => panic!("expected String, got {other:?}"),
    }
}

#[test]
fn options_unknown_name_errors_on_set() {
    let mut o = Options::default();
    assert!(matches!(
        o.set_by_name("frobnicate", OptionValue::Int(1)),
        Err(EngineError::Ex(_))
    ));
    assert!(o.get_by_name("frobnicate").is_none());
}

#[test]
fn options_type_mismatch_errors() {
    let mut o = Options::default();
    assert!(matches!(
        o.set_by_name("tabstop", OptionValue::String("nope".into())),
        Err(EngineError::Ex(_))
    ));
    assert!(matches!(
        o.set_by_name("iskeyword", OptionValue::Int(7)),
        Err(EngineError::Ex(_))
    ));
}

#[test]
fn options_int_to_bool_coercion() {
    // `:set ic=0` reads as boolean false; `:set ic=1` as true.
    // Common vim spelling.
    let mut o = Options::default();
    o.set_by_name("ignorecase", OptionValue::Int(1)).unwrap();
    assert!(matches!(o.get_by_name("ic"), Some(OptionValue::Bool(true))));
    o.set_by_name("ignorecase", OptionValue::Int(0)).unwrap();
    assert!(matches!(
        o.get_by_name("ic"),
        Some(OptionValue::Bool(false))
    ));
}

#[test]
fn options_wrap_linebreak_roundtrip() {
    let mut o = Options::default();
    assert_eq!(o.wrap, WrapMode::Off);
    o.set_by_name("wrap", OptionValue::Bool(true)).unwrap();
    assert_eq!(o.wrap, WrapMode::Char);
    o.set_by_name("linebreak", OptionValue::Bool(true)).unwrap();
    assert_eq!(o.wrap, WrapMode::Word);
    assert!(matches!(
        o.get_by_name("wrap"),
        Some(OptionValue::Bool(true))
    ));
    assert!(matches!(
        o.get_by_name("lbr"),
        Some(OptionValue::Bool(true))
    ));
    o.set_by_name("linebreak", OptionValue::Bool(false))
        .unwrap();
    assert_eq!(o.wrap, WrapMode::Char);
    o.set_by_name("wrap", OptionValue::Bool(false)).unwrap();
    assert_eq!(o.wrap, WrapMode::Off);
}

#[test]
fn options_default_matches_vim() {
    let o = Options::default();
    assert_eq!(o.tabstop, 8);
    assert!(!o.expandtab);
    assert!(o.hlsearch);
    assert!(o.wrapscan);
    assert_eq!(o.timeout_len, Duration { nanos: 1_000_000_000 });
}

#[test]
fn editor_snapshot_version_const() {
    assert_eq!(EditorSnapshot::VERSION, 3);
}

#[test]
fn editor_snapshot_default_shape() {
    let s = EditorSnapshot {
        version: EditorSnapshot::VERSION,
        mode: SnapshotMode::Normal,
        cursor: (0, 0),
        lines: vec!["hello".to_string()],
        viewport_top: 0,
        registers: Registers::default(),
        file_marks: Default::default(),
    };
    assert_eq!(s.cursor, (0, 0));
    assert_eq!(s.lines.len(), 1);
}

#[test]
fn engine_error_display() {
    let e = EngineError::ReadOnly;
    assert_eq!(e.to_string(), "buffer is read-only");
    let e = EngineError::OutOfBounds(Pos::new(3, 7));
    assert!(e.to_string().contains("out of bounds"));
}
