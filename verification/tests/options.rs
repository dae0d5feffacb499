//! Options by name, their errors, the engine's messages and the settings.
use hjkl_engine::settings::Settings;
use hjkl_engine::style::{engine_style_to_term, term_style_to_engine, TermColor, TermStyle};
use hjkl_engine::types::Duration;
use hjkl_engine::{
    Attrs, Color, DefaultHost, EngineError, Host, OptionValue, Options, Pos, Style, WrapMode,
};

fn message(name: &str, val: OptionValue) -> String {
    let mut o = Options::default();
    let r = o.set_by_name(name, val);
    assert_eq!(o, Options::default());
    match r {
        Err(EngineError::Ex(m)) => m,
        _ => panic!("no error"),
    }
}

#[test]
fn option_errors_say_what_is_wrong() {
    assert_eq!(
        message("tabstop", OptionValue::Int(-1)),
        "option `tabstop` out of u32 range: -1"
    );
    assert_eq!(
        message("sw", OptionValue::Int(4_294_967_296)),
        "option `sw` out of u32 range: 4294967296"
    );
    assert_eq!(
        message("tw", OptionValue::Bool(true)),
        "option `tw` expects int, got Bool(true)"
    );
    assert_eq!(
        message("et", OptionValue::String("a\"b".to_string())),
        "option `et` expects bool, got String(\"a\\\"b\")"
    );
    assert_eq!(
        message("isk", OptionValue::Int(7)),
        "option `isk` expects string, got Int(7)"
    );
    assert_eq!(
        message("tm", OptionValue::Int(-5)),
        "option `tm` expects non-negative int (millis), got Int(-5)"
    );
    assert_eq!(
        message("wrap", OptionValue::String("on".to_string())),
        "option `wrap` expects bool, got String(\"on\")"
    );
    assert_eq!(
        message("lbr", OptionValue::String("on".to_string())),
        "option `lbr` expects bool, got String(\"on\")"
    );
    assert_eq!(message("nope", OptionValue::Int(1)), "unknown option `nope`");
}

#[test]
fn what_is_set_is_read_back_under_both_names() {
    let numbers = [
        ("tabstop", "ts"),
        ("shiftwidth", "sw"),
        ("textwidth", "tw"),
        ("timeoutlen", "tm"),
        ("undolevels", "ul"),
    ];
    for (long, short) in numbers {
        let mut o = Options::default();
        o.set_by_name(long, OptionValue::Int(321)).unwrap();
        assert_eq!(o.get_by_name(short), Some(OptionValue::Int(321)));
    }
    let switches = [
        ("expandtab", "et"),
        ("ignorecase", "ic"),
        ("smartcase", "scs"),
        ("hlsearch", "hls"),
        ("incsearch", "is"),
        ("wrapscan", "ws"),
        ("autoindent", "ai"),
        ("undobreak", "undobreak"),
        ("readonly", "ro"),
        ("linebreak", "lbr"),
    ];
    for (long, short) in switches {
        for on in [true, false] {
            let mut o = Options::default();
            o.set_by_name(short, OptionValue::Bool(on)).unwrap();
            assert_eq!(o.get_by_name(long), Some(OptionValue::Bool(on)));
        }
    }
}

#[test]
fn setting_one_option_leaves_the_others() {
    let mut o = Options::default();
    o.set_by_name("tabstop", OptionValue::Int(3)).unwrap();
    assert_eq!(o, Options { tabstop: 3, ..Options::default() });
}

#[test]
fn linebreak_turns_wrapping_on() {
    let mut o = Options::default();
    o.set_by_name("linebreak", OptionValue::Bool(true)).unwrap();
    assert_eq!(o.get_by_name("wrap"), Some(OptionValue::Bool(true)));
    o.set_by_name("wrap", OptionValue::Bool(true)).unwrap();
    assert_eq!(o.wrap, WrapMode::Word);
    let mut o = Options::default();
    o.set_by_name("linebreak", OptionValue::Bool(false)).unwrap();
    assert_eq!(o.wrap, WrapMode::Off);
}

#[test]
fn every_error_has_its_message() {
    let e = regex::Regex::new("a(b").unwrap_err();
    let text = e.to_string();
    assert_eq!(EngineError::from(e).to_string(), format!("regex compile error: {text}"));
    assert_eq!(EngineError::InvalidRange("9,1".to_string()).to_string(), "invalid range: 9,1");
    assert_eq!(EngineError::Ex("nope".to_string()).to_string(), "ex parse: nope");
    assert_eq!(EngineError::ReadOnly.to_string(), "buffer is read-only");
    assert_eq!(
        EngineError::OutOfBounds(Pos::new(3, 70)).to_string(),
        "position out of bounds: Pos { line: 3, col: 70 }"
    );
    assert_eq!(
        EngineError::SnapshotVersion(2, 3).to_string(),
        "snapshot version mismatch: file=2, expected=3"
    );
}

#[test]
fn settings_start_with_their_defaults() {
    let s = Settings::default();
    assert_eq!(s.shiftwidth, 2);
    assert_eq!(s.tabstop, 8);
    assert_eq!(s.textwidth, 79);
    assert!(s.wrapscan && s.autoindent && s.undo_break_on_motion);
    assert!(!s.ignore_case && !s.smartcase && !s.expandtab && !s.readonly);
    assert_eq!(s.undo_levels, 1000);
    assert_eq!(s.iskeyword, "@,48-57,_,192-255");
    assert_eq!(s.timeout_len, Duration::from_millis(1000));
    assert_eq!(s.timeout_len.as_millis(), 1000);
}

#[test]
fn a_style_comes_back_from_the_terminal() {
    let s = Style {
        fg: Some(Color(1, 2, 3)),
        bg: Some(Color(4, 5, 6)),
        attrs: Attrs::bold() | Attrs::dim() | Attrs::strike(),
    };
    assert_eq!(term_style_to_engine(engine_style_to_term(s)), s);
    let t = engine_style_to_term(s);
    assert_eq!(t.fg, Some(TermColor::Rgb(1, 2, 3)));
    assert!(t.add.bold && t.add.dim && t.add.crossed_out);
    assert!(!t.add.italic && !t.add.underlined && !t.add.reversed);
}

#[test]
fn named_colors_have_their_values() {
    let named = [
        (TermColor::Black, Color(0, 0, 0)),
        (TermColor::Red, Color(205, 49, 49)),
        (TermColor::Green, Color(13, 188, 121)),
        (TermColor::Yellow, Color(229, 229, 16)),
        (TermColor::Blue, Color(36, 114, 200)),
        (TermColor::Magenta, Color(188, 63, 188)),
        (TermColor::Cyan, Color(17, 168, 205)),
        (TermColor::Gray, Color(229, 229, 229)),
        (TermColor::DarkGray, Color(102, 102, 102)),
        (TermColor::LightRed, Color(241, 76, 76)),
        (TermColor::LightGreen, Color(35, 209, 139)),
        (TermColor::LightYellow, Color(245, 245, 67)),
        (TermColor::LightBlue, Color(59, 142, 234)),
        (TermColor::LightMagenta, Color(214, 112, 214)),
        (TermColor::LightCyan, Color(41, 184, 219)),
        (TermColor::White, Color(255, 255, 255)),
    ];
    for (term, color) in named {
        let t = TermStyle { fg: Some(term), ..engine_style_to_term(Style::default()) };
        let s = term_style_to_engine(t);
        assert_eq!(s.fg, Some(color));
        assert_eq!(s.bg, None);
        assert_eq!(s.attrs, Attrs::empty());
    }
}

#[test]
fn a_plain_host_answers_with_the_defaults() {
    let mut h = DefaultHost::new();
    assert!(!h.should_cancel());
    assert_eq!(h.display_line_for(Pos::new(4, 2)), 4);
    assert_eq!(h.pos_for_display(4, 2), Pos::new(4, 2));
    assert!(h.syntax_highlights(Pos::new(0, 0)..Pos::new(1, 0)).is_empty());
    assert_eq!(h.now(), Duration::from_millis(0));
    assert_eq!(h.prompt_search(), None);
    assert_eq!(h.read_clipboard(), None);
}
