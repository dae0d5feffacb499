//! Styles of the engine and styles of a terminal, and how one becomes the
//! other.
use vstd::prelude::*;

use crate::types::{Attrs, Color, Style};

verus! {

/// A terminal color.
#[derive(Debug, Clone, Copy, PartialEq, Eq, Structural)]
pub enum TermColor {
    /// The terminal's own color.
    Reset,
    Black,
    Red,
    Green,
    Yellow,
    Blue,
    Magenta,
    Cyan,
    Gray,
    DarkGray,
    LightRed,
    LightGreen,
    LightYellow,
    LightBlue,
    LightMagenta,
    LightCyan,
    White,
    Rgb(u8, u8, u8),
    /// A color of the terminal's palette.
    Indexed(u8),
}

/// Terminal text modifiers, one flag each.
#[derive(Debug, Clone, Copy, PartialEq, Eq, Structural)]
pub struct TermModifiers {
    pub bold: bool,
    pub dim: bool,
    pub italic: bool,
    pub underlined: bool,
    pub slow_blink: bool,
    pub rapid_blink: bool,
    pub reversed: bool,
    pub hidden: bool,
    pub crossed_out: bool,
}

/// A terminal style: colors, the modifiers it switches on and those it
/// switches off.
#[derive(Debug, Clone, Copy, PartialEq, Eq, Structural)]
pub struct TermStyle {
    pub fg: Option<TermColor>,
    pub bg: Option<TermColor>,
    pub add: TermModifiers,
    pub sub: TermModifiers,
}

/// No modifier.
pub open spec fn no_modifiers() -> TermModifiers {
    TermModifiers {
        bold: false,
        dim: false,
        italic: false,
        underlined: false,
        slow_blink: false,
        rapid_blink: false,
        reversed: false,
        hidden: false,
        crossed_out: false,
    }
}

/// An engine color is a terminal color of the same red, green and blue.
pub open spec fn term_color(c: Option<Color>) -> Option<TermColor> {
    match c {
        Some(c) => Some(TermColor::Rgb(c.0, c.1, c.2)),
        None => None,
    }
}

/// True when an attribute set has a bit.
pub open spec fn has(a: Attrs, bit: u8) -> bool {
    a.bits & bit == bit
}

/// The terminal style of an engine style.
pub open spec fn as_term(s: Style) -> TermStyle {
    TermStyle {
        fg: term_color(s.fg),
        bg: term_color(s.bg),
        add: TermModifiers {
            bold: has(s.attrs, 1),
            dim: has(s.attrs, 16),
            italic: has(s.attrs, 2),
            underlined: has(s.attrs, 4),
            slow_blink: false,
            rapid_blink: false,
            reversed: has(s.attrs, 8),
            hidden: false,
            crossed_out: has(s.attrs, 32),
        },
        sub: no_modifiers(),
    }
}

/// The red, green and blue of a terminal color; black where the terminal
/// decides.
pub open spec fn rgb(c: TermColor) -> Color {
    match c {
        TermColor::Rgb(r, g, b) => Color(r, g, b),
        TermColor::Black => Color(0, 0, 0),
        TermColor::Red => Color(205, 49, 49),
        TermColor::Green => Color(13, 188, 121),
        TermColor::Yellow => Color(229, 229, 16),
        TermColor::Blue => Color(36, 114, 200),
        TermColor::Magenta => Color(188, 63, 188),
        TermColor::Cyan => Color(17, 168, 205),
        TermColor::Gray => Color(229, 229, 229),
        TermColor::DarkGray => Color(102, 102, 102),
        TermColor::LightRed => Color(241, 76, 76),
        TermColor::LightGreen => Color(35, 209, 139),
        TermColor::LightYellow => Color(245, 245, 67),
        TermColor::LightBlue => Color(59, 142, 234),
        TermColor::LightMagenta => Color(214, 112, 214),
        TermColor::LightCyan => Color(41, 184, 219),
        TermColor::White => Color(255, 255, 255),
        _ => Color(0, 0, 0),
    }
}

/// An engine color where a terminal style has one.
pub open spec fn engine_color(c: Option<TermColor>) -> Option<Color> {
    match c {
        Some(c) => Some(rgb(c)),
        None => None,
    }
}

/// A bit, or none.
pub open spec fn bit_if(on: bool, bit: u8) -> u8 {
    if on {
        bit
    } else {
        0
    }
}

/// The attributes that terminal modifiers switch on.
pub open spec fn attrs_of(m: TermModifiers) -> u8 {
    bit_if(m.bold, 1) | bit_if(m.italic, 2) | bit_if(m.underlined, 4) | bit_if(m.reversed, 8)
        | bit_if(m.dim, 16) | bit_if(m.crossed_out, 32)
}

/// The engine style of a terminal style.
pub open spec fn as_engine(t: TermStyle) -> Style {
    Style {
        fg: engine_color(t.fg),
        bg: engine_color(t.bg),
        attrs: Attrs { bits: attrs_of(t.add) },
    }
}

/// The terminal style of an engine style. Nothing of it is lost.
pub fn engine_style_to_term(s: Style) -> (t: TermStyle)
    ensures
        t == as_term(s),
{
    let fg = match s.fg {
        Some(c) => Some(TermColor::Rgb(c.0, c.1, c.2)),
        None => None,
    };
    let bg = match s.bg {
        Some(c) => Some(TermColor::Rgb(c.0, c.1, c.2)),
        None => None,
    };
    TermStyle {
        fg,
        bg,
        add: TermModifiers {
            bold: s.attrs.contains(Attrs::bold()),
            dim: s.attrs.contains(Attrs::dim()),
            italic: s.attrs.contains(Attrs::italic()),
            underlined: s.attrs.contains(Attrs::underline()),
            slow_blink: false,
            rapid_blink: false,
            reversed: s.attrs.contains(Attrs::reverse()),
            hidden: false,
            crossed_out: s.attrs.contains(Attrs::strike()),
        },
        sub: TermModifiers {
            bold: false,
            dim: false,
            italic: false,
            underlined: false,
            slow_blink: false,
            rapid_blink: false,
            reversed: false,
            hidden: false,
            crossed_out: false,
        },
    }
}

fn color_to_rgb(c: TermColor) -> (r: Color)
    ensures
        r == rgb(c),
{
    match c {
        TermColor::Rgb(r, g, b) => Color(r, g, b),
        TermColor::Black => Color(0, 0, 0),
        TermColor::Red => Color(205, 49, 49),
        TermColor::Green => Color(13, 188, 121),
        TermColor::Yellow => Color(229, 229, 16),
        TermColor::Blue => Color(36, 114, 200),
        TermColor::Magenta => Color(188, 63, 188),
        TermColor::Cyan => Color(17, 168, 205),
        TermColor::Gray => Color(229, 229, 229),
        TermColor::DarkGray => Color(102, 102, 102),
        TermColor::LightRed => Color(241, 76, 76),
        TermColor::LightGreen => Color(35, 209, 139),
        TermColor::LightYellow => Color(245, 245, 67),
        TermColor::LightBlue => Color(59, 142, 234),
        TermColor::LightMagenta => Color(214, 112, 214),
        TermColor::LightCyan => Color(41, 184, 219),
        TermColor::White => Color(255, 255, 255),
        _ => Color(0, 0, 0),
    }
}

fn attr_if(on: bool, a: Attrs) -> (r: Attrs)
    ensures
        r.bits == bit_if(on, a.bits),
{
    if on {
        a
    } else {
        Attrs::empty()
    }
}

/// The engine style of a terminal style. Colors without red, green and blue
/// become black, and modifiers that the engine does not know are dropped.
pub fn term_style_to_engine(t: TermStyle) -> (s: Style)
    ensures
        s == as_engine(t),
{
    let fg = match t.fg {
        Some(c) => Some(color_to_rgb(c)),
        None => None,
    };
    let bg = match t.bg {
        Some(c) => Some(color_to_rgb(c)),
        None => None,
    };
    let attrs = attr_if(t.add.bold, Attrs::bold()) | attr_if(t.add.italic, Attrs::italic())
        | attr_if(t.add.underlined, Attrs::underline()) | attr_if(
        t.add.reversed,
        Attrs::reverse(),
    ) | attr_if(t.add.dim, Attrs::dim()) | attr_if(t.add.crossed_out, Attrs::strike());
    Style { fg, bg, attrs }
}

/// An engine style survives the way through a terminal style, as far as its
/// attributes are the known ones.
pub proof fn law_style_round_trip(s: Style)
    requires
        s.attrs.bits < 64,
    ensures
        as_engine(as_term(s)) == s,
{
    let b = s.attrs.bits;
    assert(b < 64 ==> (if b & 1 == 1 { 1u8 } else { 0u8 }) | (if b & 2 == 2 { 2u8 } else { 0u8 })
        | (if b & 4 == 4 { 4u8 } else { 0u8 }) | (if b & 8 == 8 { 8u8 } else { 0u8 })
        | (if b & 16 == 16 { 16u8 } else { 0u8 }) | (if b & 32 == 32 { 32u8 } else { 0u8 }) == b)
        by (bit_vector);
}

/// A style for the terminal has the colors of the engine's style and, of the
/// modifiers, those whose attributes are set, each on its own; it takes none away.
pub proof fn law_terminal_style(s: Style)
    ensures
        ({
            let t = as_term(s);
            &&& t.fg == match s.fg {
                Some(Color(r, g, b)) => Some(TermColor::Rgb(r, g, b)),
                None => None,
            }
            &&& t.bg == match s.bg {
                Some(Color(r, g, b)) => Some(TermColor::Rgb(r, g, b)),
                None => None,
            }
            &&& s.attrs == (Attrs { bits: 0 }) ==> t.add == no_modifiers()
            &&& t.add.bold == (s.attrs.bits & 1u8 != 0)
            &&& t.add.italic == (s.attrs.bits & 2u8 != 0)
            &&& t.add.underlined == (s.attrs.bits & 4u8 != 0)
            &&& t.add.reversed == (s.attrs.bits & 8u8 != 0)
            &&& t.add.dim == (s.attrs.bits & 16u8 != 0)
            &&& t.add.crossed_out == (s.attrs.bits & 32u8 != 0)
            &&& !t.add.slow_blink && !t.add.rapid_blink && !t.add.hidden
            &&& !t.sub.bold && !t.sub.dim && !t.sub.italic && !t.sub.underlined && !t.sub.reversed
                && !t.sub.crossed_out && !t.sub.slow_blink && !t.sub.rapid_blink && !t.sub.hidden
        }),
{
    let bits = s.attrs.bits;
    assert((bits & 1u8 == 1u8) == (bits & 1u8 != 0)) by (bit_vector);
    assert((bits & 2u8 == 2u8) == (bits & 2u8 != 0)) by (bit_vector);
    assert((bits & 4u8 == 4u8) == (bits & 4u8 != 0)) by (bit_vector);
    assert((bits & 8u8 == 8u8) == (bits & 8u8 != 0)) by (bit_vector);
    assert((bits & 16u8 == 16u8) == (bits & 16u8 != 0)) by (bit_vector);
    assert((bits & 32u8 == 32u8) == (bits & 32u8 != 0)) by (bit_vector);
    assert(0u8 & 1u8 == 0) by (bit_vector);
    assert(0u8 & 2u8 == 0) by (bit_vector);
    assert(0u8 & 4u8 == 0) by (bit_vector);
    assert(0u8 & 8u8 == 0) by (bit_vector);
    assert(0u8 & 16u8 == 0) by (bit_vector);
    assert(0u8 & 32u8 == 0) by (bit_vector);
}

/// A terminal color as one number, two hexadecimal digits for each of red, green
/// and blue.
pub open spec fn packed(c: TermColor) -> int {
    rgb(c).0 * 0x10000 + rgb(c).1 * 0x100 + rgb(c).2
}

/// The engine's colors for the terminal's: a color that is given by its parts keeps
/// them, each named color has its place in one fixed palette, in which the light
/// ones are brighter in every part, and what only the terminal knows is black.
pub proof fn law_palette(c: TermColor)
    ensures
        c matches TermColor::Rgb(r, g, b) ==> packed(c) == r * 0x10000 + g * 0x100 + b,
        c is Reset || c is Black || c is Indexed ==> packed(c) == 0,
        packed(TermColor::Red) == 0xcd3131 && packed(TermColor::LightRed) == 0xf14c4c,
        packed(TermColor::Green) == 0x0dbc79 && packed(TermColor::LightGreen) == 0x23d18b,
        packed(TermColor::Yellow) == 0xe5e510 && packed(TermColor::LightYellow) == 0xf5f543,
        packed(TermColor::Blue) == 0x2472c8 && packed(TermColor::LightBlue) == 0x3b8eea,
        packed(TermColor::Magenta) == 0xbc3fbc && packed(TermColor::LightMagenta) == 0xd670d6,
        packed(TermColor::Cyan) == 0x11a8cd && packed(TermColor::LightCyan) == 0x29b8db,
        packed(TermColor::DarkGray) == 0x666666 && packed(TermColor::Gray) == 0xe5e5e5,
        packed(TermColor::White) == 0xffffff,
{
}

/// The engine's style for a terminal's has a color where the terminal's has one,
/// and each attribute where its modifier is added; modifiers that the engine does
/// not have, and those that are taken away, do not count.
pub proof fn law_engine_style(t: TermStyle)
    ensures
        ({
            let s = as_engine(t);
            &&& s.fg is Some <==> t.fg is Some
            &&& s.bg is Some <==> t.bg is Some
            &&& t.fg matches Some(c) ==> s.fg == Some(rgb(c))
            &&& t.bg matches Some(c) ==> s.bg == Some(rgb(c))
            &&& (s.attrs.bits & 1u8 != 0) == t.add.bold
            &&& (s.attrs.bits & 2u8 != 0) == t.add.italic
            &&& (s.attrs.bits & 4u8 != 0) == t.add.underlined
            &&& (s.attrs.bits & 8u8 != 0) == t.add.reversed
            &&& (s.attrs.bits & 16u8 != 0) == t.add.dim
            &&& (s.attrs.bits & 32u8 != 0) == t.add.crossed_out
            &&& s.attrs.bits < 64
        }),
{
    let a = bit_if(t.add.bold, 1);
    let b = bit_if(t.add.italic, 2);
    let c = bit_if(t.add.underlined, 4);
    let d = bit_if(t.add.reversed, 8);
    let e = bit_if(t.add.dim, 16);
    let f = bit_if(t.add.crossed_out, 32);
    let all = a | b | c | d | e | f;
    assert(({
        &&& (all & 1u8 != 0) == (a == 1)
        &&& (all & 2u8 != 0) == (b == 2)
        &&& (all & 4u8 != 0) == (c == 4)
        &&& (all & 8u8 != 0) == (d == 8)
        &&& (all & 16u8 != 0) == (e == 16)
        &&& (all & 32u8 != 0) == (f == 32)
        &&& all < 64
    })) by (bit_vector)
        requires
            all == a | b | c | d | e | f,
            a == 0 || a == 1,
            b == 0 || b == 2,
            c == 0 || c == 4,
            d == 0 || d == 8,
            e == 0 || e == 16,
            f == 0 || f == 32,
    ;
}

} // verus!
