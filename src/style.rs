//! Display styles: the escape codes that open and close a styled span of text.
use ansi_term::{Colour, Style};
use vstd::prelude::*;
use vstd::string::*;

verus! {

/// ansi_term's `Style`, carried through without looking inside.
#[verifier::external_type_specification]
#[verifier::external_body]
pub struct ExStyle(Style);

/// The foreground colours the listing draws with.
#[derive(Clone, Copy, Debug, PartialEq, Eq)]
pub enum Hue {
    Cyan,
    White,
}

/// The code that selects a foreground colour.
pub open spec fn hue_code(h: Hue) -> Seq<char> {
    match h {
        Hue::Cyan => seq!['\u{1b}', '[', '3', '6', 'm'],
        Hue::White => seq!['\u{1b}', '[', '3', '7', 'm'],
    }
}

/// The code that returns the terminal to its plain style.
pub open spec fn reset_code() -> Seq<char> {
    seq!['\u{1b}', '[', '0', 'm']
}

/// An escape sequence that sets display attributes: ESC, `[`, the attribute
/// numbers, `m`.
pub open spec fn is_attribute_code(s: Seq<char>) -> bool {
    &&& s.len() >= 3
    &&& s[0] == '\u{1b}'
    &&& s[1] == '['
    &&& s.last() == 'm'
}

/// Relies on ansi_term's `Colour::prefix`, written out through `Display`:
/// ESC, `[`, the colour's foreground number (36 for cyan, 37 for white), `m`.
#[verifier::external_body]
fn hue_prefix(h: Hue) -> (r: String)
    ensures
        r@ == hue_code(h),
{
    let c = match h {
        Hue::Cyan => Colour::Cyan,
        Hue::White => Colour::White,
    };
    c.prefix().to_string()
}

/// Relies on ansi_term's `Colour::suffix`, written out through `Display`:
/// the reset code, whatever the colour.
#[verifier::external_body]
fn hue_suffix(h: Hue) -> (r: String)
    ensures
        r@ == reset_code(),
{
    let c = match h {
        Hue::Cyan => Colour::Cyan,
        Hue::White => Colour::White,
    };
    c.suffix().to_string()
}

/// The codes that switch a style on.
pub uninterp spec fn style_open(s: Style) -> Seq<char>;

/// The codes that switch a style off.
pub uninterp spec fn style_close(s: Style) -> Seq<char>;

/// Relies on ansi_term's `Style::prefix`, written out through `Display`: the
/// codes that switch the style on: nothing for a plain style, else one
/// attribute code.
#[verifier::external_body]
fn style_prefix(style: Style) -> (r: String)
    ensures
        r@ == style_open(style),
        r@ == Seq::<char>::empty() || is_attribute_code(r@),
{
    style.prefix().to_string()
}

/// Relies on ansi_term's `Style::suffix`, written out through `Display`:
/// nothing for a plain style, the reset code for any other. Both this and
/// `Style::prefix` test `is_plain`, so they are empty together.
#[verifier::external_body]
fn style_suffix(style: Style) -> (r: String)
    ensures
        r@ == style_close(style),
        (r@.len() == 0) == (style_open(style).len() == 0),
        r@ == Seq::<char>::empty() || r@ == reset_code(),
{
    style.suffix().to_string()
}

/// A display style as the text written before and after a styled span.
pub struct Look {
    pub open: String,
    pub close: String,
}

impl Look {
    /// The look of a foreground colour.
    pub fn of_hue(h: Hue) -> (r: Look)
        ensures
            r.open@ == hue_code(h),
            r.close@ == reset_code(),
    {
        Look { open: hue_prefix(h), close: hue_suffix(h) }
    }

    /// The look of an arbitrary style.
    pub fn of_style(style: Style) -> (r: Look)
        ensures
            r.open@ == style_open(style),
            r.close@ == style_close(style),
            r.open@ == Seq::<char>::empty() || is_attribute_code(r.open@),
            r.close@ == Seq::<char>::empty() || r.close@ == reset_code(),
            (r.open@.len() == 0) == (r.close@.len() == 0),
    {
        Look { open: style_prefix(style), close: style_suffix(style) }
    }

    /// `text` wrapped in this look's codes.
    pub fn paint(&self, text: &str) -> (r: String)
        ensures
            r@ == self.open@ + text@ + self.close@,
    {
        let s = self.open.clone();
        let s = s.concat(text);
        s.concat(self.close.as_str())
    }
}

/// The looks of a listing: directory labels, file names, and the line-count
/// annotation of files.
pub struct Palette {
    pub dir: Look,
    pub name: Look,
    pub count: Look,
}

impl Palette {
    /// Directories in cyan, file names in white, line counts in `count_style`.
    pub fn standard(count_style: Style) -> (r: Palette)
        ensures
            r.dir.open@ == hue_code(Hue::Cyan),
            r.dir.close@ == reset_code(),
            r.name.open@ == hue_code(Hue::White),
            r.name.close@ == reset_code(),
            r.count.open@ == style_open(count_style),
            r.count.close@ == style_close(count_style),
            r.count.open@ == Seq::<char>::empty() || is_attribute_code(r.count.open@),
            r.count.close@ == Seq::<char>::empty() || r.count.close@ == reset_code(),
            (r.count.open@.len() == 0) == (r.count.close@.len() == 0),
    {
        Palette {
            dir: Look::of_hue(Hue::Cyan),
            name: Look::of_hue(Hue::White),
            count: Look::of_style(count_style),
        }
    }
}

} // verus!
