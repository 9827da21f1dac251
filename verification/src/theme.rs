//! Colours and styles of the interface, and the background pattern.

use vstd::prelude::*;

verus! {

/// A colour given by its red, green and blue parts.
#[derive(Clone, Copy, Debug, PartialEq, Eq, Structural)]
pub struct Color {
    pub r: u8,
    pub g: u8,
    pub b: u8,
}

/// The heading shown at the top of every window.
pub const TITLE: &'static str = "⢀⣴⣄⢴⣷⣄ DIANE:";

pub open spec fn rgb(r: u8, g: u8, b: u8) -> Color {
    Color { r, g, b }
}

pub open spec fn spec_plum_261d2a() -> Color { rgb(0x26, 0x1d, 0x2a) }
pub open spec fn spec_plum_43364a() -> Color { rgb(0x43, 0x36, 0x4a) }
pub open spec fn spec_plum_332839() -> Color { rgb(0x33, 0x28, 0x39) }
pub open spec fn spec_rose_ff528b() -> Color { rgb(0xff, 0x52, 0x8b) }
pub open spec fn spec_rose_ba2658() -> Color { rgb(0xba, 0x26, 0x58) }
pub open spec fn spec_gold_ebd35c() -> Color { rgb(0xeb, 0xd3, 0x5c) }
pub open spec fn spec_gray_ddd6e0() -> Color { rgb(0xdd, 0xd6, 0xe0) }
pub open spec fn spec_gray_a292aa() -> Color { rgb(0xa2, 0x92, 0xaa) }
pub open spec fn spec_sage_81bb94() -> Color { rgb(0x81, 0xbb, 0x94) }

/// Deep plum, the background of the panels.
pub fn plum_261d2a() -> (c: Color) ensures c == spec_plum_261d2a() { Color { r: 0x26, g: 0x1d, b: 0x2a } }
/// Plum, the dividers and the selection.
pub fn plum_43364a() -> (c: Color) ensures c == spec_plum_43364a() { Color { r: 0x43, g: 0x36, b: 0x4a } }
/// Dim plum, the selection of a pane without focus.
pub fn plum_332839() -> (c: Color) ensures c == spec_plum_332839() { Color { r: 0x33, g: 0x28, b: 0x39 } }
/// Bright rose, titles and the selected text.
pub fn rose_ff528b() -> (c: Color) ensures c == spec_rose_ff528b() { Color { r: 0xff, g: 0x52, b: 0x8b } }
/// Rose, borders and the background art.
pub fn rose_ba2658() -> (c: Color) ensures c == spec_rose_ba2658() { Color { r: 0xba, g: 0x26, b: 0x58 } }
/// Gold, hints.
pub fn gold_ebd35c() -> (c: Color) ensures c == spec_gold_ebd35c() { Color { r: 0xeb, g: 0xd3, b: 0x5c } }
/// Light gray, text.
pub fn gray_ddd6e0() -> (c: Color) ensures c == spec_gray_ddd6e0() { Color { r: 0xdd, g: 0xd6, b: 0xe0 } }
/// Gray, dimmed text.
pub fn gray_a292aa() -> (c: Color) ensures c == spec_gray_a292aa() { Color { r: 0xa2, g: 0x92, b: 0xaa } }
/// Sage.
pub fn sage_81bb94() -> (c: Color) ensures c == spec_sage_81bb94() { Color { r: 0x81, g: 0xbb, b: 0x94 } }

/// The colours of the interface.
#[derive(Clone, Copy, Debug, PartialEq, Eq, Structural)]
pub struct Theme {
    pub bg: Color,
    pub art: Color,
    pub border: Color,
    pub divider: Color,
    pub divider_focus: Color,
    pub text: Color,
    pub text_dim: Color,
    pub title: Color,
    pub hint: Color,
    pub selected_bg: Color,
    pub selected_bg_dim: Color,
    pub selected_fg: Color,
}

/// The Diane theme: plum panels, rose accents, gold hints.
pub open spec fn spec_diane() -> Theme {
    Theme {
        bg: spec_plum_261d2a(),
        art: spec_rose_ba2658(),
        border: spec_rose_ba2658(),
        divider: spec_plum_43364a(),
        divider_focus: spec_rose_ba2658(),
        text: spec_gray_ddd6e0(),
        text_dim: spec_gray_a292aa(),
        title: spec_rose_ff528b(),
        hint: spec_gold_ebd35c(),
        selected_bg: spec_plum_43364a(),
        selected_bg_dim: spec_plum_332839(),
        selected_fg: spec_rose_ff528b(),
    }
}

/// The Diane theme.
pub fn diane() -> (t: Theme)
    ensures
        t == spec_diane(),
{
    Theme {
        bg: plum_261d2a(),
        art: rose_ba2658(),
        border: rose_ba2658(),
        divider: plum_43364a(),
        divider_focus: rose_ba2658(),
        text: gray_ddd6e0(),
        text_dim: gray_a292aa(),
        title: rose_ff528b(),
        hint: gold_ebd35c(),
        selected_bg: plum_43364a(),
        selected_bg_dim: plum_332839(),
        selected_fg: rose_ff528b(),
    }
}

impl Default for Theme {
    fn default() -> (t: Self)
        ensures
            t == spec_diane(),
    {
        diane()
    }
}

/// How a piece of text is drawn: colours, where given, and modifiers.
#[derive(Clone, Copy, Debug, PartialEq, Eq, Structural)]
pub struct StyleSpec {
    pub fg: Option<Color>,
    pub bg: Option<Color>,
    pub bold: bool,
    pub italic: bool,
    pub underlined: bool,
}

/// Text in a colour, with no modifier.
pub open spec fn fg_style(c: Color) -> StyleSpec {
    StyleSpec { fg: Some(c), bg: None, bold: false, italic: false, underlined: false }
}

pub fn fg(c: Color) -> (s: StyleSpec)
    ensures
        s == fg_style(c),
{
    StyleSpec { fg: Some(c), bg: None, bold: false, italic: false, underlined: false }
}

/// The kinds of markdown alert.
#[derive(Clone, Copy, Debug, PartialEq, Eq, Structural)]
pub enum AlertKind {
    Note,
    Tip,
    Important,
    Warning,
    Caution,
}

impl Theme {
    /// The theme with the given name; every name gives the Diane theme.
    pub fn named(name: &str) -> (t: Self)
        ensures
            t == spec_diane(),
    {
        diane()
    }

    /// The style of a markdown heading of the given level.
    pub open spec fn spec_heading(self, level: u8) -> StyleSpec {
        if level == 1 {
            StyleSpec {
                fg: Some(self.selected_fg),
                bg: Some(self.selected_bg),
                bold: true,
                italic: false,
                underlined: false,
            }
        } else if level == 2 {
            StyleSpec { bold: true, ..fg_style(self.title) }
        } else if level == 3 {
            StyleSpec { bold: true, italic: true, ..fg_style(self.title) }
        } else {
            StyleSpec { italic: true, ..fg_style(self.hint) }
        }
    }

    pub fn heading(&self, level: u8) -> (s: StyleSpec)
        ensures
            s == self.spec_heading(level),
    {
        match level {
            1 => StyleSpec {
                fg: Some(self.selected_fg),
                bg: Some(self.selected_bg),
                bold: true,
                italic: false,
                underlined: false,
            },
            2 => StyleSpec { bold: true, ..fg(self.title) },
            3 => StyleSpec { bold: true, italic: true, ..fg(self.title) },
            _ => StyleSpec { italic: true, ..fg(self.hint) },
        }
    }

    /// Inline code: hint colour on the dim selection colour.
    pub fn code(&self) -> (s: StyleSpec)
        ensures
            s == (StyleSpec { bg: Some(self.selected_bg_dim), ..fg_style(self.hint) }),
    {
        StyleSpec { bg: Some(self.selected_bg_dim), ..fg(self.hint) }
    }

    /// Links: hint colour, underlined.
    pub fn link(&self) -> (s: StyleSpec)
        ensures
            s == (StyleSpec { underlined: true, ..fg_style(self.hint) }),
    {
        StyleSpec { underlined: true, ..fg(self.hint) }
    }

    /// Block quotes: dimmed, italic.
    pub fn blockquote(&self) -> (s: StyleSpec)
        ensures
            s == (StyleSpec { italic: true, ..fg_style(self.text_dim) }),
    {
        StyleSpec { italic: true, ..fg(self.text_dim) }
    }

    /// The markers of headings: dimmed.
    pub fn heading_meta(&self) -> (s: StyleSpec)
        ensures
            s == fg_style(self.text_dim),
    {
        fg(self.text_dim)
    }

    /// Front matter blocks: dimmed.
    pub fn metadata_block(&self) -> (s: StyleSpec)
        ensures
            s == fg_style(self.text_dim),
    {
        fg(self.text_dim)
    }

    /// Raw HTML: dimmed.
    pub fn html(&self) -> (s: StyleSpec)
        ensures
            s == fg_style(self.text_dim),
    {
        fg(self.text_dim)
    }

    /// Inline maths: hint colour, italic.
    pub fn math_inline(&self) -> (s: StyleSpec)
        ensures
            s == (StyleSpec { italic: true, ..fg_style(self.hint) }),
    {
        StyleSpec { italic: true, ..fg(self.hint) }
    }

    /// Displayed maths: hint colour.
    pub fn math_display(&self) -> (s: StyleSpec)
        ensures
            s == fg_style(self.hint),
    {
        fg(self.hint)
    }

    /// Footnote references: dimmed, italic.
    pub fn footnote_ref(&self) -> (s: StyleSpec)
        ensures
            s == (StyleSpec { italic: true, ..fg_style(self.text_dim) }),
    {
        StyleSpec { italic: true, ..fg(self.text_dim) }
    }

    /// Footnote definitions: dimmed.
    pub fn footnote_def(&self) -> (s: StyleSpec)
        ensures
            s == fg_style(self.text_dim),
    {
        fg(self.text_dim)
    }

    /// Definition terms: text colour, bold.
    pub fn definition_term(&self) -> (s: StyleSpec)
        ensures
            s == (StyleSpec { bold: true, ..fg_style(self.text) }),
    {
        StyleSpec { bold: true, ..fg(self.text) }
    }

    /// Definition descriptions: dimmed.
    pub fn definition_description(&self) -> (s: StyleSpec)
        ensures
            s == fg_style(self.text_dim),
    {
        fg(self.text_dim)
    }

    /// Alerts: notes and tips dimmed, important ones in the title colour,
    /// warnings and cautions in the hint colour.
    pub fn alert(&self, kind: AlertKind) -> (s: StyleSpec)
        ensures
            s == fg_style(
                match kind {
                    AlertKind::Note | AlertKind::Tip => self.text_dim,
                    AlertKind::Important => self.title,
                    AlertKind::Warning | AlertKind::Caution => self.hint,
                },
            ),
    {
        match kind {
            AlertKind::Note | AlertKind::Tip => fg(self.text_dim),
            AlertKind::Important => fg(self.title),
            AlertKind::Warning | AlertKind::Caution => fg(self.hint),
        }
    }

    /// Table headers: title colour, bold.
    pub fn table_header(&self) -> (s: StyleSpec)
        ensures
            s == (StyleSpec { bold: true, ..fg_style(self.title) }),
    {
        StyleSpec { bold: true, ..fg(self.title) }
    }

    /// Table cells: text colour.
    pub fn table_cell(&self) -> (s: StyleSpec)
        ensures
            s == fg_style(self.text),
    {
        fg(self.text)
    }

    /// Table borders: divider colour.
    pub fn table_border(&self) -> (s: StyleSpec)
        ensures
            s == fg_style(self.divider),
    {
        fg(self.divider)
    }

    /// Alternative text of images: dimmed, italic.
    pub fn image_alt(&self) -> (s: StyleSpec)
        ensures
            s == (StyleSpec { italic: true, ..fg_style(self.text_dim) }),
    {
        StyleSpec { italic: true, ..fg(self.text_dim) }
    }
}

/// A background of diagonal waves drawn with two characters.
#[derive(Clone, Copy, Debug, PartialEq, Eq, Structural)]
pub struct BackgroundArt {
    pub amp: isize,
    pub slope: isize,
    pub spacing: isize,
    pub thickness: isize,
    pub ch_fill: char,
    pub ch_negative: char,
    pub art: Color,
}

impl Default for BackgroundArt {
    fn default() -> (a: Self)
        ensures
            a == (BackgroundArt {
                amp: 3,
                slope: 2,
                spacing: 5,
                thickness: 2,
                ch_fill: '∙',
                ch_negative: ' ',
                art: spec_diane().art,
            }),
    {
        BackgroundArt {
            amp: 3,
            slope: 2,
            spacing: 5,
            thickness: 2,
            ch_fill: '∙',
            ch_negative: ' ',
            art: diane().art,
        }
    }
}

/// The integer fits in an `isize`.
pub open spec fn in_isize(v: int) -> bool {
    isize::MIN <= v <= isize::MAX
}

/// The absolute value.
pub open spec fn abs(v: int) -> int {
    if v < 0 {
        -v
    } else {
        v
    }
}

impl BackgroundArt {
    /// Half the horizontal period of the waves.
    pub open spec fn half(self) -> int {
        self.amp * self.slope
    }

    /// How far the wave rises at column `x`: a triangle wave of height
    /// `half` and period `2 * half`.
    pub open spec fn wave(self, x: int) -> int {
        abs(x % (2 * self.half()) - self.half())
    }

    /// The character at column `x` and row `y`: on a stripe of the given
    /// thickness that runs along the wave, repeated every `spacing` rows.
    pub open spec fn spec_at(self, x: int, y: int) -> char {
        let v = (y * self.slope - self.wave(x)) % (self.spacing * self.slope);
        if v < self.thickness * self.slope {
            self.ch_fill
        } else {
            self.ch_negative
        }
    }

    /// Every step of `spec_at` at this cell stays within `isize` and
    /// divides by no zero, as the arithmetic of `at` needs.
    pub open spec fn defined_at(self, x: int, y: int) -> bool {
        &&& in_isize(self.half())
        &&& in_isize(2 * self.half())
        &&& self.half() != 0
        &&& in_isize(x % (2 * self.half()) - self.half())
        &&& in_isize(y * self.slope)
        &&& in_isize(y * self.slope - self.wave(x))
        &&& in_isize(self.spacing * self.slope)
        &&& self.spacing * self.slope != 0
        &&& !(y * self.slope - self.wave(x) == isize::MIN && self.spacing * self.slope == -1)
        &&& in_isize(self.thickness * self.slope)
    }

    /// The character of the background at column `x` and row `y` when every
    /// step of its arithmetic fits an `isize` and divides by no zero, and
    /// nothing otherwise.
    pub fn checked_at(&self, x: usize, y: usize) -> (c: Option<char>)
        ensures
            c is Some <==> self.defined_at(x as isize as int, y as isize as int),
            c matches Some(ch) ==> ch == self.spec_at(x as isize as int, y as isize as int),
    {
        let x = x as isize;
        let y = y as isize;
        let half = match self.amp.checked_mul(self.slope) {
            Some(h) => h,
            None => return None,
        };
        let period = match half.checked_mul(2) {
            Some(p) => p,
            None => return None,
        };
        if half == 0 {
            return None;
        }
        let t = match x.checked_rem_euclid(period) {
            Some(t) => t,
            None => return None,
        };
        let d = match t.checked_sub(half) {
            Some(d) => d,
            None => return None,
        };
        assert(d > isize::MIN);
        let wave = if d < 0 {
            -d
        } else {
            d
        };
        let ys = match y.checked_mul(self.slope) {
            Some(v) => v,
            None => return None,
        };
        let rise = match ys.checked_sub(wave) {
            Some(v) => v,
            None => return None,
        };
        let cycle = match self.spacing.checked_mul(self.slope) {
            Some(v) => v,
            None => return None,
        };
        if cycle == 0 || (rise == isize::MIN && cycle == -1) {
            return None;
        }
        let v = match rise.checked_rem_euclid(cycle) {
            Some(v) => v,
            None => return None,
        };
        let band = match self.thickness.checked_mul(self.slope) {
            Some(v) => v,
            None => return None,
        };
        if v < band {
            Some(self.ch_fill)
        } else {
            Some(self.ch_negative)
        }
    }

    /// The character of the background at column `x` and row `y`.
    pub fn at(&self, x: usize, y: usize) -> (c: char)
        requires
            self.defined_at(x as isize as int, y as isize as int),
        ensures
            c == self.spec_at(x as isize as int, y as isize as int),
    {
        let x = x as isize;
        let y = y as isize;
        let half = self.amp * self.slope;
        let period = 2 * half;
        let t = match x.checked_rem_euclid(period) {
            Some(t) => t,
            None => 0,
        };
        let d = t - half;
        let wave = if d < 0 { -d } else { d };
        let cycle = self.spacing * self.slope;
        let v = match (y * self.slope - wave).checked_rem_euclid(cycle) {
            Some(v) => v,
            None => 0,
        };
        if v < self.thickness * self.slope {
            return self.ch_fill;
        };
        self.ch_negative
    }
}

/// Adding the modulus does not change the remainder.
pub proof fn lemma_mod_period(a: int, m: int)
    requires
        m != 0,
    ensures
        (a + m) % m == a % m,
{
    if m > 0 {
        vstd::arithmetic::div_mod::lemma_mod_add_multiples_vanish(a, m);
    } else {
        let r = a % m;
        let q = a / m;
        assert(a == m * q + r && 0 <= r < -m) by (nonlinear_arith)
            requires m < 0, r == a % m, q == a / m;
        let r2 = (a + m) % m;
        let q2 = (a + m) / m;
        assert(a + m == m * q2 + r2 && 0 <= r2 < -m) by (nonlinear_arith)
            requires m < 0, r2 == (a + m) % m, q2 == (a + m) / m;
        assert(m * (q2 - q - 1) == r - r2) by (nonlinear_arith)
            requires a == m * q + r, a + m == m * q2 + r2;
        assert(r == r2) by (nonlinear_arith)
            requires m * (q2 - q - 1) == r - r2, 0 <= r < -m, 0 <= r2 < -m, m < 0;
    }
}

/// The background repeats every `2 * amp * slope` columns.
pub proof fn lemma_art_repeats_across(art: BackgroundArt, x: int, y: int)
    requires
        art.half() != 0,
    ensures
        art.spec_at(x + 2 * art.half(), y) == art.spec_at(x, y),
{
    lemma_mod_period(x, 2 * art.half());
}

/// Each wave of the background is symmetric about its crest: with
/// `h = amp * slope > 0`, columns `h + d` and `h - d` look alike for
/// `0 <= d <= h`.
pub proof fn lemma_art_mirror(art: BackgroundArt, d: int, y: int)
    requires
        art.half() > 0,
        0 <= d <= art.half(),
    ensures
        art.spec_at(art.half() + d, y) == art.spec_at(art.half() - d, y),
{
    let h = art.half();
    if d < h {
        vstd::arithmetic::div_mod::lemma_small_mod((h + d) as nat, (2 * h) as nat);
        vstd::arithmetic::div_mod::lemma_small_mod((h - d) as nat, (2 * h) as nat);
        assert(art.wave(h + d) == d);
        assert(art.wave(h - d) == d);
    } else {
        vstd::arithmetic::div_mod::lemma_small_mod(0, (2 * h) as nat);
        assert((2 * h) % (2 * h) == 0) by {
            vstd::arithmetic::div_mod::lemma_mod_self_0(2 * h);
        }
        assert(art.wave(h + d) == h);
        assert(art.wave(h - d) == h);
    }
}

/// The background repeats every `spacing` rows.
pub proof fn lemma_art_repeats_down(art: BackgroundArt, x: int, y: int)
    requires
        art.spacing * art.slope != 0,
    ensures
        art.spec_at(x, y + art.spacing) == art.spec_at(x, y),
{
    let m = art.spacing * art.slope;
    let a = y * art.slope - art.wave(x);
    let w = art.wave(x);
    let sp = art.spacing;
    let sl = art.slope;
    assert((y + sp) * sl - w == (y * sl - w) + sp * sl) by (nonlinear_arith);
    lemma_mod_period(a, m);
}

} // verus!
