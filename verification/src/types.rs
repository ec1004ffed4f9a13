//! The values that a parsed script is made of.

use vstd::prelude::*;

verus! {

/// The sections of a script that the parser tells apart.
#[derive(Clone, Copy, Debug, PartialEq, Eq, Structural)]
pub enum Section {
    /// Outside every section, or under a header that is not known.
    Unknown,
    /// `[Script Info]`
    ScriptInfo,
    /// `[V4+ Styles]`, or `[V4 Styles]` as older scripts call it.
    V4PlusStyles,
    /// `[Fonts]`
    Fonts,
    /// `[Events]`
    Events,
}

/// An axis that a scale or a rotation works along.
#[derive(Clone, Copy, Debug, PartialEq, Eq, Structural)]
pub enum XOrYOrZ {
    X,
    Y,
    Z,
}

/// Which of a style's four colours an override sets.
#[derive(Clone, Copy, Debug, PartialEq, Eq, Structural)]
pub enum ColorSlot {
    /// `\c`, `\1c`, `\1a`, `\alpha`
    Primary,
    /// `\2c`, `\2a`
    Secondary,
    /// `\3c`, `\3a`
    Outline,
    /// `\4c`, `\4a`
    Back,
}

/// How a karaoke syllable lights up.
#[derive(Clone, Copy, Debug, PartialEq, Eq, Structural)]
pub enum KaraokeKind {
    /// `\k`: the whole syllable at once.
    Word,
    /// `\kf` or `\K`: filled from left to right.
    Fill,
    /// `\ko`: the outline, from left to right.
    Outline,
}

/// An override code: one formatting directive inside `{` and `}` in the
/// text of an event.
#[derive(Clone, Debug, PartialEq, Eq)]
pub enum OverrideCode {
    /// `\b` with `0` or `1`: bold off or on.
    Bold(bool),
    /// `\i` with `0` or `1`: italic off or on.
    Italic(bool),
    /// `\u` with `0` or `1`: underline off or on.
    Underline(bool),
    /// `\s` with `0` or `1`: strikeout off or on.
    Strikeout(bool),
    /// `\bord` with a width.
    Border(u16),
    /// `\shad` with a depth.
    Shadow(u16),
    /// `\be` with `0` or `1`: blurred edges off or on.
    BlurEdges(bool),
    /// `\fn` with a font name, kept byte for byte. An empty name stands
    /// for the style's own font.
    FontName(Vec<u8>),
    /// `\fs` with a size in points.
    FontSize(u16),
    /// `\fscx` or `\fscy` with a percentage.
    Scale(XOrYOrZ, u16),
    /// `\fsp` with a distance in pixels.
    Spacing(u16),
    /// `\frx`, `\fry` or `\frz` with an angle in degrees; `\fr` is `\frz`.
    Rotation(XOrYOrZ, u16),
    /// `\fe` with the number of a character set.
    FontEncoding(u16),
    /// `\c` or `\1c` to `\4c` with `&H`, hexadecimal digits and `&`. The
    /// number is kept as written, blue first: what its bytes mean is left
    /// to whoever draws the text.
    Color(ColorSlot, u32),
    /// `\alpha` or `\1a` to `\4a` with `&H`, hexadecimal digits and `&`.
    Alpha(ColorSlot, u32),
    /// `\a` with an alignment as older scripts count it. Nothing, like 0,
    /// stands for the style's own alignment.
    Alignment(u16),
    /// `\an` with an alignment laid out like a number pad. Nothing, like 0,
    /// stands for the style's own alignment.
    AlignmentNumpad(u16),
    /// `\k`, `\kf`, `\K` or `\ko` with a duration in hundredths of a second.
    Karaoke(KaraokeKind, u16),
    /// `\q` with the number of a wrapping style.
    WrappingStyle(u16),
    /// `\r`, with a style's name or nothing: drops the overrides made so
    /// far and goes back to that style, or to the event's own.
    Reset(Vec<u8>),
}

/// What an [`OverrideCode`] holds, as a mathematical value.
pub ghost enum OverrideCodeView {
    Bold(bool),
    Italic(bool),
    Underline(bool),
    Strikeout(bool),
    Border(u16),
    Shadow(u16),
    BlurEdges(bool),
    FontName(Seq<u8>),
    FontSize(u16),
    Scale(XOrYOrZ, u16),
    Spacing(u16),
    Rotation(XOrYOrZ, u16),
    FontEncoding(u16),
    Color(ColorSlot, u32),
    Alpha(ColorSlot, u32),
    Alignment(u16),
    AlignmentNumpad(u16),
    Karaoke(KaraokeKind, u16),
    WrappingStyle(u16),
    Reset(Seq<u8>),
}

impl View for OverrideCode {
    type V = OverrideCodeView;

    open spec fn view(&self) -> OverrideCodeView {
        match *self {
            OverrideCode::Bold(on) => OverrideCodeView::Bold(on),
            OverrideCode::Italic(on) => OverrideCodeView::Italic(on),
            OverrideCode::Underline(on) => OverrideCodeView::Underline(on),
            OverrideCode::Strikeout(on) => OverrideCodeView::Strikeout(on),
            OverrideCode::Border(n) => OverrideCodeView::Border(n),
            OverrideCode::Shadow(n) => OverrideCodeView::Shadow(n),
            OverrideCode::BlurEdges(on) => OverrideCodeView::BlurEdges(on),
            OverrideCode::FontName(name) => OverrideCodeView::FontName(name@),
            OverrideCode::FontSize(n) => OverrideCodeView::FontSize(n),
            OverrideCode::Scale(axis, n) => OverrideCodeView::Scale(axis, n),
            OverrideCode::Spacing(n) => OverrideCodeView::Spacing(n),
            OverrideCode::Rotation(axis, n) => OverrideCodeView::Rotation(axis, n),
            OverrideCode::FontEncoding(n) => OverrideCodeView::FontEncoding(n),
            OverrideCode::Color(slot, n) => OverrideCodeView::Color(slot, n),
            OverrideCode::Alpha(slot, n) => OverrideCodeView::Alpha(slot, n),
            OverrideCode::Alignment(n) => OverrideCodeView::Alignment(n),
            OverrideCode::AlignmentNumpad(n) => OverrideCodeView::AlignmentNumpad(n),
            OverrideCode::Karaoke(kind, n) => OverrideCodeView::Karaoke(kind, n),
            OverrideCode::WrappingStyle(n) => OverrideCodeView::WrappingStyle(n),
            OverrideCode::Reset(name) => OverrideCodeView::Reset(name@),
        }
    }
}

/// One piece of an event's text, in the order in which it is drawn.
#[derive(Clone, Debug, PartialEq, Eq)]
pub enum Run {
    /// Text to draw, byte for byte as the script has it.
    Literal(Vec<u8>),
    /// A directive that changes how the text after it is drawn.
    Tag(OverrideCode),
}

/// What a [`Run`] holds, as a mathematical value.
pub ghost enum RunView {
    Literal(Seq<u8>),
    Tag(OverrideCodeView),
}

impl View for Run {
    type V = RunView;

    open spec fn view(&self) -> RunView {
        match *self {
            Run::Literal(text) => RunView::Literal(text@),
            Run::Tag(code) => RunView::Tag(code@),
        }
    }
}

/// The runs of `v`, each as a mathematical value.
pub open spec fn runs_view(v: Seq<Run>) -> Seq<RunView> {
    Seq::new(v.len(), |i: int| v[i]@)
}

} // verus!
