//! Override codes: from one tag span to a typed value.
//!
//! A span is what stands between one `\` and the next `\` or the closing
//! `}`. Its tag is the longest name of the registry that the span begins
//! with; what follows the name is the tag's parameter.

use vstd::prelude::*;
use vstd::slice::slice_to_vec;
use crate::cursor::{starts_with, word, Cursor};
use crate::error::Error;
use crate::number::{
    hex_value, hex_within, integer_within, is_hex_numeral, parse_hex, parse_integer,
};
use crate::types::{ColorSlot, KaraokeKind, OverrideCode, OverrideCodeView, XOrYOrZ};

verus! {

/// The names under which override codes are written.
#[derive(Clone, Copy, Debug, PartialEq, Eq, Structural)]
pub enum TagName {
    Bold,
    Italic,
    Underline,
    Strikeout,
    BlurEdges,
    Border,
    Shadow,
    FontName,
    FontSize,
    ScaleX,
    ScaleY,
    Spacing,
    Rotation,
    RotationX,
    RotationY,
    RotationZ,
    FontEncoding,
    Color,
    Color1,
    Color2,
    Color3,
    Color4,
    Alpha,
    Alpha1,
    Alpha2,
    Alpha3,
    Alpha4,
    Alignment,
    AlignmentNumpad,
    Karaoke,
    KaraokeFill,
    KaraokeFillUpper,
    KaraokeOutline,
    WrappingStyle,
    Reset,
}

impl TagName {
    /// The bytes that write this name in a script, after the `\`.
    pub open spec fn name(self) -> Seq<u8> {
        match self {
            TagName::Bold => word("b"),
            TagName::Italic => word("i"),
            TagName::Underline => word("u"),
            TagName::Strikeout => word("s"),
            TagName::BlurEdges => word("be"),
            TagName::Border => word("bord"),
            TagName::Shadow => word("shad"),
            TagName::FontName => word("fn"),
            TagName::FontSize => word("fs"),
            TagName::ScaleX => word("fscx"),
            TagName::ScaleY => word("fscy"),
            TagName::Spacing => word("fsp"),
            TagName::Rotation => word("fr"),
            TagName::RotationX => word("frx"),
            TagName::RotationY => word("fry"),
            TagName::RotationZ => word("frz"),
            TagName::FontEncoding => word("fe"),
            TagName::Color => word("c"),
            TagName::Color1 => word("1c"),
            TagName::Color2 => word("2c"),
            TagName::Color3 => word("3c"),
            TagName::Color4 => word("4c"),
            TagName::Alpha => word("alpha"),
            TagName::Alpha1 => word("1a"),
            TagName::Alpha2 => word("2a"),
            TagName::Alpha3 => word("3a"),
            TagName::Alpha4 => word("4a"),
            TagName::Alignment => word("a"),
            TagName::AlignmentNumpad => word("an"),
            TagName::Karaoke => word("k"),
            TagName::KaraokeFill => word("kf"),
            TagName::KaraokeFillUpper => word("K"),
            TagName::KaraokeOutline => word("ko"),
            TagName::WrappingStyle => word("q"),
            TagName::Reset => word("r"),
        }
    }

    /// This name as a keyword.
    pub fn text(self) -> (w: &'static str)
        ensures
            word(w) == self.name(),
    {
        match self {
            TagName::Bold => "b",
            TagName::Italic => "i",
            TagName::Underline => "u",
            TagName::Strikeout => "s",
            TagName::BlurEdges => "be",
            TagName::Border => "bord",
            TagName::Shadow => "shad",
            TagName::FontName => "fn",
            TagName::FontSize => "fs",
            TagName::ScaleX => "fscx",
            TagName::ScaleY => "fscy",
            TagName::Spacing => "fsp",
            TagName::Rotation => "fr",
            TagName::RotationX => "frx",
            TagName::RotationY => "fry",
            TagName::RotationZ => "frz",
            TagName::FontEncoding => "fe",
            TagName::Color => "c",
            TagName::Color1 => "1c",
            TagName::Color2 => "2c",
            TagName::Color3 => "3c",
            TagName::Color4 => "4c",
            TagName::Alpha => "alpha",
            TagName::Alpha1 => "1a",
            TagName::Alpha2 => "2a",
            TagName::Alpha3 => "3a",
            TagName::Alpha4 => "4a",
            TagName::Alignment => "a",
            TagName::AlignmentNumpad => "an",
            TagName::Karaoke => "k",
            TagName::KaraokeFill => "kf",
            TagName::KaraokeFillUpper => "K",
            TagName::KaraokeOutline => "ko",
            TagName::WrappingStyle => "q",
            TagName::Reset => "r",
        }
    }

    /// Whether `span` begins with this name.
    pub open spec fn opens(self, span: Seq<u8>) -> bool {
        self.name().is_prefix_of(span)
    }
}

/// Every tag name that the parser knows.
pub open spec fn registry() -> Seq<TagName> {
    seq![
        TagName::Bold,
        TagName::Italic,
        TagName::Underline,
        TagName::Strikeout,
        TagName::BlurEdges,
        TagName::Border,
        TagName::Shadow,
        TagName::FontName,
        TagName::FontSize,
        TagName::ScaleX,
        TagName::ScaleY,
        TagName::Spacing,
        TagName::Rotation,
        TagName::RotationX,
        TagName::RotationY,
        TagName::RotationZ,
        TagName::FontEncoding,
        TagName::Color,
        TagName::Color1,
        TagName::Color2,
        TagName::Color3,
        TagName::Color4,
        TagName::Alpha,
        TagName::Alpha1,
        TagName::Alpha2,
        TagName::Alpha3,
        TagName::Alpha4,
        TagName::Alignment,
        TagName::AlignmentNumpad,
        TagName::Karaoke,
        TagName::KaraokeFill,
        TagName::KaraokeFillUpper,
        TagName::KaraokeOutline,
        TagName::WrappingStyle,
        TagName::Reset,
    ]
}

/// The registry as a table to walk through.
pub fn registry_table() -> (table: [TagName; 35])
    ensures
        table@ == registry(),
{
    let table = [
        TagName::Bold,
        TagName::Italic,
        TagName::Underline,
        TagName::Strikeout,
        TagName::BlurEdges,
        TagName::Border,
        TagName::Shadow,
        TagName::FontName,
        TagName::FontSize,
        TagName::ScaleX,
        TagName::ScaleY,
        TagName::Spacing,
        TagName::Rotation,
        TagName::RotationX,
        TagName::RotationY,
        TagName::RotationZ,
        TagName::FontEncoding,
        TagName::Color,
        TagName::Color1,
        TagName::Color2,
        TagName::Color3,
        TagName::Color4,
        TagName::Alpha,
        TagName::Alpha1,
        TagName::Alpha2,
        TagName::Alpha3,
        TagName::Alpha4,
        TagName::Alignment,
        TagName::AlignmentNumpad,
        TagName::Karaoke,
        TagName::KaraokeFill,
        TagName::KaraokeFillUpper,
        TagName::KaraokeOutline,
        TagName::WrappingStyle,
        TagName::Reset,
    ];
    assert(table@ =~= registry());
    table
}

/// Among the first `n` names of the registry, the longest that `span`
/// begins with.
pub open spec fn longest_among(span: Seq<u8>, n: int) -> Option<TagName>
    decreases n,
{
    if n <= 0 {
        None
    } else {
        let before = longest_among(span, n - 1);
        let t = registry()[n - 1];
        if t.opens(span) && (before matches Some(b) ==> b.name().len() < t.name().len()) {
            Some(t)
        } else {
            before
        }
    }
}

/// The tag of `span`: the longest name of the registry that it begins with.
pub open spec fn tag_of(span: Seq<u8>) -> Option<TagName> {
    longest_among(span, registry().len() as int)
}

/// The chosen tag opens the span and no name among the first `n` that
/// opens it is longer; none is chosen only where none opens it.
pub proof fn lemma_longest_among(span: Seq<u8>, n: int)
    requires
        0 <= n <= registry().len(),
    ensures
        match longest_among(span, n) {
            Some(t) => t.opens(span) && forall|j: int|
                0 <= j < n && (#[trigger] registry()[j]).opens(span) ==> registry()[j].name().len()
                    <= t.name().len(),
            None => forall|j: int| 0 <= j < n ==> !(#[trigger] registry()[j]).opens(span),
        },
    decreases n,
{
    if n > 0 {
        lemma_longest_among(span, n - 1);
    }
}

/// Longest-prefix match: the tag of a span is a name that the span begins
/// with, no name of the registry that the span begins with is longer, and
/// a span has no tag only where it begins with no name of the registry.
pub proof fn lemma_tag_is_longest(span: Seq<u8>)
    ensures
        match tag_of(span) {
            Some(t) => t.opens(span) && forall|j: int|
                0 <= j < registry().len() && (#[trigger] registry()[j]).opens(span)
                    ==> registry()[j].name().len() <= t.name().len(),
            None => forall|j: int| 0 <= j < registry().len() ==> !(#[trigger] registry()[j]).opens(
                span,
            ),
        },
{
    lemma_longest_among(span, registry().len() as int);
}

/// The parameter of an on/off tag: `0` or `1`, one byte.
pub open spec fn flag_of(p: Seq<u8>) -> Result<bool, Error> {
    if p.len() == 1 && p[0] == '0' as u8 {
        Ok(false)
    } else if p.len() == 1 && p[0] == '1' as u8 {
        Ok(true)
    } else {
        Err(Error::OCInvalidParams)
    }
}

/// The parameter of a numeric tag: a numeral of 16 bits without sign,
/// though `+` may stand before it. It must be there.
pub open spec fn amount_of(p: Seq<u8>) -> Result<u16, Error> {
    if p.len() == 0 {
        Err(Error::OCMissingParams)
    } else if p[0] == '-' as u8 {
        Err(Error::OCInvalidParams)
    } else {
        match integer_within(p, 0, u16::MAX as int) {
            Some(v) => Ok(v as u16),
            None => Err(Error::OCInvalidParams),
        }
    }
}

/// The parameter of a numeric tag that may stand alone: nothing counts as 0,
/// the style's own setting.
pub open spec fn amount_or_default(p: Seq<u8>) -> Result<u16, Error> {
    if p.len() == 0 {
        Ok(0u16)
    } else {
        amount_of(p)
    }
}

/// The parameter of a colour tag: `&H`, hexadecimal digits that write a
/// number of 32 bits, and `&`.
pub open spec fn color_of(p: Seq<u8>) -> Result<u32, Error> {
    if p.len() == 0 {
        Err(Error::OCMissingParams)
    } else if p.len() >= 3 && p[0] == '&' as u8 && p[1] == 'H' as u8 && p.last() == '&' as u8 {
        match hex_within(p.subrange(2, p.len() - 1)) {
            Some(v) => Ok(v),
            None => Err(Error::OCInvalidParams),
        }
    } else {
        Err(Error::OCInvalidParams)
    }
}

/// `&H`, hexadecimal digits and `&` are a colour: the number that the
/// digits write, as it is written, where 32 bits hold it.
pub proof fn lemma_color_literal(digits: Seq<u8>)
    requires
        is_hex_numeral(digits),
    ensures
        color_of(seq!['&' as u8, 'H' as u8] + digits + seq!['&' as u8]) == if hex_value(digits)
            <= u32::MAX {
            Ok::<u32, Error>(hex_value(digits) as u32)
        } else {
            Err::<u32, Error>(Error::OCInvalidParams)
        },
{
    let p = seq!['&' as u8, 'H' as u8] + digits + seq!['&' as u8];
    assert(p.subrange(2, p.len() - 1) =~= digits);
}

/// `Ok` with `wrap` of the value, or the error as it is.
pub open spec fn lift<T>(r: Result<T, Error>, wrap: spec_fn(T) -> OverrideCodeView) -> Result<
    OverrideCodeView,
    Error,
> {
    match r {
        Ok(v) => Ok(wrap(v)),
        Err(e) => Err(e),
    }
}

/// The code that tag `t` with parameter `p` stands for.
pub open spec fn code_of(t: TagName, p: Seq<u8>) -> Result<OverrideCodeView, Error> {
    match t {
        TagName::Bold => lift(flag_of(p), |on: bool| OverrideCodeView::Bold(on)),
        TagName::Italic => lift(flag_of(p), |on: bool| OverrideCodeView::Italic(on)),
        TagName::Underline => lift(flag_of(p), |on: bool| OverrideCodeView::Underline(on)),
        TagName::Strikeout => lift(flag_of(p), |on: bool| OverrideCodeView::Strikeout(on)),
        TagName::BlurEdges => lift(flag_of(p), |on: bool| OverrideCodeView::BlurEdges(on)),
        TagName::Border => lift(amount_of(p), |n: u16| OverrideCodeView::Border(n)),
        TagName::Shadow => lift(amount_of(p), |n: u16| OverrideCodeView::Shadow(n)),
        TagName::FontName => Ok(OverrideCodeView::FontName(p)),
        TagName::FontSize => lift(amount_of(p), |n: u16| OverrideCodeView::FontSize(n)),
        TagName::ScaleX => lift(amount_of(p), |n: u16| OverrideCodeView::Scale(XOrYOrZ::X, n)),
        TagName::ScaleY => lift(amount_of(p), |n: u16| OverrideCodeView::Scale(XOrYOrZ::Y, n)),
        TagName::Spacing => lift(amount_of(p), |n: u16| OverrideCodeView::Spacing(n)),
        TagName::Rotation => lift(
            amount_of(p),
            |n: u16| OverrideCodeView::Rotation(XOrYOrZ::Z, n),
        ),
        TagName::RotationX => lift(
            amount_of(p),
            |n: u16| OverrideCodeView::Rotation(XOrYOrZ::X, n),
        ),
        TagName::RotationY => lift(
            amount_of(p),
            |n: u16| OverrideCodeView::Rotation(XOrYOrZ::Y, n),
        ),
        TagName::RotationZ => lift(
            amount_of(p),
            |n: u16| OverrideCodeView::Rotation(XOrYOrZ::Z, n),
        ),
        TagName::FontEncoding => lift(amount_of(p), |n: u16| OverrideCodeView::FontEncoding(n)),
        TagName::Color => lift(
            color_of(p),
            |n: u32| OverrideCodeView::Color(ColorSlot::Primary, n),
        ),
        TagName::Color1 => lift(
            color_of(p),
            |n: u32| OverrideCodeView::Color(ColorSlot::Primary, n),
        ),
        TagName::Color2 => lift(
            color_of(p),
            |n: u32| OverrideCodeView::Color(ColorSlot::Secondary, n),
        ),
        TagName::Color3 => lift(
            color_of(p),
            |n: u32| OverrideCodeView::Color(ColorSlot::Outline, n),
        ),
        TagName::Color4 => lift(color_of(p), |n: u32| OverrideCodeView::Color(ColorSlot::Back, n)),
        TagName::Alpha => lift(
            color_of(p),
            |n: u32| OverrideCodeView::Alpha(ColorSlot::Primary, n),
        ),
        TagName::Alpha1 => lift(
            color_of(p),
            |n: u32| OverrideCodeView::Alpha(ColorSlot::Primary, n),
        ),
        TagName::Alpha2 => lift(
            color_of(p),
            |n: u32| OverrideCodeView::Alpha(ColorSlot::Secondary, n),
        ),
        TagName::Alpha3 => lift(
            color_of(p),
            |n: u32| OverrideCodeView::Alpha(ColorSlot::Outline, n),
        ),
        TagName::Alpha4 => lift(color_of(p), |n: u32| OverrideCodeView::Alpha(ColorSlot::Back, n)),
        TagName::Alignment => lift(amount_or_default(p), |n: u16| OverrideCodeView::Alignment(n)),
        TagName::AlignmentNumpad => lift(
            amount_or_default(p),
            |n: u16| OverrideCodeView::AlignmentNumpad(n),
        ),
        TagName::Karaoke => lift(
            amount_of(p),
            |n: u16| OverrideCodeView::Karaoke(KaraokeKind::Word, n),
        ),
        TagName::KaraokeFill => lift(
            amount_of(p),
            |n: u16| OverrideCodeView::Karaoke(KaraokeKind::Fill, n),
        ),
        TagName::KaraokeFillUpper => lift(
            amount_of(p),
            |n: u16| OverrideCodeView::Karaoke(KaraokeKind::Fill, n),
        ),
        TagName::KaraokeOutline => lift(
            amount_of(p),
            |n: u16| OverrideCodeView::Karaoke(KaraokeKind::Outline, n),
        ),
        TagName::WrappingStyle => lift(amount_of(p), |n: u16| OverrideCodeView::WrappingStyle(n)),
        TagName::Reset => Ok(OverrideCodeView::Reset(p)),
    }
}

/// The code that `span` stands for: its tag by longest match, applied to
/// what follows the name. A span that begins with no known name is no code.
pub open spec fn override_of(span: Seq<u8>) -> Result<OverrideCodeView, Error> {
    match tag_of(span) {
        Some(t) => code_of(t, span.skip(t.name().len() as int)),
        None => Err(Error::OCInvalid),
    }
}

/// Whether `r` is the outcome `m`, its code taken as a mathematical value.
pub open spec fn code_agrees(r: Result<OverrideCode, Error>, m: Result<OverrideCodeView, Error>) -> bool {
    match r {
        Ok(code) => m == Ok::<OverrideCodeView, Error>(code@),
        Err(e) => m == Err::<OverrideCodeView, Error>(e),
    }
}

/// Reads the byte of an on/off parameter.
pub fn parse_bool(r: u8) -> (on: Result<bool, Error>)
    ensures
        on == flag_of(seq![r]),
{
    if r == '0' as u8 {
        Ok(false)
    } else if r == '1' as u8 {
        Ok(true)
    } else {
        Err(Error::OCInvalidParams)
    }
}

fn parse_flag(p: &[u8]) -> (on: Result<bool, Error>)
    ensures
        on == flag_of(p@),
{
    let c = Cursor::new(p);
    match c.peek() {
        Ok(b) => {
            if c.len() == 1 {
                assert(p@ =~= seq![b]);
                parse_bool(b)
            } else {
                Err(Error::OCInvalidParams)
            }
        },
        Err(_) => Err(Error::OCInvalidParams),
    }
}

fn parse_amount(p: &[u8]) -> (n: Result<u16, Error>)
    ensures
        n == amount_of(p@),
{
    let c = Cursor::new(p);
    match c.peek() {
        Err(_) => Err(Error::OCMissingParams),
        Ok(b) => {
            if b == '-' as u8 {
                return Err(Error::OCInvalidParams);
            }
            match parse_integer(p, 0, 0xffff) {
                Some(v) => Ok(v as u16),
                None => Err(Error::OCInvalidParams),
            }
        },
    }
}

fn parse_amount_or_default(p: &[u8]) -> (n: Result<u16, Error>)
    ensures
        n == amount_or_default(p@),
{
    if p.len() == 0 {
        Ok(0)
    } else {
        parse_amount(p)
    }
}

fn parse_color(p: &[u8]) -> (n: Result<u32, Error>)
    ensures
        n == color_of(p@),
{
    let mut c = Cursor::new(p);
    let len = c.len();
    if len == 0 {
        return Err(Error::OCMissingParams);
    }
    if len < 3 {
        return Err(Error::OCInvalidParams);
    }
    let first = c.peek();
    c.advance();
    let second = c.peek();
    c.seek(len - 1);
    let last = c.peek();
    match (first, second, last, c.slice(2, len - 1)) {
        (Ok(a), Ok(h), Ok(z), Some(digits)) => {
            if a == '&' as u8 && h == 'H' as u8 && z == '&' as u8 {
                match parse_hex(digits) {
                    Some(v) => Ok(v),
                    None => Err(Error::OCInvalidParams),
                }
            } else {
                Err(Error::OCInvalidParams)
            }
        },
        _ => Err(Error::OCInvalidParams),
    }
}

/// The tag of `span` and the length of its name.
fn match_tag(span: &[u8]) -> (r: Option<(TagName, usize)>)
    ensures
        match r {
            Some((t, n)) => tag_of(span@) == Some(t) && n == t.name().len() && n <= span@.len(),
            None => tag_of(span@).is_none(),
        },
{
    let table = registry_table();
    let mut best: Option<(TagName, usize)> = None;
    let mut i: usize = 0;
    while i < 35
        invariant
            i <= 35,
            table@ == registry(),
            registry().len() == 35,
            match best {
                Some((t, n)) => longest_among(span@, i as int) == Some(t) && n == t.name().len()
                    && n <= span@.len(),
                None => longest_among(span@, i as int).is_none(),
            },
        decreases 35 - i,
    {
        let t = table[i];
        let w = t.text();
        if starts_with(span, w) {
            let n = w.as_bytes().len();
            let longer = match best {
                Some((_, m)) => m < n,
                None => true,
            };
            if longer {
                best = Some((t, n));
            }
        }
        i = i + 1;
    }
    best
}

fn flag_code(p: &[u8], t: TagName) -> (code: Result<OverrideCode, Error>)
    requires
        t == TagName::Bold || t == TagName::Italic || t == TagName::Underline || t
            == TagName::Strikeout || t == TagName::BlurEdges,
    ensures
        code_agrees(code, code_of(t, p@)),
{
    match parse_flag(p) {
        Err(e) => Err(e),
        Ok(on) => Ok(
            match t {
                TagName::Bold => OverrideCode::Bold(on),
                TagName::Italic => OverrideCode::Italic(on),
                TagName::Underline => OverrideCode::Underline(on),
                TagName::Strikeout => OverrideCode::Strikeout(on),
                _ => OverrideCode::BlurEdges(on),
            },
        ),
    }
}

fn color_code(p: &[u8], t: TagName) -> (code: Result<OverrideCode, Error>)
    requires
        t == TagName::Color || t == TagName::Color1 || t == TagName::Color2 || t == TagName::Color3
            || t == TagName::Color4 || t == TagName::Alpha || t == TagName::Alpha1 || t
            == TagName::Alpha2 || t == TagName::Alpha3 || t == TagName::Alpha4,
    ensures
        code_agrees(code, code_of(t, p@)),
{
    match parse_color(p) {
        Err(e) => Err(e),
        Ok(n) => Ok(
            match t {
                TagName::Color => OverrideCode::Color(ColorSlot::Primary, n),
                TagName::Color1 => OverrideCode::Color(ColorSlot::Primary, n),
                TagName::Color2 => OverrideCode::Color(ColorSlot::Secondary, n),
                TagName::Color3 => OverrideCode::Color(ColorSlot::Outline, n),
                TagName::Color4 => OverrideCode::Color(ColorSlot::Back, n),
                TagName::Alpha => OverrideCode::Alpha(ColorSlot::Primary, n),
                TagName::Alpha1 => OverrideCode::Alpha(ColorSlot::Primary, n),
                TagName::Alpha2 => OverrideCode::Alpha(ColorSlot::Secondary, n),
                TagName::Alpha3 => OverrideCode::Alpha(ColorSlot::Outline, n),
                _ => OverrideCode::Alpha(ColorSlot::Back, n),
            },
        ),
    }
}

fn amount_code(p: &[u8], t: TagName) -> (code: Result<OverrideCode, Error>)
    requires
        t == TagName::Border || t == TagName::Shadow || t == TagName::FontSize || t
            == TagName::ScaleX || t == TagName::ScaleY || t == TagName::Spacing || t
            == TagName::Rotation || t == TagName::RotationX || t == TagName::RotationY || t
            == TagName::RotationZ || t == TagName::FontEncoding || t == TagName::Karaoke || t
            == TagName::KaraokeFill || t == TagName::KaraokeFillUpper || t
            == TagName::KaraokeOutline || t == TagName::WrappingStyle,
    ensures
        code_agrees(code, code_of(t, p@)),
{
    match parse_amount(p) {
        Err(e) => Err(e),
        Ok(n) => Ok(
            match t {
                TagName::Border => OverrideCode::Border(n),
                TagName::Shadow => OverrideCode::Shadow(n),
                TagName::FontSize => OverrideCode::FontSize(n),
                TagName::ScaleX => OverrideCode::Scale(XOrYOrZ::X, n),
                TagName::ScaleY => OverrideCode::Scale(XOrYOrZ::Y, n),
                TagName::Spacing => OverrideCode::Spacing(n),
                TagName::Rotation => OverrideCode::Rotation(XOrYOrZ::Z, n),
                TagName::RotationX => OverrideCode::Rotation(XOrYOrZ::X, n),
                TagName::RotationY => OverrideCode::Rotation(XOrYOrZ::Y, n),
                TagName::RotationZ => OverrideCode::Rotation(XOrYOrZ::Z, n),
                TagName::FontEncoding => OverrideCode::FontEncoding(n),
                TagName::Karaoke => OverrideCode::Karaoke(KaraokeKind::Word, n),
                TagName::KaraokeFill => OverrideCode::Karaoke(KaraokeKind::Fill, n),
                TagName::KaraokeFillUpper => OverrideCode::Karaoke(KaraokeKind::Fill, n),
                TagName::KaraokeOutline => OverrideCode::Karaoke(KaraokeKind::Outline, n),
                _ => OverrideCode::WrappingStyle(n),
            },
        ),
    }
}

/// Applies the grammar of tag `t` to its parameter `p`.
pub fn decode(t: TagName, p: &[u8]) -> (code: Result<OverrideCode, Error>)
    ensures
        code_agrees(code, code_of(t, p@)),
{
    match t {
        TagName::Bold | TagName::Italic | TagName::Underline | TagName::Strikeout
        | TagName::BlurEdges => flag_code(p, t),
        TagName::Color | TagName::Color1 | TagName::Color2 | TagName::Color3 | TagName::Color4
        | TagName::Alpha | TagName::Alpha1 | TagName::Alpha2 | TagName::Alpha3
        | TagName::Alpha4 => color_code(p, t),
        TagName::FontName => Ok(OverrideCode::FontName(slice_to_vec(p))),
        TagName::Reset => Ok(OverrideCode::Reset(slice_to_vec(p))),
        TagName::Alignment => match parse_amount_or_default(p) {
            Ok(n) => Ok(OverrideCode::Alignment(n)),
            Err(e) => Err(e),
        },
        TagName::AlignmentNumpad => match parse_amount_or_default(p) {
            Ok(n) => Ok(OverrideCode::AlignmentNumpad(n)),
            Err(e) => Err(e),
        },
        _ => amount_code(p, t),
    }
}

/// Parses one tag span, without its `\`, into a typed override code.
///
/// The tag is found by longest match against the registry. A span that
/// begins with no known name is `OCInvalid`; a parameter that is required
/// and absent is `OCMissingParams`; one that is there and malformed is
/// `OCInvalidParams`.
pub fn parse_override(r: &[u8]) -> (code: Result<OverrideCode, Error>)
    ensures
        code_agrees(code, override_of(r@)),
{
    let c = Cursor::new(r);
    match match_tag(r) {
        None => Err(Error::OCInvalid),
        Some((t, n)) => {
            match c.slice(n, c.len()) {
                Some(p) => {
                    assert(p@ =~= r@.skip(n as int));
                    decode(t, p)
                },
                None => Err(Error::OCInvalid),
            }
        },
    }
}

} // verus!
