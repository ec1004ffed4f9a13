//! Styles: from the record of one `Style:` row to a typed value.
//!
//! Every field that the parser knows has a kind, and one coercion turns a
//! raw value into a value of that kind or refuses it. Names that the parser
//! does not know are let through without effect, so that a script may
//! declare more fields than these.

use vstd::prelude::*;
use vstd::slice::slice_to_vec;
use vstd::string::is_ascii;
use crate::cursor::{is_word, lemma_word_bytes, word, Cursor};
use crate::error::Error;
use crate::format::{pairs, record_of, strip_keyword, content_start, FormatTable};
use crate::number::{
    check_decimal, integer_within, is_decimal, parse_integer, parse_tristate, tristate_value,
};

verus! {

/// The kinds of field that a style has.
#[derive(Clone, Copy, Debug, PartialEq, Eq, Structural)]
pub enum FieldKind {
    /// Kept byte for byte.
    Text,
    /// On or off, written `-1` or `0`.
    Toggle,
    /// A whole number of 8 bits, with sign.
    Int8,
    /// A whole number of 16 bits, with sign.
    Int16,
    /// A whole number of 32 bits, with sign.
    Int32,
    /// A number in decimal notation, kept as written.
    Decimal,
}

/// The fields of a style that the parser knows.
#[derive(Clone, Copy, Debug, PartialEq, Eq, Structural)]
pub enum StyleField {
    Name,
    Fontname,
    Fontsize,
    PrimaryColour,
    SecondaryColour,
    OutlineColour,
    TertiaryColour,
    BackColour,
    Bold,
    Italic,
    Underline,
    Strikeout,
    BlurEdges,
    ScaleX,
    ScaleY,
    Spacing,
    Angle,
    BorderStyle,
    Outline,
    Shadow,
    Alignment,
    MarginL,
    MarginR,
    MarginV,
}

impl StyleField {
    /// The name under which a format declaration lists this field.
    pub open spec fn name(self) -> Seq<u8> {
        match self {
            StyleField::Name => word("Name"),
            StyleField::Fontname => word("Fontname"),
            StyleField::Fontsize => word("Fontsize"),
            StyleField::PrimaryColour => word("PrimaryColour"),
            StyleField::SecondaryColour => word("SecondaryColour"),
            StyleField::OutlineColour => word("OutlineColour"),
            StyleField::TertiaryColour => word("TertiaryColour"),
            StyleField::BackColour => word("BackColour"),
            StyleField::Bold => word("Bold"),
            StyleField::Italic => word("Italic"),
            StyleField::Underline => word("Underline"),
            StyleField::Strikeout => word("Strikeout"),
            StyleField::BlurEdges => word("BlurEdges"),
            StyleField::ScaleX => word("ScaleX"),
            StyleField::ScaleY => word("ScaleY"),
            StyleField::Spacing => word("Spacing"),
            StyleField::Angle => word("Angle"),
            StyleField::BorderStyle => word("BorderStyle"),
            StyleField::Outline => word("Outline"),
            StyleField::Shadow => word("Shadow"),
            StyleField::Alignment => word("Alignment"),
            StyleField::MarginL => word("MarginL"),
            StyleField::MarginR => word("MarginR"),
            StyleField::MarginV => word("MarginV"),
        }
    }

    /// The kind of value that this field takes.
    pub open spec fn kind(self) -> FieldKind {
        match self {
            StyleField::Name => FieldKind::Text,
            StyleField::Fontname => FieldKind::Text,
            StyleField::Fontsize => FieldKind::Int8,
            StyleField::PrimaryColour => FieldKind::Int32,
            StyleField::SecondaryColour => FieldKind::Int32,
            StyleField::OutlineColour => FieldKind::Int32,
            StyleField::TertiaryColour => FieldKind::Int32,
            StyleField::BackColour => FieldKind::Int32,
            StyleField::Bold => FieldKind::Toggle,
            StyleField::Italic => FieldKind::Toggle,
            StyleField::Underline => FieldKind::Toggle,
            StyleField::Strikeout => FieldKind::Toggle,
            StyleField::BlurEdges => FieldKind::Toggle,
            StyleField::ScaleX => FieldKind::Int16,
            StyleField::ScaleY => FieldKind::Int16,
            StyleField::Spacing => FieldKind::Int32,
            StyleField::Angle => FieldKind::Decimal,
            StyleField::BorderStyle => FieldKind::Int8,
            StyleField::Outline => FieldKind::Decimal,
            StyleField::Shadow => FieldKind::Decimal,
            StyleField::Alignment => FieldKind::Int8,
            StyleField::MarginL => FieldKind::Int32,
            StyleField::MarginR => FieldKind::Int32,
            StyleField::MarginV => FieldKind::Int32,
        }
    }

    /// The kind of value that this field takes.
    pub fn value_kind(self) -> (kind: FieldKind)
        ensures
            kind == self.kind(),
    {
        match self {
            StyleField::Name => FieldKind::Text,
            StyleField::Fontname => FieldKind::Text,
            StyleField::Fontsize => FieldKind::Int8,
            StyleField::PrimaryColour => FieldKind::Int32,
            StyleField::SecondaryColour => FieldKind::Int32,
            StyleField::OutlineColour => FieldKind::Int32,
            StyleField::TertiaryColour => FieldKind::Int32,
            StyleField::BackColour => FieldKind::Int32,
            StyleField::Bold => FieldKind::Toggle,
            StyleField::Italic => FieldKind::Toggle,
            StyleField::Underline => FieldKind::Toggle,
            StyleField::Strikeout => FieldKind::Toggle,
            StyleField::BlurEdges => FieldKind::Toggle,
            StyleField::ScaleX => FieldKind::Int16,
            StyleField::ScaleY => FieldKind::Int16,
            StyleField::Spacing => FieldKind::Int32,
            StyleField::Angle => FieldKind::Decimal,
            StyleField::BorderStyle => FieldKind::Int8,
            StyleField::Outline => FieldKind::Decimal,
            StyleField::Shadow => FieldKind::Decimal,
            StyleField::Alignment => FieldKind::Int8,
            StyleField::MarginL => FieldKind::Int32,
            StyleField::MarginR => FieldKind::Int32,
            StyleField::MarginV => FieldKind::Int32,
        }
    }
}

/// The field that a format declaration means by `name`, if the parser
/// knows it. Names are told apart by case.
pub open spec fn field_named(name: Seq<u8>) -> Option<StyleField> {
    if name == word("Name") {
        Some(StyleField::Name)
    } else if name == word("Fontname") {
        Some(StyleField::Fontname)
    } else if name == word("Fontsize") {
        Some(StyleField::Fontsize)
    } else if name == word("PrimaryColour") {
        Some(StyleField::PrimaryColour)
    } else if name == word("SecondaryColour") {
        Some(StyleField::SecondaryColour)
    } else if name == word("OutlineColour") {
        Some(StyleField::OutlineColour)
    } else if name == word("TertiaryColour") {
        Some(StyleField::TertiaryColour)
    } else if name == word("BackColour") {
        Some(StyleField::BackColour)
    } else if name == word("Bold") {
        Some(StyleField::Bold)
    } else if name == word("Italic") {
        Some(StyleField::Italic)
    } else if name == word("Underline") {
        Some(StyleField::Underline)
    } else if name == word("Strikeout") {
        Some(StyleField::Strikeout)
    } else if name == word("BlurEdges") {
        Some(StyleField::BlurEdges)
    } else if name == word("ScaleX") {
        Some(StyleField::ScaleX)
    } else if name == word("ScaleY") {
        Some(StyleField::ScaleY)
    } else if name == word("Spacing") {
        Some(StyleField::Spacing)
    } else if name == word("Angle") {
        Some(StyleField::Angle)
    } else if name == word("BorderStyle") {
        Some(StyleField::BorderStyle)
    } else if name == word("Outline") {
        Some(StyleField::Outline)
    } else if name == word("Shadow") {
        Some(StyleField::Shadow)
    } else if name == word("Alignment") {
        Some(StyleField::Alignment)
    } else if name == word("MarginL") {
        Some(StyleField::MarginL)
    } else if name == word("MarginR") {
        Some(StyleField::MarginR)
    } else if name == word("MarginV") {
        Some(StyleField::MarginV)
    } else {
        None
    }
}

/// The field that a format declaration means by `name`.
pub fn lookup_field(name: &[u8]) -> (field: Option<StyleField>)
    ensures
        field == field_named(name@),
{
    if is_word(name, "Name") {
        Some(StyleField::Name)
    } else if is_word(name, "Fontname") {
        Some(StyleField::Fontname)
    } else if is_word(name, "Fontsize") {
        Some(StyleField::Fontsize)
    } else if is_word(name, "PrimaryColour") {
        Some(StyleField::PrimaryColour)
    } else if is_word(name, "SecondaryColour") {
        Some(StyleField::SecondaryColour)
    } else if is_word(name, "OutlineColour") {
        Some(StyleField::OutlineColour)
    } else if is_word(name, "TertiaryColour") {
        Some(StyleField::TertiaryColour)
    } else if is_word(name, "BackColour") {
        Some(StyleField::BackColour)
    } else if is_word(name, "Bold") {
        Some(StyleField::Bold)
    } else if is_word(name, "Italic") {
        Some(StyleField::Italic)
    } else if is_word(name, "Underline") {
        Some(StyleField::Underline)
    } else if is_word(name, "Strikeout") {
        Some(StyleField::Strikeout)
    } else if is_word(name, "BlurEdges") {
        Some(StyleField::BlurEdges)
    } else if is_word(name, "ScaleX") {
        Some(StyleField::ScaleX)
    } else if is_word(name, "ScaleY") {
        Some(StyleField::ScaleY)
    } else if is_word(name, "Spacing") {
        Some(StyleField::Spacing)
    } else if is_word(name, "Angle") {
        Some(StyleField::Angle)
    } else if is_word(name, "BorderStyle") {
        Some(StyleField::BorderStyle)
    } else if is_word(name, "Outline") {
        Some(StyleField::Outline)
    } else if is_word(name, "Shadow") {
        Some(StyleField::Shadow)
    } else if is_word(name, "Alignment") {
        Some(StyleField::Alignment)
    } else if is_word(name, "MarginL") {
        Some(StyleField::MarginL)
    } else if is_word(name, "MarginR") {
        Some(StyleField::MarginR)
    } else if is_word(name, "MarginV") {
        Some(StyleField::MarginV)
    } else {
        None
    }
}

/// A raw value, coerced to its field's kind.
#[derive(Clone, Debug, PartialEq, Eq)]
pub enum FieldValue {
    Text(Vec<u8>),
    Toggle(bool),
    Integer(i32),
    Decimal(Vec<u8>),
}

/// What a [`FieldValue`] holds, as a mathematical value.
pub ghost enum FieldValueView {
    Text(Seq<u8>),
    Toggle(bool),
    Integer(i32),
    Decimal(Seq<u8>),
}

impl View for FieldValue {
    type V = FieldValueView;

    open spec fn view(&self) -> FieldValueView {
        match *self {
            FieldValue::Text(t) => FieldValueView::Text(t@),
            FieldValue::Toggle(on) => FieldValueView::Toggle(on),
            FieldValue::Integer(n) => FieldValueView::Integer(n),
            FieldValue::Decimal(t) => FieldValueView::Decimal(t@),
        }
    }
}

impl FieldValueView {
    /// The text of a text or of a decimal value.
    pub open spec fn text(self) -> Seq<u8> {
        match self {
            FieldValueView::Text(t) => t,
            FieldValueView::Decimal(t) => t,
            _ => Seq::empty(),
        }
    }

    /// Whether a toggle is on.
    pub open spec fn on(self) -> bool {
        self matches FieldValueView::Toggle(on) && on
    }

    /// The number of an integer value.
    pub open spec fn number(self) -> i32 {
        match self {
            FieldValueView::Integer(n) => n,
            _ => 0i32,
        }
    }

    /// Whether this is a value that a field of kind `kind` can hold.
    pub open spec fn fits(self, kind: FieldKind) -> bool {
        match kind {
            FieldKind::Text => self is Text,
            FieldKind::Toggle => self is Toggle,
            FieldKind::Int8 => self matches FieldValueView::Integer(n) && i8::MIN <= n <= i8::MAX,
            FieldKind::Int16 => self matches FieldValueView::Integer(n) && i16::MIN <= n
                <= i16::MAX,
            FieldKind::Int32 => self is Integer,
            FieldKind::Decimal => self matches FieldValueView::Decimal(t) && is_decimal(t),
        }
    }
}

/// The whole number that `raw` writes, where it lies from `min` to `max`.
pub open spec fn integer_field(raw: Seq<u8>, min: int, max: int) -> Result<FieldValueView, Error> {
    match integer_within(raw, min, max) {
        Some(v) => Ok(FieldValueView::Integer(v as i32)),
        None => Err(Error::FieldInvalid),
    }
}

/// The value that `raw` stands for in a field of kind `kind`. Text that is
/// not of the kind is `FieldInvalid`: nothing is put in its place.
pub open spec fn coerced(kind: FieldKind, raw: Seq<u8>) -> Result<FieldValueView, Error> {
    match kind {
        FieldKind::Text => Ok(FieldValueView::Text(raw)),
        FieldKind::Toggle => match tristate_value(raw) {
            Some(on) => Ok(FieldValueView::Toggle(on)),
            None => Err(Error::FieldInvalid),
        },
        FieldKind::Int8 => integer_field(raw, i8::MIN as int, i8::MAX as int),
        FieldKind::Int16 => integer_field(raw, i16::MIN as int, i16::MAX as int),
        FieldKind::Int32 => integer_field(raw, i32::MIN as int, i32::MAX as int),
        FieldKind::Decimal => if is_decimal(raw) {
            Ok(FieldValueView::Decimal(raw))
        } else {
            Err(Error::FieldInvalid)
        },
    }
}

fn coerce_integer(raw: &[u8], min: i32, max: i32) -> (value: Result<FieldValue, Error>)
    ensures
        match value {
            Ok(v) => integer_field(raw@, min as int, max as int) == Ok::<FieldValueView, Error>(v@),
            Err(e) => integer_field(raw@, min as int, max as int) == Err::<FieldValueView, Error>(
                e,
            ),
        },
{
    match parse_integer(raw, min as i64, max as i64) {
        Some(v) => Ok(FieldValue::Integer(v as i32)),
        None => Err(Error::FieldInvalid),
    }
}

/// Coerces the raw value `raw` to the kind `kind`.
pub fn coerce(kind: FieldKind, raw: &[u8]) -> (value: Result<FieldValue, Error>)
    ensures
        match value {
            Ok(v) => coerced(kind, raw@) == Ok::<FieldValueView, Error>(v@),
            Err(e) => coerced(kind, raw@) == Err::<FieldValueView, Error>(e),
        },
{
    match kind {
        FieldKind::Text => Ok(FieldValue::Text(slice_to_vec(raw))),
        FieldKind::Toggle => match parse_tristate(raw) {
            Some(on) => Ok(FieldValue::Toggle(on)),
            None => Err(Error::FieldInvalid),
        },
        FieldKind::Int8 => coerce_integer(raw, i8::MIN as i32, i8::MAX as i32),
        FieldKind::Int16 => coerce_integer(raw, i16::MIN as i32, i16::MAX as i32),
        FieldKind::Int32 => coerce_integer(raw, i32::MIN, i32::MAX),
        FieldKind::Decimal => if check_decimal(raw) {
            Ok(FieldValue::Decimal(slice_to_vec(raw)))
        } else {
            Err(Error::FieldInvalid)
        },
    }
}

/// A style: how the text of the events that name it is drawn.
#[derive(Clone, Debug, PartialEq, Eq)]
pub struct Style {
    /// The style's name, by which events refer to it. Never empty in a
    /// decoded style.
    pub name: Vec<u8>,
    /// The font's name, as written.
    pub font_name: Vec<u8>,
    /// The font's size.
    pub font_size: i8,
    /// The colour of the text: the number as the script writes it.
    pub primary_color: i32,
    /// The colour used for karaoke and when lines collide.
    pub secondary_color: i32,
    /// The colour of the outline; older scripts call it the tertiary
    /// colour.
    pub outline_color: i32,
    /// The colour of the shadow.
    pub back_color: i32,
    /// Bold.
    pub bold: bool,
    /// Italic.
    pub italic: bool,
    /// Underlined.
    pub underline: bool,
    /// Struck out.
    pub strikeout: bool,
    /// Blurred edges.
    pub blur_edges: bool,
    /// Width of the font, in percent.
    pub scale_x: i16,
    /// Height of the font, in percent.
    pub scale_y: i16,
    /// Extra space between characters, in pixels.
    pub spacing: i32,
    /// Rotation in degrees: a number in decimal notation, kept as
    /// written. Empty where the row gave none.
    pub angle: Vec<u8>,
    /// 1 for outline and shadow, 3 for an opaque box.
    pub border_style: i8,
    /// Width of the outline in pixels: a number in decimal notation, kept
    /// as written. Empty where the row gave none.
    pub outline: Vec<u8>,
    /// Depth of the shadow in pixels: a number in decimal notation, kept
    /// as written. Empty where the row gave none.
    pub shadow: Vec<u8>,
    /// Where the text is placed on the screen.
    pub alignment: i8,
    /// Left margin in pixels.
    pub margin_l: i32,
    /// Right margin in pixels.
    pub margin_r: i32,
    /// Vertical margin in pixels.
    pub margin_v: i32,
}

/// What a [`Style`] holds, as a mathematical value.
pub ghost struct StyleView {
    pub name: Seq<u8>,
    pub font_name: Seq<u8>,
    pub font_size: i8,
    pub primary_color: i32,
    pub secondary_color: i32,
    pub outline_color: i32,
    pub back_color: i32,
    pub bold: bool,
    pub italic: bool,
    pub underline: bool,
    pub strikeout: bool,
    pub blur_edges: bool,
    pub scale_x: i16,
    pub scale_y: i16,
    pub spacing: i32,
    pub angle: Seq<u8>,
    pub border_style: i8,
    pub outline: Seq<u8>,
    pub shadow: Seq<u8>,
    pub alignment: i8,
    pub margin_l: i32,
    pub margin_r: i32,
    pub margin_v: i32,
}

impl View for Style {
    type V = StyleView;

    open spec fn view(&self) -> StyleView {
        StyleView {
            name: self.name@,
            font_name: self.font_name@,
            font_size: self.font_size,
            primary_color: self.primary_color,
            secondary_color: self.secondary_color,
            outline_color: self.outline_color,
            back_color: self.back_color,
            bold: self.bold,
            italic: self.italic,
            underline: self.underline,
            strikeout: self.strikeout,
            blur_edges: self.blur_edges,
            scale_x: self.scale_x,
            scale_y: self.scale_y,
            spacing: self.spacing,
            angle: self.angle@,
            border_style: self.border_style,
            outline: self.outline@,
            shadow: self.shadow@,
            alignment: self.alignment,
            margin_l: self.margin_l,
            margin_r: self.margin_r,
            margin_v: self.margin_v,
        }
    }
}

impl StyleView {
    /// The style in which nothing is set: texts empty, numbers 0, toggles
    /// off.
    pub open spec fn blank() -> StyleView {
        StyleView {
            name: Seq::empty(),
            font_name: Seq::empty(),
            font_size: 0i8,
            primary_color: 0i32,
            secondary_color: 0i32,
            outline_color: 0i32,
            back_color: 0i32,
            bold: false,
            italic: false,
            underline: false,
            strikeout: false,
            blur_edges: false,
            scale_x: 0i16,
            scale_y: 0i16,
            spacing: 0i32,
            angle: Seq::empty(),
            border_style: 0i8,
            outline: Seq::empty(),
            shadow: Seq::empty(),
            alignment: 0i8,
            margin_l: 0i32,
            margin_r: 0i32,
            margin_v: 0i32,
        }
    }

    /// This style with `field` set to `value`.
    pub open spec fn with(self, field: StyleField, value: FieldValueView) -> StyleView {
        match field {
            StyleField::Name => StyleView { name: value.text(), ..self },
            StyleField::Fontname => StyleView { font_name: value.text(), ..self },
            StyleField::Fontsize => StyleView { font_size: value.number() as i8, ..self },
            StyleField::PrimaryColour => StyleView { primary_color: value.number(), ..self },
            StyleField::SecondaryColour => StyleView { secondary_color: value.number(), ..self },
            StyleField::OutlineColour => StyleView { outline_color: value.number(), ..self },
            StyleField::TertiaryColour => StyleView { outline_color: value.number(), ..self },
            StyleField::BackColour => StyleView { back_color: value.number(), ..self },
            StyleField::Bold => StyleView { bold: value.on(), ..self },
            StyleField::Italic => StyleView { italic: value.on(), ..self },
            StyleField::Underline => StyleView { underline: value.on(), ..self },
            StyleField::Strikeout => StyleView { strikeout: value.on(), ..self },
            StyleField::BlurEdges => StyleView { blur_edges: value.on(), ..self },
            StyleField::ScaleX => StyleView { scale_x: value.number() as i16, ..self },
            StyleField::ScaleY => StyleView { scale_y: value.number() as i16, ..self },
            StyleField::Spacing => StyleView { spacing: value.number(), ..self },
            StyleField::Angle => StyleView { angle: value.text(), ..self },
            StyleField::BorderStyle => StyleView { border_style: value.number() as i8, ..self },
            StyleField::Outline => StyleView { outline: value.text(), ..self },
            StyleField::Shadow => StyleView { shadow: value.text(), ..self },
            StyleField::Alignment => StyleView { alignment: value.number() as i8, ..self },
            StyleField::MarginL => StyleView { margin_l: value.number(), ..self },
            StyleField::MarginR => StyleView { margin_r: value.number(), ..self },
            StyleField::MarginV => StyleView { margin_v: value.number(), ..self },
        }
    }

    /// Whether the toggle `field` of this style is on.
    pub open spec fn toggle(self, field: StyleField) -> bool {
        match field {
            StyleField::Bold => self.bold,
            StyleField::Italic => self.italic,
            StyleField::Underline => self.underline,
            StyleField::Strikeout => self.strikeout,
            StyleField::BlurEdges => self.blur_edges,
            _ => false,
        }
    }

    /// This style after the field called `name` was given the raw value
    /// `raw`. A name that the parser does not know changes nothing.
    pub open spec fn assigned(self, name: Seq<u8>, raw: Seq<u8>) -> Result<StyleView, Error> {
        match field_named(name) {
            None => Ok(self),
            Some(field) => match coerced(field.kind(), raw) {
                Ok(value) => Ok(self.with(field, value)),
                Err(e) => Err(e),
            },
        }
    }
}

/// The style that the first `n` fields of `record` make, applied in order
/// to a blank one, or the first error among them.
pub open spec fn style_from(record: Seq<(Seq<u8>, Seq<u8>)>, n: int) -> Result<StyleView, Error>
    decreases n,
{
    if n <= 0 {
        Ok(StyleView::blank())
    } else {
        match style_from(record, n - 1) {
            Ok(style) => style.assigned(record[n - 1].0, record[n - 1].1),
            Err(e) => Err(e),
        }
    }
}

/// The style that `record` stands for. A style must have a name: one
/// whose name is empty could not be referred to, and is
/// `StructureInvalid`.
pub open spec fn style_of(record: Seq<(Seq<u8>, Seq<u8>)>) -> Result<StyleView, Error> {
    match style_from(record, record.len() as int) {
        Ok(style) => if style.name.len() == 0 {
            Err(Error::StructureInvalid)
        } else {
            Ok(style)
        },
        Err(e) => Err(e),
    }
}

/// The style that the row `line` stands for under the declaration
/// `names`. The row opens with `Style:`.
pub open spec fn style_row(names: Seq<Seq<u8>>, line: Seq<u8>) -> Result<StyleView, Error> {
    match content_start(line, word("Style:")) {
        None => Err(Error::StructureInvalid),
        Some(start) => match record_of(names, line.skip(start)) {
            Ok(record) => style_of(record),
            Err(e) => Err(e),
        },
    }
}

/// Whether `r` is the outcome `m`, its style taken as a mathematical value.
pub open spec fn style_agrees(r: Result<Style, Error>, m: Result<StyleView, Error>) -> bool {
    match r {
        Ok(style) => m == Ok::<StyleView, Error>(style@),
        Err(e) => m == Err::<StyleView, Error>(e),
    }
}

impl Default for Style {
    /// The style in which nothing is set.
    fn default() -> (style: Style)
        ensures
            style@ == StyleView::blank(),
    {
        Style {
            name: Vec::new(),
            font_name: Vec::new(),
            font_size: 0,
            primary_color: 0,
            secondary_color: 0,
            outline_color: 0,
            back_color: 0,
            bold: false,
            italic: false,
            underline: false,
            strikeout: false,
            blur_edges: false,
            scale_x: 0,
            scale_y: 0,
            spacing: 0,
            angle: Vec::new(),
            border_style: 0,
            outline: Vec::new(),
            shadow: Vec::new(),
            alignment: 0,
            margin_l: 0,
            margin_r: 0,
            margin_v: 0,
        }
    }
}

impl Style {
    /// Sets `field` to `value`.
    fn set(&mut self, field: StyleField, value: FieldValue)
        requires
            value@.fits(field.kind()),
        ensures
            final(self)@ == old(self)@.with(field, value@),
    {
        match value {
            FieldValue::Text(t) => match field {
                StyleField::Name => {
                    self.name = t;
                },
                _ => {
                    self.font_name = t;
                },
            },
            FieldValue::Decimal(t) => match field {
                StyleField::Angle => {
                    self.angle = t;
                },
                StyleField::Outline => {
                    self.outline = t;
                },
                _ => {
                    self.shadow = t;
                },
            },
            FieldValue::Toggle(on) => match field {
                StyleField::Bold => {
                    self.bold = on;
                },
                StyleField::Italic => {
                    self.italic = on;
                },
                StyleField::Underline => {
                    self.underline = on;
                },
                StyleField::Strikeout => {
                    self.strikeout = on;
                },
                _ => {
                    self.blur_edges = on;
                },
            },
            FieldValue::Integer(n) => match field {
                StyleField::Fontsize => {
                    self.font_size = n as i8;
                },
                StyleField::PrimaryColour => {
                    self.primary_color = n;
                },
                StyleField::SecondaryColour => {
                    self.secondary_color = n;
                },
                StyleField::OutlineColour => {
                    self.outline_color = n;
                },
                StyleField::TertiaryColour => {
                    self.outline_color = n;
                },
                StyleField::BackColour => {
                    self.back_color = n;
                },
                StyleField::ScaleX => {
                    self.scale_x = n as i16;
                },
                StyleField::ScaleY => {
                    self.scale_y = n as i16;
                },
                StyleField::Spacing => {
                    self.spacing = n;
                },
                StyleField::BorderStyle => {
                    self.border_style = n as i8;
                },
                StyleField::Alignment => {
                    self.alignment = n as i8;
                },
                StyleField::MarginL => {
                    self.margin_l = n;
                },
                StyleField::MarginR => {
                    self.margin_r = n;
                },
                _ => {
                    self.margin_v = n;
                },
            },
        }
    }

    /// Gives the field called `name` the raw value `raw`. A name that the
    /// parser does not know changes nothing; a value that its field cannot
    /// take is `FieldInvalid` and changes nothing either.
    pub fn assign(&mut self, name: &[u8], raw: &[u8]) -> (r: Result<(), Error>)
        ensures
            match r {
                Ok(_) => old(self)@.assigned(name@, raw@) == Ok::<StyleView, Error>(final(self)@),
                Err(e) => old(self)@.assigned(name@, raw@) == Err::<StyleView, Error>(e)
                    && final(self)@ == old(self)@,
            },
    {
        match lookup_field(name) {
            None => Ok(()),
            Some(field) => match coerce(field.value_kind(), raw) {
                Ok(value) => {
                    self.set(field, value);
                    Ok(())
                },
                Err(e) => Err(e),
            },
        }
    }
}

/// Decodes the record of one style row into a style.
///
/// The fields are taken in order, and the first that cannot be coerced
/// decides the error. A record that leaves the name empty is
/// `StructureInvalid`.
pub fn decode_style(record: &Vec<(Vec<u8>, Vec<u8>)>) -> (style: Result<Style, Error>)
    ensures
        style_agrees(style, style_of(pairs(record@))),
{
    let mut style = Style::default();
    let n = record.len();
    let mut k: usize = 0;
    while k < n
        invariant
            k <= n,
            n == record@.len(),
            style_from(pairs(record@), k as int) == Ok::<StyleView, Error>(style@),
        decreases n - k,
    {
        let field = &record[k];
        match style.assign(field.0.as_slice(), field.1.as_slice()) {
            Ok(_) => {},
            Err(e) => {
                proof {
                    lemma_style_error_stays(pairs(record@), k + 1, n as int);
                }
                return Err(e);
            },
        }
        k = k + 1;
    }
    if style.name.len() == 0 {
        Err(Error::StructureInvalid)
    } else {
        Ok(style)
    }
}

/// Once a field of a record has failed, the fields after it change
/// nothing: the error stays.
pub proof fn lemma_style_error_stays(record: Seq<(Seq<u8>, Seq<u8>)>, k: int, n: int)
    requires
        0 <= k <= n,
        style_from(record, k) is Err,
    ensures
        style_from(record, n) == style_from(record, k),
    decreases n - k,
{
    if k < n {
        lemma_style_error_stays(record, k, n - 1);
    }
}

/// Parses one `Style:` row under the declaration `format`.
///
/// A row that does not open with `Style:`, that has fewer values than
/// the declaration has names, or that leaves the name empty is
/// `StructureInvalid`; a value that its field cannot take is
/// `FieldInvalid`.
pub fn parse_style(format: &FormatTable, r: &[u8]) -> (style: Result<Style, Error>)
    ensures
        style_agrees(style, style_row(format@, r@)),
{
    let start = match strip_keyword(r, "Style:") {
        Some(start) => start,
        None => {
            return Err(Error::StructureInvalid);
        },
    };
    let mut c = Cursor::new(r);
    c.seek(start);
    let row = c.rest();
    assert(row@ =~= r@.skip(start as int));
    match format.apply(row) {
        Ok(record) => decode_style(&record),
        Err(e) => Err(e),
    }
}

/// What tells the names of the fields apart: the length of each, its
/// first and its last byte, and one byte more where two names still agree.
pub proof fn lemma_field_name_marks()
    ensures
        word("Name").len() == 4 && word("Name")[0] == 'N' as u8 && word("Name")[3] == 'e' as u8,
        word("Fontname").len() == 8 && word("Fontname")[0] == 'F' as u8 && word("Fontname")[7] == 'e' as u8 && word("Fontname")[4] == 'n' as u8,
        word("Fontsize").len() == 8 && word("Fontsize")[0] == 'F' as u8 && word("Fontsize")[7] == 'e' as u8 && word("Fontsize")[4] == 's' as u8,
        word("PrimaryColour").len() == 13 && word("PrimaryColour")[0] == 'P' as u8 && word("PrimaryColour")[12] == 'r' as u8,
        word("SecondaryColour").len() == 15 && word("SecondaryColour")[0] == 'S' as u8 && word("SecondaryColour")[14] == 'r' as u8,
        word("OutlineColour").len() == 13 && word("OutlineColour")[0] == 'O' as u8 && word("OutlineColour")[12] == 'r' as u8,
        word("TertiaryColour").len() == 14 && word("TertiaryColour")[0] == 'T' as u8 && word("TertiaryColour")[13] == 'r' as u8,
        word("BackColour").len() == 10 && word("BackColour")[0] == 'B' as u8 && word("BackColour")[9] == 'r' as u8,
        word("Bold").len() == 4 && word("Bold")[0] == 'B' as u8 && word("Bold")[3] == 'd' as u8,
        word("Italic").len() == 6 && word("Italic")[0] == 'I' as u8 && word("Italic")[5] == 'c' as u8,
        word("Underline").len() == 9 && word("Underline")[0] == 'U' as u8 && word("Underline")[8] == 'e' as u8,
        word("Strikeout").len() == 9 && word("Strikeout")[0] == 'S' as u8 && word("Strikeout")[8] == 't' as u8,
        word("BlurEdges").len() == 9 && word("BlurEdges")[0] == 'B' as u8 && word("BlurEdges")[8] == 's' as u8,
        word("ScaleX").len() == 6 && word("ScaleX")[0] == 'S' as u8 && word("ScaleX")[5] == 'X' as u8,
        word("ScaleY").len() == 6 && word("ScaleY")[0] == 'S' as u8 && word("ScaleY")[5] == 'Y' as u8,
        word("Spacing").len() == 7 && word("Spacing")[0] == 'S' as u8 && word("Spacing")[6] == 'g' as u8,
        word("Angle").len() == 5 && word("Angle")[0] == 'A' as u8 && word("Angle")[4] == 'e' as u8,
        word("BorderStyle").len() == 11 && word("BorderStyle")[0] == 'B' as u8 && word("BorderStyle")[10] == 'e' as u8,
        word("Outline").len() == 7 && word("Outline")[0] == 'O' as u8 && word("Outline")[6] == 'e' as u8,
        word("Shadow").len() == 6 && word("Shadow")[0] == 'S' as u8 && word("Shadow")[5] == 'w' as u8,
        word("Alignment").len() == 9 && word("Alignment")[0] == 'A' as u8 && word("Alignment")[8] == 't' as u8,
        word("MarginL").len() == 7 && word("MarginL")[0] == 'M' as u8 && word("MarginL")[6] == 'L' as u8,
        word("MarginR").len() == 7 && word("MarginR")[0] == 'M' as u8 && word("MarginR")[6] == 'R' as u8,
        word("MarginV").len() == 7 && word("MarginV")[0] == 'M' as u8 && word("MarginV")[6] == 'V' as u8,
{
    assert(word("Name").len() == 4 && word("Name")[0] == 'N' as u8 && word("Name")[3] == 'e' as u8) by {
        reveal_strlit("Name");
        assert(is_ascii("Name"));
        lemma_word_bytes("Name");
    }
    assert(word("Fontname").len() == 8 && word("Fontname")[0] == 'F' as u8 && word("Fontname")[7] == 'e' as u8 && word("Fontname")[4] == 'n' as u8) by {
        reveal_strlit("Fontname");
        assert(is_ascii("Fontname"));
        lemma_word_bytes("Fontname");
    }
    assert(word("Fontsize").len() == 8 && word("Fontsize")[0] == 'F' as u8 && word("Fontsize")[7] == 'e' as u8 && word("Fontsize")[4] == 's' as u8) by {
        reveal_strlit("Fontsize");
        assert(is_ascii("Fontsize"));
        lemma_word_bytes("Fontsize");
    }
    assert(word("PrimaryColour").len() == 13 && word("PrimaryColour")[0] == 'P' as u8 && word("PrimaryColour")[12] == 'r' as u8) by {
        reveal_strlit("PrimaryColour");
        assert(is_ascii("PrimaryColour"));
        lemma_word_bytes("PrimaryColour");
    }
    assert(word("SecondaryColour").len() == 15 && word("SecondaryColour")[0] == 'S' as u8 && word("SecondaryColour")[14] == 'r' as u8) by {
        reveal_strlit("SecondaryColour");
        assert(is_ascii("SecondaryColour"));
        lemma_word_bytes("SecondaryColour");
    }
    assert(word("OutlineColour").len() == 13 && word("OutlineColour")[0] == 'O' as u8 && word("OutlineColour")[12] == 'r' as u8) by {
        reveal_strlit("OutlineColour");
        assert(is_ascii("OutlineColour"));
        lemma_word_bytes("OutlineColour");
    }
    assert(word("TertiaryColour").len() == 14 && word("TertiaryColour")[0] == 'T' as u8 && word("TertiaryColour")[13] == 'r' as u8) by {
        reveal_strlit("TertiaryColour");
        assert(is_ascii("TertiaryColour"));
        lemma_word_bytes("TertiaryColour");
    }
    assert(word("BackColour").len() == 10 && word("BackColour")[0] == 'B' as u8 && word("BackColour")[9] == 'r' as u8) by {
        reveal_strlit("BackColour");
        assert(is_ascii("BackColour"));
        lemma_word_bytes("BackColour");
    }
    assert(word("Bold").len() == 4 && word("Bold")[0] == 'B' as u8 && word("Bold")[3] == 'd' as u8) by {
        reveal_strlit("Bold");
        assert(is_ascii("Bold"));
        lemma_word_bytes("Bold");
    }
    assert(word("Italic").len() == 6 && word("Italic")[0] == 'I' as u8 && word("Italic")[5] == 'c' as u8) by {
        reveal_strlit("Italic");
        assert(is_ascii("Italic"));
        lemma_word_bytes("Italic");
    }
    assert(word("Underline").len() == 9 && word("Underline")[0] == 'U' as u8 && word("Underline")[8] == 'e' as u8) by {
        reveal_strlit("Underline");
        assert(is_ascii("Underline"));
        lemma_word_bytes("Underline");
    }
    assert(word("Strikeout").len() == 9 && word("Strikeout")[0] == 'S' as u8 && word("Strikeout")[8] == 't' as u8) by {
        reveal_strlit("Strikeout");
        assert(is_ascii("Strikeout"));
        lemma_word_bytes("Strikeout");
    }
    assert(word("BlurEdges").len() == 9 && word("BlurEdges")[0] == 'B' as u8 && word("BlurEdges")[8] == 's' as u8) by {
        reveal_strlit("BlurEdges");
        assert(is_ascii("BlurEdges"));
        lemma_word_bytes("BlurEdges");
    }
    assert(word("ScaleX").len() == 6 && word("ScaleX")[0] == 'S' as u8 && word("ScaleX")[5] == 'X' as u8) by {
        reveal_strlit("ScaleX");
        assert(is_ascii("ScaleX"));
        lemma_word_bytes("ScaleX");
    }
    assert(word("ScaleY").len() == 6 && word("ScaleY")[0] == 'S' as u8 && word("ScaleY")[5] == 'Y' as u8) by {
        reveal_strlit("ScaleY");
        assert(is_ascii("ScaleY"));
        lemma_word_bytes("ScaleY");
    }
    assert(word("Spacing").len() == 7 && word("Spacing")[0] == 'S' as u8 && word("Spacing")[6] == 'g' as u8) by {
        reveal_strlit("Spacing");
        assert(is_ascii("Spacing"));
        lemma_word_bytes("Spacing");
    }
    assert(word("Angle").len() == 5 && word("Angle")[0] == 'A' as u8 && word("Angle")[4] == 'e' as u8) by {
        reveal_strlit("Angle");
        assert(is_ascii("Angle"));
        lemma_word_bytes("Angle");
    }
    assert(word("BorderStyle").len() == 11 && word("BorderStyle")[0] == 'B' as u8 && word("BorderStyle")[10] == 'e' as u8) by {
        reveal_strlit("BorderStyle");
        assert(is_ascii("BorderStyle"));
        lemma_word_bytes("BorderStyle");
    }
    assert(word("Outline").len() == 7 && word("Outline")[0] == 'O' as u8 && word("Outline")[6] == 'e' as u8) by {
        reveal_strlit("Outline");
        assert(is_ascii("Outline"));
        lemma_word_bytes("Outline");
    }
    assert(word("Shadow").len() == 6 && word("Shadow")[0] == 'S' as u8 && word("Shadow")[5] == 'w' as u8) by {
        reveal_strlit("Shadow");
        assert(is_ascii("Shadow"));
        lemma_word_bytes("Shadow");
    }
    assert(word("Alignment").len() == 9 && word("Alignment")[0] == 'A' as u8 && word("Alignment")[8] == 't' as u8) by {
        reveal_strlit("Alignment");
        assert(is_ascii("Alignment"));
        lemma_word_bytes("Alignment");
    }
    assert(word("MarginL").len() == 7 && word("MarginL")[0] == 'M' as u8 && word("MarginL")[6] == 'L' as u8) by {
        reveal_strlit("MarginL");
        assert(is_ascii("MarginL"));
        lemma_word_bytes("MarginL");
    }
    assert(word("MarginR").len() == 7 && word("MarginR")[0] == 'M' as u8 && word("MarginR")[6] == 'R' as u8) by {
        reveal_strlit("MarginR");
        assert(is_ascii("MarginR"));
        lemma_word_bytes("MarginR");
    }
    assert(word("MarginV").len() == 7 && word("MarginV")[0] == 'M' as u8 && word("MarginV")[6] == 'V' as u8) by {
        reveal_strlit("MarginV");
        assert(is_ascii("MarginV"));
        lemma_word_bytes("MarginV");
    }
}

/// Every field is found under its own name: no two fields share one.
pub proof fn lemma_field_has_its_name(field: StyleField)
    ensures
        field_named(field.name()) == Some(field),
{
    lemma_field_name_marks();
}

/// The tri-state rule, for every field that is a toggle: `-1` turns it
/// on, `0` turns it off and leaves the rest of the style as it was, and
/// any other text is `FieldInvalid`.
pub proof fn lemma_toggle_is_tristate(style: StyleView, field: StyleField, raw: Seq<u8>)
    requires
        field.kind() == FieldKind::Toggle,
    ensures
        raw == seq!['-' as u8, '1' as u8] ==> style.assigned(field.name(), raw) == Ok::<
            StyleView,
            Error,
        >(style.with(field, FieldValueView::Toggle(true))) && style.with(
            field,
            FieldValueView::Toggle(true),
        ).toggle(field),
        raw == seq!['0' as u8] ==> style.assigned(field.name(), raw) == Ok::<StyleView, Error>(
            style.with(field, FieldValueView::Toggle(false)),
        ) && !style.with(field, FieldValueView::Toggle(false)).toggle(field),
        raw != seq!['-' as u8, '1' as u8] && raw != seq!['0' as u8] ==> style.assigned(
            field.name(),
            raw,
        ) == Err::<StyleView, Error>(Error::FieldInvalid),
{
    lemma_field_has_its_name(field);
    assert(seq!['-' as u8, '1' as u8].len() == 2);
    assert(seq!['0' as u8].len() == 1);
}

} // verus!
