//! Pictures: a list of drawing commands, each an opcode byte of 0xF0 or more
//! followed by its arguments, ended by 0xFF.

use vstd::prelude::*;

pub mod decode;
pub mod encode;
pub mod render;
pub mod render_steps;
pub mod round_trip;

verus! {

#[derive(Debug, Clone, Copy, PartialEq, Eq, Structural)]
pub struct PictureCoordinate {
    pub x: u8,
    pub y: u8,
}

#[derive(Debug, Clone, Copy, PartialEq, Eq, Structural)]
pub enum PictureCornerStepAxis {
    X,
    Y,
}

impl PictureCornerStepAxis {
    /// The other axis.
    pub open spec fn flipped(self) -> PictureCornerStepAxis {
        match self {
            PictureCornerStepAxis::X => PictureCornerStepAxis::Y,
            PictureCornerStepAxis::Y => PictureCornerStepAxis::X,
        }
    }

    pub fn flip(self) -> (r: PictureCornerStepAxis)
        ensures
            r == self.flipped(),
    {
        match self {
            PictureCornerStepAxis::X => PictureCornerStepAxis::Y,
            PictureCornerStepAxis::Y => PictureCornerStepAxis::X,
        }
    }
}

/// One step of a corner line: a new position along the given axis.
#[derive(Debug, Clone, Copy, PartialEq, Eq, Structural)]
pub struct PictureCornerStep {
    pub axis: PictureCornerStepAxis,
    pub position: u8,
}

#[derive(Debug, Clone, Copy, PartialEq, Eq, Structural)]
pub struct PictureRelativeLineDisplacement {
    pub x_displacement: u8,
    pub y_displacement: u8,
}

/// The shape of the pen: bit 4 of the pen settings, clear for a circle.
#[derive(Debug, Clone, Copy, PartialEq, Eq, Structural)]
pub enum PicturePenShape {
    Rectangle,
    Circle,
}

impl PicturePenShape {
    pub open spec fn bit(self) -> u8 {
        match self {
            PicturePenShape::Rectangle => 1,
            PicturePenShape::Circle => 0,
        }
    }

    pub fn into_bits(self) -> (r: u8)
        ensures
            r == self.bit(),
    {
        match self {
            PicturePenShape::Rectangle => 1,
            PicturePenShape::Circle => 0,
        }
    }

    /// Zero is a circle; anything else a rectangle.
    pub fn from_bits(value: u8) -> (r: PicturePenShape)
        ensures
            r == (if value == 0 {
                PicturePenShape::Circle
            } else {
                PicturePenShape::Rectangle
            }),
    {
        if value == 0 {
            PicturePenShape::Circle
        } else {
            PicturePenShape::Rectangle
        }
    }
}

/// The pen settings byte: size in bits 0 to 2, shape in bit 4, splatter in
/// bit 5. The other bits are kept as they came.
#[derive(Debug, Clone, Copy, PartialEq, Eq, Structural)]
pub struct PicturePenSettings {
    bits: u8,
}

impl PicturePenSettings {
    /// The byte that holds the settings.
    pub closed spec fn raw(self) -> u8 {
        self.bits
    }

    /// The settings that a byte holds.
    pub closed spec fn of_raw(b: u8) -> PicturePenSettings {
        PicturePenSettings { bits: b }
    }

    /// Settings and their byte determine each other.
    pub broadcast proof fn lemma_raw(b: u8, s: PicturePenSettings)
        ensures
            #[trigger] Self::of_raw(b).raw() == b,
            Self::of_raw(#[trigger] s.raw()) == s,
    {
    }

    pub open spec fn size_of(self) -> u8 {
        (self.raw() % 8) as u8
    }

    pub open spec fn shape_of(self) -> PicturePenShape {
        if (self.raw() / 16) % 2 == 0 {
            PicturePenShape::Circle
        } else {
            PicturePenShape::Rectangle
        }
    }

    pub open spec fn splatter_of(self) -> bool {
        (self.raw() / 32) % 2 == 1
    }

    /// All settings clear: a size 0 circle without splatter.
    pub fn new() -> (r: PicturePenSettings)
        ensures
            r.raw() == 0,
    {
        PicturePenSettings { bits: 0 }
    }

    pub fn from_bits(bits: u8) -> (r: PicturePenSettings)
        ensures
            r.raw() == bits,
            r == Self::of_raw(bits),
    {
        PicturePenSettings { bits }
    }

    pub fn into_bits(self) -> (r: u8)
        ensures
            r == self.raw(),
    {
        self.bits
    }

    pub fn size(&self) -> (r: u8)
        ensures
            r == self.size_of(),
    {
        self.bits % 8
    }

    pub fn shape(&self) -> (r: PicturePenShape)
        ensures
            r == self.shape_of(),
    {
        if (self.bits / 16) % 2 == 0 {
            PicturePenShape::Circle
        } else {
            PicturePenShape::Rectangle
        }
    }

    pub fn splatter(&self) -> (r: bool)
        ensures
            r == self.splatter_of(),
    {
        (self.bits / 32) % 2 == 1
    }

    /// The same settings with another size, which must fit in three bits.
    pub fn with_size(self, size: u8) -> (r: PicturePenSettings)
        requires
            size < 8,
        ensures
            r.raw() == self.raw() - self.size_of() + size,
            r.size_of() == size,
            r.shape_of() == self.shape_of(),
            r.splatter_of() == self.splatter_of(),
    {
        PicturePenSettings { bits: self.bits - self.bits % 8 + size }
    }

    /// The same settings with another shape.
    pub fn with_shape(self, shape: PicturePenShape) -> (r: PicturePenSettings)
        ensures
            r.raw() == self.raw() - ((self.raw() / 16) % 2) * 16 + shape.bit() * 16,
            r.size_of() == self.size_of(),
            r.shape_of() == shape,
            r.splatter_of() == self.splatter_of(),
    {
        let b = self.bits;
        proof {
            lemma_flip_bit4(b);
        }
        let cleared: u8 = if (b / 16) % 2 == 1 {
            b - 16
        } else {
            b
        };
        let bits: u8 = match shape {
            PicturePenShape::Rectangle => cleared + 16,
            PicturePenShape::Circle => cleared,
        };
        PicturePenSettings { bits }
    }

    /// The same settings with splatter on or off.
    pub fn with_splatter(self, splatter: bool) -> (r: PicturePenSettings)
        ensures
            r.raw() == self.raw() - ((self.raw() / 32) % 2) * 32 + (if splatter {
                32int
            } else {
                0int
            }),
            r.size_of() == self.size_of(),
            r.shape_of() == self.shape_of(),
            r.splatter_of() == splatter,
    {
        let b = self.bits;
        proof {
            lemma_flip_bit5(b);
        }
        let cleared: u8 = if (b / 32) % 2 == 1 {
            b - 32
        } else {
            b
        };
        let bits: u8 = if splatter {
            cleared + 32
        } else {
            cleared
        };
        PicturePenSettings { bits }
    }
}

/// Clearing or setting bit 4 of a byte leaves its other bits alone.
proof fn lemma_flip_bit4(b: u8)
    ensures
        (b / 16) % 2 == 1 ==> b >= 16 && (b - 16) % 8 == b % 8 && ((b - 16) / 16) % 2 == 0 && ((b
            - 16) / 32) % 2 == (b / 32) % 2,
        (b / 16) % 2 == 0 ==> b <= 239 && (b + 16) % 8 == b % 8 && ((b + 16) / 16) % 2 == 1 && ((b
            + 16) / 32) % 2 == (b / 32) % 2,
{
    assert((b / 16) % 2 == 1 ==> b >= 16 && (b - 16) % 8 == b % 8 && ((b - 16) / 16) % 2 == 0 && ((b
        - 16) / 32) % 2 == (b / 32) % 2) by (bit_vector);
    assert((b / 16) % 2 == 0 ==> b <= 239 && (b + 16) % 8 == b % 8 && ((b + 16) / 16) % 2 == 1 && ((b
        + 16) / 32) % 2 == (b / 32) % 2) by (bit_vector);
}

/// Clearing or setting bit 5 of a byte leaves its other bits alone.
proof fn lemma_flip_bit5(b: u8)
    ensures
        (b / 32) % 2 == 1 ==> b >= 32 && (b - 32) % 8 == b % 8 && ((b - 32) / 16) % 2 == (b / 16) % 2
            && ((b - 32) / 32) % 2 == 0,
        (b / 32) % 2 == 0 ==> b <= 223 && (b + 32) % 8 == b % 8 && ((b + 32) / 16) % 2 == (b / 16) % 2
            && ((b + 32) / 32) % 2 == 1,
{
    assert((b / 32) % 2 == 1 ==> b >= 32 && (b - 32) % 8 == b % 8 && ((b - 32) / 16) % 2 == (b / 16)
        % 2 && ((b - 32) / 32) % 2 == 0) by (bit_vector);
    assert((b / 32) % 2 == 0 ==> b <= 223 && (b + 32) % 8 == b % 8 && ((b + 32) / 16) % 2 == (b / 16)
        % 2 && ((b + 32) / 32) % 2 == 1) by (bit_vector);
}

/// One point plotted with the pen, with the splatter texture when splatter is on.
#[derive(Debug, Clone, Copy, PartialEq, Eq, Structural)]
pub struct PicturePenPlotPoint {
    pub position: PictureCoordinate,
    pub texture: Option<u8>,
}

#[derive(Debug, Clone, Copy, PartialEq, Eq, Structural)]
pub enum PictureCommandOpcode {
    SetPictureColor,
    DisablePictureDraw,
    SetPriorityColor,
    DisablePriorityDraw,
    DrawYCorner,
    DrawXCorner,
    AbsoluteLine,
    RelativeLine,
    Fill,
    ChangePen,
    PlotWithPen,
    End,
}

/// The byte of each opcode.
pub open spec fn opcode_byte(op: PictureCommandOpcode) -> u8 {
    match op {
        PictureCommandOpcode::SetPictureColor => 0xf0,
        PictureCommandOpcode::DisablePictureDraw => 0xf1,
        PictureCommandOpcode::SetPriorityColor => 0xf2,
        PictureCommandOpcode::DisablePriorityDraw => 0xf3,
        PictureCommandOpcode::DrawYCorner => 0xf4,
        PictureCommandOpcode::DrawXCorner => 0xf5,
        PictureCommandOpcode::AbsoluteLine => 0xf6,
        PictureCommandOpcode::RelativeLine => 0xf7,
        PictureCommandOpcode::Fill => 0xf8,
        PictureCommandOpcode::ChangePen => 0xf9,
        PictureCommandOpcode::PlotWithPen => 0xfa,
        PictureCommandOpcode::End => 0xff,
    }
}

/// The opcode that a byte names, if any: 0xF0 to 0xFA, and 0xFF.
pub open spec fn opcode_of_byte(b: u8) -> Option<PictureCommandOpcode> {
    if b == 0xf0 {
        Some(PictureCommandOpcode::SetPictureColor)
    } else if b == 0xf1 {
        Some(PictureCommandOpcode::DisablePictureDraw)
    } else if b == 0xf2 {
        Some(PictureCommandOpcode::SetPriorityColor)
    } else if b == 0xf3 {
        Some(PictureCommandOpcode::DisablePriorityDraw)
    } else if b == 0xf4 {
        Some(PictureCommandOpcode::DrawYCorner)
    } else if b == 0xf5 {
        Some(PictureCommandOpcode::DrawXCorner)
    } else if b == 0xf6 {
        Some(PictureCommandOpcode::AbsoluteLine)
    } else if b == 0xf7 {
        Some(PictureCommandOpcode::RelativeLine)
    } else if b == 0xf8 {
        Some(PictureCommandOpcode::Fill)
    } else if b == 0xf9 {
        Some(PictureCommandOpcode::ChangePen)
    } else if b == 0xfa {
        Some(PictureCommandOpcode::PlotWithPen)
    } else if b == 0xff {
        Some(PictureCommandOpcode::End)
    } else {
        None
    }
}

impl PictureCommandOpcode {
    pub fn into_u8(self) -> (r: u8)
        ensures
            r == opcode_byte(self),
    {
        match self {
            PictureCommandOpcode::SetPictureColor => 0xf0,
            PictureCommandOpcode::DisablePictureDraw => 0xf1,
            PictureCommandOpcode::SetPriorityColor => 0xf2,
            PictureCommandOpcode::DisablePriorityDraw => 0xf3,
            PictureCommandOpcode::DrawYCorner => 0xf4,
            PictureCommandOpcode::DrawXCorner => 0xf5,
            PictureCommandOpcode::AbsoluteLine => 0xf6,
            PictureCommandOpcode::RelativeLine => 0xf7,
            PictureCommandOpcode::Fill => 0xf8,
            PictureCommandOpcode::ChangePen => 0xf9,
            PictureCommandOpcode::PlotWithPen => 0xfa,
            PictureCommandOpcode::End => 0xff,
        }
    }

    pub fn try_from_u8(b: u8) -> (r: Option<PictureCommandOpcode>)
        ensures
            r == opcode_of_byte(b),
    {
        if b == 0xf0 {
            Some(PictureCommandOpcode::SetPictureColor)
        } else if b == 0xf1 {
            Some(PictureCommandOpcode::DisablePictureDraw)
        } else if b == 0xf2 {
            Some(PictureCommandOpcode::SetPriorityColor)
        } else if b == 0xf3 {
            Some(PictureCommandOpcode::DisablePriorityDraw)
        } else if b == 0xf4 {
            Some(PictureCommandOpcode::DrawYCorner)
        } else if b == 0xf5 {
            Some(PictureCommandOpcode::DrawXCorner)
        } else if b == 0xf6 {
            Some(PictureCommandOpcode::AbsoluteLine)
        } else if b == 0xf7 {
            Some(PictureCommandOpcode::RelativeLine)
        } else if b == 0xf8 {
            Some(PictureCommandOpcode::Fill)
        } else if b == 0xf9 {
            Some(PictureCommandOpcode::ChangePen)
        } else if b == 0xfa {
            Some(PictureCommandOpcode::PlotWithPen)
        } else if b == 0xff {
            Some(PictureCommandOpcode::End)
        } else {
            None
        }
    }
}

/// Every opcode's byte names it again.
pub proof fn lemma_opcode_byte_round_trip(op: PictureCommandOpcode)
    ensures
        opcode_of_byte(opcode_byte(op)) == Some(op),
        opcode_byte(op) >= 0xf0,
{
}

/// A displacement of -7 to 7 in four bits: the magnitude in bits 0 to 2 and
/// the sign in bit 3. The other bits are kept as they came.
#[derive(Debug, Clone, Copy, PartialEq, Eq, Structural)]
pub struct SignedDisplacementValue {
    bits: u8,
}

impl SignedDisplacementValue {
    pub closed spec fn raw(self) -> u8 {
        self.bits
    }

    pub open spec fn value_of(self) -> int {
        if (self.raw() / 8) % 2 == 1 {
            -((self.raw() % 8) as int)
        } else {
            (self.raw() % 8) as int
        }
    }

    pub fn from_bits(bits: u8) -> (r: SignedDisplacementValue)
        ensures
            r.raw() == bits,
    {
        SignedDisplacementValue { bits }
    }

    pub fn into_bits(self) -> (r: u8)
        ensures
            r == self.raw(),
    {
        self.bits
    }

    /// The four-bit form of a displacement of at most 7 either way.
    pub fn from_value(value: i8) -> (r: SignedDisplacementValue)
        requires
            -7 <= value <= 7,
        ensures
            r.value_of() == value,
            r.raw() == (if value < 0 {
                8 - value
            } else {
                value as int
            }),
    {
        if value < 0 {
            SignedDisplacementValue { bits: (8 - value) as u8 }
        } else {
            SignedDisplacementValue { bits: value as u8 }
        }
    }

    pub fn value(&self) -> (r: i8)
        ensures
            r == self.value_of(),
    {
        let magnitude = (self.bits % 8) as i8;
        if (self.bits / 8) % 2 == 1 {
            -magnitude
        } else {
            magnitude
        }
    }
}

/// A relative line step in one byte: the y displacement in the low four bits
/// and the x displacement in the high four.
#[derive(Debug, Clone, Copy, PartialEq, Eq, Structural)]
pub struct RelativeLinePoint {
    bits: u8,
}

impl RelativeLinePoint {
    pub closed spec fn raw(self) -> u8 {
        self.bits
    }

    /// The step that a byte holds.
    pub closed spec fn of_raw(b: u8) -> RelativeLinePoint {
        RelativeLinePoint { bits: b }
    }

    /// Steps and their byte determine each other.
    pub broadcast proof fn lemma_raw(b: u8, p: RelativeLinePoint)
        ensures
            #[trigger] Self::of_raw(b).raw() == b,
            Self::of_raw(#[trigger] p.raw()) == p,
    {
    }

    pub fn new() -> (r: RelativeLinePoint)
        ensures
            r.raw() == 0,
    {
        RelativeLinePoint { bits: 0 }
    }

    pub fn from_bits(bits: u8) -> (r: RelativeLinePoint)
        ensures
            r.raw() == bits,
            r == Self::of_raw(bits),
    {
        RelativeLinePoint { bits }
    }

    pub fn into_bits(self) -> (r: u8)
        ensures
            r == self.raw(),
    {
        self.bits
    }

    pub fn x_displacement(&self) -> (r: SignedDisplacementValue)
        ensures
            r.raw() == self.raw() / 16,
    {
        SignedDisplacementValue::from_bits(self.bits / 16)
    }

    pub fn y_displacement(&self) -> (r: SignedDisplacementValue)
        ensures
            r.raw() == self.raw() % 16,
    {
        SignedDisplacementValue::from_bits(self.bits % 16)
    }

    /// The same step with another x displacement (its low four bits).
    pub fn with_x_displacement(self, x: SignedDisplacementValue) -> (r: RelativeLinePoint)
        requires
            x.raw() < 16,
        ensures
            r.raw() == x.raw() * 16 + self.raw() % 16,
    {
        RelativeLinePoint { bits: x.into_bits() * 16 + self.bits % 16 }
    }

    /// The same step with another y displacement (its low four bits).
    pub fn with_y_displacement(self, y: SignedDisplacementValue) -> (r: RelativeLinePoint)
        requires
            y.raw() < 16,
        ensures
            r.raw() == (self.raw() / 16) * 16 + y.raw(),
    {
        RelativeLinePoint { bits: (self.bits / 16) * 16 + y.into_bits() }
    }
}

#[derive(Debug, Clone, Copy, PartialEq, Eq, Structural)]
pub struct SetPictureColorPictureCommand {
    pub color_number: u8,
}

#[derive(Debug, Clone, Copy, PartialEq, Eq, Structural)]
pub struct DisablePictureDrawPictureCommand;

#[derive(Debug, Clone, Copy, PartialEq, Eq, Structural)]
pub struct SetPriorityColorPictureCommand {
    pub color_number: u8,
}

#[derive(Debug, Clone, Copy, PartialEq, Eq, Structural)]
pub struct DisablePriorityDrawPictureCommand;

#[derive(Debug, Clone)]
pub struct DrawYCornerPictureCommand {
    pub start_position: PictureCoordinate,
    pub steps: Vec<PictureCornerStep>,
}

#[derive(Debug, Clone)]
pub struct DrawXCornerPictureCommand {
    pub start_position: PictureCoordinate,
    pub steps: Vec<PictureCornerStep>,
}

#[derive(Debug, Clone)]
pub struct AbsoluteLinePictureCommand {
    pub points: Vec<PictureCoordinate>,
}

#[derive(Debug, Clone)]
pub struct RelativeLinePictureCommand {
    pub start_position: PictureCoordinate,
    pub relative_points: Vec<RelativeLinePoint>,
}

#[derive(Debug, Clone)]
pub struct FillPictureCommand {
    pub start_positions: Vec<PictureCoordinate>,
}

#[derive(Debug, Clone, Copy, PartialEq, Eq, Structural)]
pub struct ChangePenPictureCommand {
    pub settings: PicturePenSettings,
}

#[derive(Debug, Clone)]
pub struct PlotWithPenPictureCommand {
    pub points: Vec<PicturePenPlotPoint>,
}

#[derive(Debug, Clone, Copy, PartialEq, Eq, Structural)]
pub struct EndPictureCommand;

impl SetPictureColorPictureCommand {
    pub fn opcode(&self) -> (r: PictureCommandOpcode)
        ensures
            r == PictureCommandOpcode::SetPictureColor,
    {
        PictureCommandOpcode::SetPictureColor
    }
}

impl DisablePictureDrawPictureCommand {
    pub fn opcode(&self) -> (r: PictureCommandOpcode)
        ensures
            r == PictureCommandOpcode::DisablePictureDraw,
    {
        PictureCommandOpcode::DisablePictureDraw
    }
}

impl SetPriorityColorPictureCommand {
    pub fn opcode(&self) -> (r: PictureCommandOpcode)
        ensures
            r == PictureCommandOpcode::SetPriorityColor,
    {
        PictureCommandOpcode::SetPriorityColor
    }
}

impl DisablePriorityDrawPictureCommand {
    pub fn opcode(&self) -> (r: PictureCommandOpcode)
        ensures
            r == PictureCommandOpcode::DisablePriorityDraw,
    {
        PictureCommandOpcode::DisablePriorityDraw
    }
}

impl DrawYCornerPictureCommand {
    pub fn opcode(&self) -> (r: PictureCommandOpcode)
        ensures
            r == PictureCommandOpcode::DrawYCorner,
    {
        PictureCommandOpcode::DrawYCorner
    }
}

impl DrawXCornerPictureCommand {
    pub fn opcode(&self) -> (r: PictureCommandOpcode)
        ensures
            r == PictureCommandOpcode::DrawXCorner,
    {
        PictureCommandOpcode::DrawXCorner
    }
}

impl AbsoluteLinePictureCommand {
    pub fn opcode(&self) -> (r: PictureCommandOpcode)
        ensures
            r == PictureCommandOpcode::AbsoluteLine,
    {
        PictureCommandOpcode::AbsoluteLine
    }
}

impl RelativeLinePictureCommand {
    pub fn opcode(&self) -> (r: PictureCommandOpcode)
        ensures
            r == PictureCommandOpcode::RelativeLine,
    {
        PictureCommandOpcode::RelativeLine
    }
}

impl FillPictureCommand {
    pub fn opcode(&self) -> (r: PictureCommandOpcode)
        ensures
            r == PictureCommandOpcode::Fill,
    {
        PictureCommandOpcode::Fill
    }
}

impl ChangePenPictureCommand {
    pub fn opcode(&self) -> (r: PictureCommandOpcode)
        ensures
            r == PictureCommandOpcode::ChangePen,
    {
        PictureCommandOpcode::ChangePen
    }
}

impl PlotWithPenPictureCommand {
    pub fn opcode(&self) -> (r: PictureCommandOpcode)
        ensures
            r == PictureCommandOpcode::PlotWithPen,
    {
        PictureCommandOpcode::PlotWithPen
    }
}

impl EndPictureCommand {
    pub fn opcode(&self) -> (r: PictureCommandOpcode)
        ensures
            r == PictureCommandOpcode::End,
    {
        PictureCommandOpcode::End
    }
}

#[derive(Debug, Clone)]
pub enum PictureCommand {
    SetPictureColor(SetPictureColorPictureCommand),
    DisablePictureDraw(DisablePictureDrawPictureCommand),
    SetPriorityColor(SetPriorityColorPictureCommand),
    DisablePriorityDraw(DisablePriorityDrawPictureCommand),
    DrawYCorner(DrawYCornerPictureCommand),
    DrawXCorner(DrawXCornerPictureCommand),
    AbsoluteLine(AbsoluteLinePictureCommand),
    RelativeLine(RelativeLinePictureCommand),
    Fill(FillPictureCommand),
    ChangePen(ChangePenPictureCommand),
    PlotWithPen(PlotWithPenPictureCommand),
    End(EndPictureCommand),
}

/// A picture command with its lists seen as sequences.
pub enum PictureCommandView {
    SetPictureColor(u8),
    DisablePictureDraw,
    SetPriorityColor(u8),
    DisablePriorityDraw,
    DrawYCorner(PictureCoordinate, Seq<PictureCornerStep>),
    DrawXCorner(PictureCoordinate, Seq<PictureCornerStep>),
    AbsoluteLine(Seq<PictureCoordinate>),
    RelativeLine(PictureCoordinate, Seq<RelativeLinePoint>),
    Fill(Seq<PictureCoordinate>),
    ChangePen(PicturePenSettings),
    PlotWithPen(Seq<PicturePenPlotPoint>),
    End,
}

/// The opcode of a command.
pub open spec fn command_opcode(c: PictureCommandView) -> PictureCommandOpcode {
    match c {
        PictureCommandView::SetPictureColor(_) => PictureCommandOpcode::SetPictureColor,
        PictureCommandView::DisablePictureDraw => PictureCommandOpcode::DisablePictureDraw,
        PictureCommandView::SetPriorityColor(_) => PictureCommandOpcode::SetPriorityColor,
        PictureCommandView::DisablePriorityDraw => PictureCommandOpcode::DisablePriorityDraw,
        PictureCommandView::DrawYCorner(..) => PictureCommandOpcode::DrawYCorner,
        PictureCommandView::DrawXCorner(..) => PictureCommandOpcode::DrawXCorner,
        PictureCommandView::AbsoluteLine(_) => PictureCommandOpcode::AbsoluteLine,
        PictureCommandView::RelativeLine(..) => PictureCommandOpcode::RelativeLine,
        PictureCommandView::Fill(_) => PictureCommandOpcode::Fill,
        PictureCommandView::ChangePen(_) => PictureCommandOpcode::ChangePen,
        PictureCommandView::PlotWithPen(_) => PictureCommandOpcode::PlotWithPen,
        PictureCommandView::End => PictureCommandOpcode::End,
    }
}

impl View for PictureCommand {
    type V = PictureCommandView;

    open spec fn view(&self) -> PictureCommandView {
        match self {
            PictureCommand::SetPictureColor(c) => PictureCommandView::SetPictureColor(c.color_number),
            PictureCommand::DisablePictureDraw(_) => PictureCommandView::DisablePictureDraw,
            PictureCommand::SetPriorityColor(c) => PictureCommandView::SetPriorityColor(c.color_number),
            PictureCommand::DisablePriorityDraw(_) => PictureCommandView::DisablePriorityDraw,
            PictureCommand::DrawYCorner(c) => PictureCommandView::DrawYCorner(c.start_position, c.steps@),
            PictureCommand::DrawXCorner(c) => PictureCommandView::DrawXCorner(c.start_position, c.steps@),
            PictureCommand::AbsoluteLine(c) => PictureCommandView::AbsoluteLine(c.points@),
            PictureCommand::RelativeLine(c) => PictureCommandView::RelativeLine(
                c.start_position,
                c.relative_points@,
            ),
            PictureCommand::Fill(c) => PictureCommandView::Fill(c.start_positions@),
            PictureCommand::ChangePen(c) => PictureCommandView::ChangePen(c.settings),
            PictureCommand::PlotWithPen(c) => PictureCommandView::PlotWithPen(c.points@),
            PictureCommand::End(_) => PictureCommandView::End,
        }
    }
}

impl PictureCommand {
    pub fn opcode(&self) -> (r: PictureCommandOpcode)
        ensures
            r == command_opcode(self@),
    {
        match self {
            PictureCommand::SetPictureColor(c) => c.opcode(),
            PictureCommand::DisablePictureDraw(c) => c.opcode(),
            PictureCommand::SetPriorityColor(c) => c.opcode(),
            PictureCommand::DisablePriorityDraw(c) => c.opcode(),
            PictureCommand::DrawYCorner(c) => c.opcode(),
            PictureCommand::DrawXCorner(c) => c.opcode(),
            PictureCommand::AbsoluteLine(c) => c.opcode(),
            PictureCommand::RelativeLine(c) => c.opcode(),
            PictureCommand::Fill(c) => c.opcode(),
            PictureCommand::ChangePen(c) => c.opcode(),
            PictureCommand::PlotWithPen(c) => c.opcode(),
            PictureCommand::End(c) => c.opcode(),
        }
    }
}

#[derive(Debug, Clone)]
pub struct Picture {
    pub commands: Vec<PictureCommand>,
}

/// The commands of a picture, each by its view.
pub open spec fn commands_view(commands: Seq<PictureCommand>) -> Seq<PictureCommandView> {
    commands.map_values(|c: PictureCommand| c@)
}

impl View for Picture {
    type V = Seq<PictureCommandView>;

    open spec fn view(&self) -> Seq<PictureCommandView> {
        commands_view(self.commands@)
    }
}

} // verus!
