use vstd::prelude::*;
use vstd::string::StringExecFns;

use crate::compression::bitstreams::{
    be_value, bytes_to_bits_be, lemma_be_value_bound, msb_read_var, msb_reader_new,
    msb_reader_unread, pow2_nat, BitReadError, MsbBitReader,
};
use crate::data_encoding::DecodingError;
use crate::picture::{
    commands_view, opcode_of_byte, AbsoluteLinePictureCommand, ChangePenPictureCommand,
    DisablePictureDrawPictureCommand, DisablePriorityDrawPictureCommand,
    DrawXCornerPictureCommand, DrawYCornerPictureCommand, EndPictureCommand, FillPictureCommand,
    Picture, PictureCommand, PictureCommandOpcode, PictureCommandView, PictureCoordinate,
    PictureCornerStep, PictureCornerStepAxis, PicturePenPlotPoint, PicturePenSettings,
    PlotWithPenPictureCommand, RelativeLinePictureCommand, RelativeLinePoint,
    SetPictureColorPictureCommand, SetPriorityColorPictureCommand,
};

verus! {

#[derive(Debug, Clone, Copy, PartialEq, Eq, Structural)]
pub enum PictureDecodingError {
    UnknownOpcode(u8),
}

impl PictureDecodingError {
    /// The error as it is reported, with the opcode in hexadecimal.
    pub fn to_string(&self) -> (r: String)
        ensures
            match *self {
                PictureDecodingError::UnknownOpcode(o) => r@ == "Unknown opcode: "@ + crate::formatting::hex_byte_text(o),
            },
    {
        proof {
            reveal_strlit("Unknown opcode: ");
        }
        match *self {
            PictureDecodingError::UnknownOpcode(o) => {
                let mut s = String::from_str("Unknown opcode: ");
                s.append(crate::formatting::hex_byte_string(o).as_str());
                s
            },
        }
    }
}

/// What the decoder carries from one command to the next: whether colors
/// take four bits, and whether the pen splatters.
pub struct PictureDecodeState {
    pub compress_color_numbers: bool,
    pub splatter_enabled: bool,
}

/// How reading a part of a picture ends: the part and the bits after it, the
/// data running out, or a byte that names no command.
pub enum PictureParse<T> {
    Parsed(T, Seq<bool>),
    EndOfData,
    UnknownOpcode(u8),
}

/// The byte that the first eight bits write, most significant first.
pub open spec fn byte_of(bits: Seq<bool>) -> u8 {
    be_value(bits.take(8)) as u8
}

/// A byte of 0xF0 or more ends a list of arguments: it is the next opcode.
pub open spec fn ends_list(bits: Seq<bool>) -> bool {
    byte_of(bits) >= 0xf0
}

/// Two bytes: x, then y.
pub open spec fn parse_coordinate(bits: Seq<bool>) -> PictureParse<PictureCoordinate> {
    if bits.len() < 16 {
        PictureParse::EndOfData
    } else {
        PictureParse::Parsed(
            PictureCoordinate { x: byte_of(bits), y: byte_of(bits.skip(8)) },
            bits.skip(16),
        )
    }
}

/// Coordinates up to the next opcode, which is left unread.
pub open spec fn parse_coordinate_list(bits: Seq<bool>) -> PictureParse<Seq<PictureCoordinate>>
    decreases bits.len(),
{
    if bits.len() < 8 {
        PictureParse::EndOfData
    } else if ends_list(bits) {
        PictureParse::Parsed(Seq::empty(), bits)
    } else if bits.len() < 16 {
        PictureParse::EndOfData
    } else {
        let c = PictureCoordinate { x: byte_of(bits), y: byte_of(bits.skip(8)) };
        match parse_coordinate_list(bits.skip(16)) {
            PictureParse::Parsed(rest, after) => PictureParse::Parsed(seq![c] + rest, after),
            PictureParse::EndOfData => PictureParse::EndOfData,
            PictureParse::UnknownOpcode(b) => PictureParse::UnknownOpcode(b),
        }
    }
}

/// Corner steps up to the next opcode, the axis changing at each step.
pub open spec fn parse_corner_steps(bits: Seq<bool>, axis: PictureCornerStepAxis) -> PictureParse<
    Seq<PictureCornerStep>,
>
    decreases bits.len(),
{
    if bits.len() < 8 {
        PictureParse::EndOfData
    } else if ends_list(bits) {
        PictureParse::Parsed(Seq::empty(), bits)
    } else {
        let step = PictureCornerStep { axis, position: byte_of(bits) };
        match parse_corner_steps(bits.skip(8), axis.flipped()) {
            PictureParse::Parsed(rest, after) => PictureParse::Parsed(seq![step] + rest, after),
            PictureParse::EndOfData => PictureParse::EndOfData,
            PictureParse::UnknownOpcode(b) => PictureParse::UnknownOpcode(b),
        }
    }
}

/// Relative line steps, one byte each, up to the next opcode.
pub open spec fn parse_relative_points(bits: Seq<bool>) -> PictureParse<Seq<RelativeLinePoint>>
    decreases bits.len(),
{
    if bits.len() < 8 {
        PictureParse::EndOfData
    } else if ends_list(bits) {
        PictureParse::Parsed(Seq::empty(), bits)
    } else {
        let p = RelativeLinePoint::of_raw(byte_of(bits));
        match parse_relative_points(bits.skip(8)) {
            PictureParse::Parsed(rest, after) => PictureParse::Parsed(seq![p] + rest, after),
            PictureParse::EndOfData => PictureParse::EndOfData,
            PictureParse::UnknownOpcode(b) => PictureParse::UnknownOpcode(b),
        }
    }
}

/// Pen plots up to the next opcode: with splatter, a texture byte and a
/// coordinate; without, a coordinate.
pub open spec fn parse_plot_points(bits: Seq<bool>, splatter: bool) -> PictureParse<
    Seq<PicturePenPlotPoint>,
>
    decreases bits.len(),
{
    if bits.len() < 8 {
        PictureParse::EndOfData
    } else if ends_list(bits) {
        PictureParse::Parsed(Seq::empty(), bits)
    } else if splatter {
        if bits.len() < 24 {
            PictureParse::EndOfData
        } else {
            let p = PicturePenPlotPoint {
                position: PictureCoordinate { x: byte_of(bits.skip(8)), y: byte_of(bits.skip(16)) },
                texture: Some(byte_of(bits)),
            };
            match parse_plot_points(bits.skip(24), splatter) {
                PictureParse::Parsed(rest, after) => PictureParse::Parsed(seq![p] + rest, after),
                PictureParse::EndOfData => PictureParse::EndOfData,
                PictureParse::UnknownOpcode(b) => PictureParse::UnknownOpcode(b),
            }
        }
    } else {
        if bits.len() < 16 {
            PictureParse::EndOfData
        } else {
            let p = PicturePenPlotPoint {
                position: PictureCoordinate { x: byte_of(bits), y: byte_of(bits.skip(8)) },
                texture: None,
            };
            match parse_plot_points(bits.skip(16), splatter) {
                PictureParse::Parsed(rest, after) => PictureParse::Parsed(seq![p] + rest, after),
                PictureParse::EndOfData => PictureParse::EndOfData,
                PictureParse::UnknownOpcode(b) => PictureParse::UnknownOpcode(b),
            }
        }
    }
}

/// The number of bits of a color number: four when colors are compressed.
pub open spec fn color_width(compress_color_numbers: bool) -> nat {
    if compress_color_numbers {
        4
    } else {
        8
    }
}

/// A color number.
pub open spec fn parse_color(bits: Seq<bool>, compress_color_numbers: bool) -> PictureParse<u8> {
    let width = color_width(compress_color_numbers);
    if bits.len() < width {
        PictureParse::EndOfData
    } else {
        PictureParse::Parsed(be_value(bits.take(width as int)) as u8, bits.skip(width as int))
    }
}

/// A coordinate and then the list that follows it.
pub open spec fn parse_start_and<T>(
    bits: Seq<bool>,
    list: spec_fn(Seq<bool>) -> PictureParse<T>,
) -> PictureParse<(PictureCoordinate, T)> {
    match parse_coordinate(bits) {
        PictureParse::Parsed(start, rest) => match list(rest) {
            PictureParse::Parsed(items, after) => PictureParse::Parsed((start, items), after),
            PictureParse::EndOfData => PictureParse::EndOfData,
            PictureParse::UnknownOpcode(b) => PictureParse::UnknownOpcode(b),
        },
        PictureParse::EndOfData => PictureParse::EndOfData,
        PictureParse::UnknownOpcode(b) => PictureParse::UnknownOpcode(b),
    }
}

/// Wraps what a part parsed into a command.
pub open spec fn as_command<T>(
    p: PictureParse<T>,
    make: spec_fn(T) -> PictureCommandView,
) -> PictureParse<PictureCommandView> {
    match p {
        PictureParse::Parsed(v, rest) => PictureParse::Parsed(make(v), rest),
        PictureParse::EndOfData => PictureParse::EndOfData,
        PictureParse::UnknownOpcode(b) => PictureParse::UnknownOpcode(b),
    }
}

/// The arguments of the command with opcode `op`.
pub open spec fn parse_arguments(
    op: PictureCommandOpcode,
    bits: Seq<bool>,
    compress_color_numbers: bool,
    splatter: bool,
) -> PictureParse<PictureCommandView> {
    match op {
        PictureCommandOpcode::SetPictureColor => as_command(
            parse_color(bits, compress_color_numbers),
            |c: u8| PictureCommandView::SetPictureColor(c),
        ),
        PictureCommandOpcode::DisablePictureDraw => PictureParse::Parsed(
            PictureCommandView::DisablePictureDraw,
            bits,
        ),
        PictureCommandOpcode::SetPriorityColor => as_command(
            parse_color(bits, compress_color_numbers),
            |c: u8| PictureCommandView::SetPriorityColor(c),
        ),
        PictureCommandOpcode::DisablePriorityDraw => PictureParse::Parsed(
            PictureCommandView::DisablePriorityDraw,
            bits,
        ),
        PictureCommandOpcode::DrawYCorner => as_command(
            parse_start_and(bits, |b: Seq<bool>| parse_corner_steps(b, PictureCornerStepAxis::Y)),
            |v: (PictureCoordinate, Seq<PictureCornerStep>)| PictureCommandView::DrawYCorner(v.0, v.1),
        ),
        PictureCommandOpcode::DrawXCorner => as_command(
            parse_start_and(bits, |b: Seq<bool>| parse_corner_steps(b, PictureCornerStepAxis::X)),
            |v: (PictureCoordinate, Seq<PictureCornerStep>)| PictureCommandView::DrawXCorner(v.0, v.1),
        ),
        PictureCommandOpcode::AbsoluteLine => as_command(
            parse_coordinate_list(bits),
            |v: Seq<PictureCoordinate>| PictureCommandView::AbsoluteLine(v),
        ),
        PictureCommandOpcode::RelativeLine => as_command(
            parse_start_and(bits, |b: Seq<bool>| parse_relative_points(b)),
            |v: (PictureCoordinate, Seq<RelativeLinePoint>)| PictureCommandView::RelativeLine(v.0, v.1),
        ),
        PictureCommandOpcode::Fill => as_command(
            parse_coordinate_list(bits),
            |v: Seq<PictureCoordinate>| PictureCommandView::Fill(v),
        ),
        PictureCommandOpcode::ChangePen => if bits.len() < 8 {
            PictureParse::EndOfData
        } else {
            PictureParse::Parsed(
                PictureCommandView::ChangePen(PicturePenSettings::of_raw(byte_of(bits))),
                bits.skip(8),
            )
        },
        PictureCommandOpcode::PlotWithPen => as_command(
            parse_plot_points(bits, splatter),
            |v: Seq<PicturePenPlotPoint>| PictureCommandView::PlotWithPen(v),
        ),
        PictureCommandOpcode::End => PictureParse::Parsed(PictureCommandView::End, bits),
    }
}

/// One command: its opcode byte, then its arguments.
pub open spec fn parse_command(
    bits: Seq<bool>,
    compress_color_numbers: bool,
    splatter: bool,
) -> PictureParse<PictureCommandView> {
    if bits.len() < 8 {
        PictureParse::EndOfData
    } else {
        match opcode_of_byte(byte_of(bits)) {
            None => PictureParse::UnknownOpcode(byte_of(bits)),
            Some(op) => parse_arguments(op, bits.skip(8), compress_color_numbers, splatter),
        }
    }
}

/// Commands up to and including the end command, which is not kept; a pen
/// change sets whether later plots carry a texture.
pub open spec fn parse_commands(
    bits: Seq<bool>,
    compress_color_numbers: bool,
    splatter: bool,
) -> PictureParse<Seq<PictureCommandView>>
    decreases bits.len(),
{
    match parse_command(bits, compress_color_numbers, splatter) {
        PictureParse::Parsed(c, rest) => {
            if c is End {
                PictureParse::Parsed(Seq::empty(), rest)
            } else if rest.len() < bits.len() {
                let next_splatter = match c {
                    PictureCommandView::ChangePen(s) => s.splatter_of(),
                    _ => splatter,
                };
                match parse_commands(rest, compress_color_numbers, next_splatter) {
                    PictureParse::Parsed(cs, after) => PictureParse::Parsed(seq![c] + cs, after),
                    PictureParse::EndOfData => PictureParse::EndOfData,
                    PictureParse::UnknownOpcode(b) => PictureParse::UnknownOpcode(b),
                }
            } else {
                PictureParse::EndOfData
            }
        },
        PictureParse::EndOfData => PictureParse::EndOfData,
        PictureParse::UnknownOpcode(b) => PictureParse::UnknownOpcode(b),
    }
}

/// A whole picture, splatter off at the start.
pub open spec fn parse_picture(bits: Seq<bool>, compress_color_numbers: bool) -> PictureParse<
    Seq<PictureCommandView>,
> {
    parse_commands(bits, compress_color_numbers, false)
}

/// What a decoder returns for a parse.
pub open spec fn decoded_as<T>(p: PictureParse<T>, r: Result<T, DecodingError>) -> bool {
    match p {
        PictureParse::Parsed(v, _) => r == Ok::<T, DecodingError>(v),
        PictureParse::EndOfData => r == Err::<T, DecodingError>(DecodingError::UnexpectedEof),
        PictureParse::UnknownOpcode(b) => r == Err::<T, DecodingError>(
            DecodingError::Picture(PictureDecodingError::UnknownOpcode(b)),
        ),
    }
}

/// A list parsed after `prefix` items were already read.
pub open spec fn prepend<T>(prefix: Seq<T>, p: PictureParse<Seq<T>>) -> PictureParse<Seq<T>> {
    match p {
        PictureParse::Parsed(items, rest) => PictureParse::Parsed(prefix + items, rest),
        PictureParse::EndOfData => PictureParse::EndOfData,
        PictureParse::UnknownOpcode(b) => PictureParse::UnknownOpcode(b),
    }
}

/// A list ended at `rest`, whose first byte `next` the reader has already taken.
pub open spec fn stopped_at(rest: Seq<bool>, next: u8, unread: Seq<bool>) -> bool {
    &&& rest.len() >= 8
    &&& byte_of(rest) == next
    &&& unread == rest.skip(8)
}

/// The reader stands at `rest`, or just past its first byte when that byte
/// was taken as the next opcode.
pub open spec fn after_command(rest: Seq<bool>, next: Option<u8>, unread: Seq<bool>) -> bool {
    match next {
        None => unread == rest,
        Some(b) => stopped_at(rest, b, unread),
    }
}

/// Reads `width` bits as a number, most significant first.
fn read_bits(reader: &mut MsbBitReader, width: u32) -> (r: Result<u8, DecodingError>)
    requires
        width == 4 || width == 8,
    ensures
        msb_reader_unread(*old(reader)).len() >= width ==> (r matches Ok(b) && b == be_value(
            msb_reader_unread(*old(reader)).take(width as int),
        ) && msb_reader_unread(*final(reader)) == msb_reader_unread(*old(reader)).skip(width as int)),
        msb_reader_unread(*old(reader)).len() < width ==> r == Err::<u8, DecodingError>(
            DecodingError::UnexpectedEof,
        ),
{
    proof {
        if msb_reader_unread(*reader).len() >= width {
            lemma_be_value_bound(msb_reader_unread(*reader).take(width as int));
            reveal_with_fuel(pow2_nat, 9);
        }
    }
    match msb_read_var(reader, width) {
        Ok(v) => Ok(v as u8),
        Err(BitReadError::EndOfData(_)) => Err(DecodingError::UnexpectedEof),
        // A reader over memory fails only where the data ends.
        Err(BitReadError::Other(_)) => Err(DecodingError::UnexpectedEof),
    }
}

/// Two bytes read one after the other are the first sixteen bits.
proof fn lemma_skip_twice(u: Seq<bool>, a: int, b: int)
    requires
        0 <= a,
        0 <= b,
        a + b <= u.len(),
    ensures
        u.skip(a).skip(b) == u.skip(a + b),
{
    assert(u.skip(a).skip(b) =~= u.skip(a + b));
}

fn decode_coordinate(reader: &mut MsbBitReader) -> (r: Result<PictureCoordinate, DecodingError>)
    ensures
        match parse_coordinate(msb_reader_unread(*old(reader))) {
            PictureParse::Parsed(c, rest) => r == Ok::<PictureCoordinate, DecodingError>(c)
                && msb_reader_unread(*final(reader)) == rest,
            _ => r == Err::<PictureCoordinate, DecodingError>(DecodingError::UnexpectedEof),
        },
{
    let ghost u = msb_reader_unread(*reader);
    let x = match read_bits(reader, 8) {
        Ok(b) => b,
        Err(e) => {
            return Err(e);
        },
    };
    let y = match read_bits(reader, 8) {
        Ok(b) => b,
        Err(e) => {
            return Err(e);
        },
    };
    proof {
        lemma_skip_twice(u, 8, 8);
    }
    Ok(PictureCoordinate { x, y })
}

fn decode_coordinate_list(reader: &mut MsbBitReader) -> (r: Result<(Vec<PictureCoordinate>, u8), DecodingError>)
    ensures
        match parse_coordinate_list(msb_reader_unread(*old(reader))) {
            PictureParse::Parsed(pts, rest) => r matches Ok((v, t)) && v@ == pts && stopped_at(
                rest,
                t,
                msb_reader_unread(*final(reader)),
            ),
            PictureParse::EndOfData => r matches Err(DecodingError::UnexpectedEof),
            PictureParse::UnknownOpcode(_) => false,
        },
{
    let ghost start = msb_reader_unread(*reader);
    let mut points: Vec<PictureCoordinate> = Vec::new();
    loop
        invariant
            start == msb_reader_unread(*old(reader)),
            prepend(points@, parse_coordinate_list(msb_reader_unread(*reader)))
                == parse_coordinate_list(start),
        decreases msb_reader_unread(*reader).len(),
    {
        let ghost u = msb_reader_unread(*reader);
        let x = match read_bits(reader, 8) {
            Ok(b) => b,
            Err(e) => {
                return Err(e);
            },
        };
        if x >= 0xf0 {
            assert(points@ + Seq::<PictureCoordinate>::empty() =~= points@);
            return Ok((points, x));
        }
        let y = match read_bits(reader, 8) {
            Ok(b) => b,
            Err(e) => {
                return Err(e);
            },
        };
        proof {
            lemma_skip_twice(u, 8, 8);
        }
        let ghost before = points@;
        points.push(PictureCoordinate { x, y });
        proof {
            assert forall|p: PictureParse<Seq<PictureCoordinate>>| true implies prepend(points@, p)
                == prepend(before, prepend(seq![PictureCoordinate { x, y }], p)) by {
                match p {
                    PictureParse::Parsed(items, rest) => {
                        assert(points@ + items =~= before + (seq![PictureCoordinate { x, y }] + items));
                    },
                    _ => {},
                }
            }
        }
    }
}

fn decode_corner_steps(reader: &mut MsbBitReader, start_axis: PictureCornerStepAxis) -> (r: Result<
    (Vec<PictureCornerStep>, u8),
    DecodingError,
>)
    ensures
        match parse_corner_steps(msb_reader_unread(*old(reader)), start_axis) {
            PictureParse::Parsed(steps, rest) => r matches Ok((v, t)) && v@ == steps && stopped_at(
                rest,
                t,
                msb_reader_unread(*final(reader)),
            ),
            PictureParse::EndOfData => r matches Err(DecodingError::UnexpectedEof),
            PictureParse::UnknownOpcode(_) => false,
        },
{
    let ghost start = msb_reader_unread(*reader);
    let mut steps: Vec<PictureCornerStep> = Vec::new();
    let mut axis = start_axis;
    loop
        invariant
            start == msb_reader_unread(*old(reader)),
            prepend(steps@, parse_corner_steps(msb_reader_unread(*reader), axis)) == parse_corner_steps(
                start,
                start_axis,
            ),
        decreases msb_reader_unread(*reader).len(),
    {
        let position = match read_bits(reader, 8) {
            Ok(b) => b,
            Err(e) => {
                return Err(e);
            },
        };
        if position >= 0xf0 {
            assert(steps@ + Seq::<PictureCornerStep>::empty() =~= steps@);
            return Ok((steps, position));
        }
        let ghost before = steps@;
        let step = PictureCornerStep { axis, position };
        steps.push(step);
        proof {
            assert forall|p: PictureParse<Seq<PictureCornerStep>>| true implies prepend(steps@, p)
                == prepend(before, prepend(seq![step], p)) by {
                match p {
                    PictureParse::Parsed(items, rest) => {
                        assert(steps@ + items =~= before + (seq![step] + items));
                    },
                    _ => {},
                }
            }
        }
        axis = axis.flip();
    }
}

fn decode_relative_points(reader: &mut MsbBitReader) -> (r: Result<(Vec<RelativeLinePoint>, u8), DecodingError>)
    ensures
        match parse_relative_points(msb_reader_unread(*old(reader))) {
            PictureParse::Parsed(pts, rest) => r matches Ok((v, t)) && v@ == pts && stopped_at(
                rest,
                t,
                msb_reader_unread(*final(reader)),
            ),
            PictureParse::EndOfData => r matches Err(DecodingError::UnexpectedEof),
            PictureParse::UnknownOpcode(_) => false,
        },
{
    let ghost start = msb_reader_unread(*reader);
    let mut points: Vec<RelativeLinePoint> = Vec::new();
    loop
        invariant
            start == msb_reader_unread(*old(reader)),
            prepend(points@, parse_relative_points(msb_reader_unread(*reader))) == parse_relative_points(start),
        decreases msb_reader_unread(*reader).len(),
    {
        let b = match read_bits(reader, 8) {
            Ok(b) => b,
            Err(e) => {
                return Err(e);
            },
        };
        if b >= 0xf0 {
            assert(points@ + Seq::<RelativeLinePoint>::empty() =~= points@);
            return Ok((points, b));
        }
        let ghost before = points@;
        let p = RelativeLinePoint::from_bits(b);
        points.push(p);
        proof {
            assert forall|q: PictureParse<Seq<RelativeLinePoint>>| true implies prepend(points@, q)
                == prepend(before, prepend(seq![p], q)) by {
                match q {
                    PictureParse::Parsed(items, rest) => {
                        assert(points@ + items =~= before + (seq![p] + items));
                    },
                    _ => {},
                }
            }
        }
    }
}

fn decode_plot_points(reader: &mut MsbBitReader, splatter_enabled: bool) -> (r: Result<
    (Vec<PicturePenPlotPoint>, u8),
    DecodingError,
>)
    ensures
        match parse_plot_points(msb_reader_unread(*old(reader)), splatter_enabled) {
            PictureParse::Parsed(pts, rest) => r matches Ok((v, t)) && v@ == pts && stopped_at(
                rest,
                t,
                msb_reader_unread(*final(reader)),
            ),
            PictureParse::EndOfData => r matches Err(DecodingError::UnexpectedEof),
            PictureParse::UnknownOpcode(_) => false,
        },
{
    let ghost start = msb_reader_unread(*reader);
    let mut points: Vec<PicturePenPlotPoint> = Vec::new();
    loop
        invariant
            start == msb_reader_unread(*old(reader)),
            prepend(points@, parse_plot_points(msb_reader_unread(*reader), splatter_enabled))
                == parse_plot_points(start, splatter_enabled),
        decreases msb_reader_unread(*reader).len(),
    {
        let ghost u = msb_reader_unread(*reader);
        let current = match read_bits(reader, 8) {
            Ok(b) => b,
            Err(e) => {
                return Err(e);
            },
        };
        if current >= 0xf0 {
            assert(points@ + Seq::<PicturePenPlotPoint>::empty() =~= points@);
            return Ok((points, current));
        }
        let ghost before = points@;
        let point = if splatter_enabled {
            let position = match decode_coordinate(reader) {
                Ok(c) => c,
                Err(e) => {
                    return Err(e);
                },
            };
            proof {
                lemma_skip_twice(u, 8, 8);
                lemma_skip_twice(u, 8, 16);
                lemma_skip_twice(u, 16, 8);
            }
            PicturePenPlotPoint { position, texture: Some(current) }
        } else {
            let y = match read_bits(reader, 8) {
                Ok(b) => b,
                Err(e) => {
                    return Err(e);
                },
            };
            proof {
                lemma_skip_twice(u, 8, 8);
            }
            PicturePenPlotPoint { position: PictureCoordinate { x: current, y }, texture: None }
        };
        points.push(point);
        proof {
            assert forall|q: PictureParse<Seq<PicturePenPlotPoint>>| true implies prepend(points@, q)
                == prepend(before, prepend(seq![point], q)) by {
                match q {
                    PictureParse::Parsed(items, rest) => {
                        assert(points@ + items =~= before + (seq![point] + items));
                    },
                    _ => {},
                }
            }
        }
    }
}

/// A list leaves no more bits than it was given.
proof fn lemma_coordinate_list_shrinks(bits: Seq<bool>)
    ensures
        parse_coordinate_list(bits) matches PictureParse::Parsed(_, rest) ==> rest.len() <= bits.len(),
    decreases bits.len(),
{
    if bits.len() >= 16 && !ends_list(bits) {
        lemma_coordinate_list_shrinks(bits.skip(16));
    }
}

proof fn lemma_corner_steps_shrink(bits: Seq<bool>, axis: PictureCornerStepAxis)
    ensures
        parse_corner_steps(bits, axis) matches PictureParse::Parsed(_, rest) ==> rest.len() <= bits.len(),
    decreases bits.len(),
{
    if bits.len() >= 8 && !ends_list(bits) {
        lemma_corner_steps_shrink(bits.skip(8), axis.flipped());
    }
}

proof fn lemma_relative_points_shrink(bits: Seq<bool>)
    ensures
        parse_relative_points(bits) matches PictureParse::Parsed(_, rest) ==> rest.len() <= bits.len(),
    decreases bits.len(),
{
    if bits.len() >= 8 && !ends_list(bits) {
        lemma_relative_points_shrink(bits.skip(8));
    }
}

proof fn lemma_plot_points_shrink(bits: Seq<bool>, splatter: bool)
    ensures
        parse_plot_points(bits, splatter) matches PictureParse::Parsed(_, rest) ==> rest.len() <= bits.len(),
    decreases bits.len(),
{
    if bits.len() >= 24 && !ends_list(bits) && splatter {
        lemma_plot_points_shrink(bits.skip(24), splatter);
    }
    if bits.len() >= 16 && !ends_list(bits) && !splatter {
        lemma_plot_points_shrink(bits.skip(16), splatter);
    }
}

/// The arguments of a command leave no more bits than they were given.
pub proof fn lemma_arguments_shrink(
    op: PictureCommandOpcode,
    bits: Seq<bool>,
    compress_color_numbers: bool,
    splatter: bool,
)
    ensures
        parse_arguments(op, bits, compress_color_numbers, splatter) matches PictureParse::Parsed(_, rest)
            ==> rest.len() <= bits.len(),
{
    lemma_coordinate_list_shrinks(bits);
    lemma_plot_points_shrink(bits, splatter);
    if bits.len() >= 16 {
        lemma_corner_steps_shrink(bits.skip(16), PictureCornerStepAxis::X);
        lemma_corner_steps_shrink(bits.skip(16), PictureCornerStepAxis::Y);
        lemma_relative_points_shrink(bits.skip(16));
    }
}

/// Reads the arguments of the command whose opcode byte was just read. A
/// command that ends with a list also returns the opcode byte that ended it.
fn decode_command(reader: &mut MsbBitReader, opcode_byte: u8, state: &PictureDecodeState) -> (r: Result<
    (PictureCommand, Option<u8>),
    DecodingError,
>)
    ensures
        match opcode_of_byte(opcode_byte) {
            None => r matches Err(DecodingError::Picture(PictureDecodingError::UnknownOpcode(b)))
                && b == opcode_byte,
            Some(op) => match parse_arguments(
                op,
                msb_reader_unread(*old(reader)),
                state.compress_color_numbers,
                state.splatter_enabled,
            ) {
                PictureParse::Parsed(c, rest) => r matches Ok((command, next)) && command@ == c
                    && after_command(rest, next, msb_reader_unread(*final(reader))),
                PictureParse::EndOfData => r matches Err(DecodingError::UnexpectedEof),
                PictureParse::UnknownOpcode(_) => false,
            },
        },
{
    let opcode = match PictureCommandOpcode::try_from_u8(opcode_byte) {
        Some(op) => op,
        None => {
            return Err(DecodingError::Picture(PictureDecodingError::UnknownOpcode(opcode_byte)));
        },
    };
    let color_width: u32 = if state.compress_color_numbers {
        4
    } else {
        8
    };
    match opcode {
        PictureCommandOpcode::SetPictureColor => {
            let color_number = match read_bits(reader, color_width) {
                Ok(c) => c,
                Err(e) => {
                    return Err(e);
                },
            };
            Ok((PictureCommand::SetPictureColor(SetPictureColorPictureCommand { color_number }), None))
        },
        PictureCommandOpcode::DisablePictureDraw => Ok(
            (PictureCommand::DisablePictureDraw(DisablePictureDrawPictureCommand), None),
        ),
        PictureCommandOpcode::SetPriorityColor => {
            let color_number = match read_bits(reader, color_width) {
                Ok(c) => c,
                Err(e) => {
                    return Err(e);
                },
            };
            Ok((PictureCommand::SetPriorityColor(SetPriorityColorPictureCommand { color_number }), None))
        },
        PictureCommandOpcode::DisablePriorityDraw => Ok(
            (PictureCommand::DisablePriorityDraw(DisablePriorityDrawPictureCommand), None),
        ),
        PictureCommandOpcode::DrawYCorner => {
            let start_position = match decode_coordinate(reader) {
                Ok(c) => c,
                Err(e) => {
                    return Err(e);
                },
            };
            let (steps, next) = match decode_corner_steps(reader, PictureCornerStepAxis::Y) {
                Ok(v) => v,
                Err(e) => {
                    return Err(e);
                },
            };
            Ok((PictureCommand::DrawYCorner(DrawYCornerPictureCommand { start_position, steps }), Some(next)))
        },
        PictureCommandOpcode::DrawXCorner => {
            let start_position = match decode_coordinate(reader) {
                Ok(c) => c,
                Err(e) => {
                    return Err(e);
                },
            };
            let (steps, next) = match decode_corner_steps(reader, PictureCornerStepAxis::X) {
                Ok(v) => v,
                Err(e) => {
                    return Err(e);
                },
            };
            Ok((PictureCommand::DrawXCorner(DrawXCornerPictureCommand { start_position, steps }), Some(next)))
        },
        PictureCommandOpcode::AbsoluteLine => {
            let (points, next) = match decode_coordinate_list(reader) {
                Ok(v) => v,
                Err(e) => {
                    return Err(e);
                },
            };
            Ok((PictureCommand::AbsoluteLine(AbsoluteLinePictureCommand { points }), Some(next)))
        },
        PictureCommandOpcode::RelativeLine => {
            let start_position = match decode_coordinate(reader) {
                Ok(c) => c,
                Err(e) => {
                    return Err(e);
                },
            };
            let (relative_points, next) = match decode_relative_points(reader) {
                Ok(v) => v,
                Err(e) => {
                    return Err(e);
                },
            };
            Ok(
                (
                    PictureCommand::RelativeLine(RelativeLinePictureCommand { start_position, relative_points }),
                    Some(next),
                ),
            )
        },
        PictureCommandOpcode::Fill => {
            let (start_positions, next) = match decode_coordinate_list(reader) {
                Ok(v) => v,
                Err(e) => {
                    return Err(e);
                },
            };
            Ok((PictureCommand::Fill(FillPictureCommand { start_positions }), Some(next)))
        },
        PictureCommandOpcode::ChangePen => {
            let b = match read_bits(reader, 8) {
                Ok(b) => b,
                Err(e) => {
                    return Err(e);
                },
            };
            let settings = PicturePenSettings::from_bits(b);
            Ok((PictureCommand::ChangePen(ChangePenPictureCommand { settings }), None))
        },
        PictureCommandOpcode::PlotWithPen => {
            let (points, next) = match decode_plot_points(reader, state.splatter_enabled) {
                Ok(v) => v,
                Err(e) => {
                    return Err(e);
                },
            };
            Ok((PictureCommand::PlotWithPen(PlotWithPenPictureCommand { points }), Some(next)))
        },
        PictureCommandOpcode::End => Ok((PictureCommand::End(EndPictureCommand), None)),
    }
}

/// A fresh copy of a byte string.
fn copy_data(a: &[u8]) -> (r: Vec<u8>)
    ensures
        r@ == a@,
{
    let mut r: Vec<u8> = Vec::new();
    let mut i: usize = 0;
    while i < a.len()
        invariant
            0 <= i <= a@.len(),
            r@ == a@.subrange(0, i as int),
        decreases a@.len() - i,
    {
        r.push(a[i]);
        i = i + 1;
        assert(r@ =~= a@.subrange(0, i as int));
    }
    assert(r@ =~= a@);
    r
}

impl Picture {
    /// Reads a picture resource, most significant bit first: commands up to
    /// the end command, with four-bit color numbers when they are compressed.
    pub fn decode_bitstream(data: &[u8], compress_color_numbers: bool) -> (r: Result<Picture, DecodingError>)
        ensures
            match parse_picture(bytes_to_bits_be(data@), compress_color_numbers) {
                PictureParse::Parsed(cs, _) => r matches Ok(p) && p@ == cs,
                PictureParse::EndOfData => r matches Err(DecodingError::UnexpectedEof),
                PictureParse::UnknownOpcode(b) => r matches Err(
                    DecodingError::Picture(PictureDecodingError::UnknownOpcode(x)),
                ) && x == b,
            },
    {
        let ghost all = bytes_to_bits_be(data@);
        let mut reader = msb_reader_new(copy_data(data));
        let mut state = PictureDecodeState { compress_color_numbers, splatter_enabled: false };
        let mut commands: Vec<PictureCommand> = Vec::new();
        let mut pending: Option<u8> = None;
        let ghost mut cur = all;
        loop
            invariant
                all == bytes_to_bits_be(data@),
                state.compress_color_numbers == compress_color_numbers,
                after_command(cur, pending, msb_reader_unread(reader)),
                prepend(
                    commands_view(commands@),
                    parse_commands(cur, compress_color_numbers, state.splatter_enabled),
                ) == parse_picture(all, compress_color_numbers),
            decreases cur.len(),
        {
            let opcode_byte = match pending {
                Some(b) => b,
                None => match read_bits(&mut reader, 8) {
                    Ok(b) => b,
                    Err(e) => {
                        return Err(e);
                    },
                },
            };
            proof {
                lemma_be_value_bound(cur.take(8));
                reveal_with_fuel(pow2_nat, 9);
                match opcode_of_byte(opcode_byte) {
                    Some(op) => {
                        lemma_arguments_shrink(op, cur.skip(8), compress_color_numbers, state.splatter_enabled);
                    },
                    None => {},
                }
            }
            let (command, next) = match decode_command(&mut reader, opcode_byte, &state) {
                Ok(v) => v,
                Err(e) => {
                    return Err(e);
                },
            };
            let ghost rest = match parse_command(cur, compress_color_numbers, state.splatter_enabled) {
                PictureParse::Parsed(_, rest) => rest,
                _ => cur,
            };
            let ghost before = commands_view(commands@);
            match command {
                PictureCommand::End(_) => {
                    assert(before + Seq::<PictureCommandView>::empty() =~= before);
                    return Ok(Picture { commands });
                },
                PictureCommand::ChangePen(c) => {
                    state.splatter_enabled = c.settings.splatter();
                    commands.push(PictureCommand::ChangePen(c));
                },
                other => {
                    commands.push(other);
                },
            }
            proof {
                let c = commands@.last()@;
                assert(commands_view(commands@) =~= before.push(c));
                assert forall|q: PictureParse<Seq<PictureCommandView>>| true implies prepend(
                    commands_view(commands@),
                    q,
                ) == prepend(before, prepend(seq![c], q)) by {
                    match q {
                        PictureParse::Parsed(items, after) => {
                            assert(commands_view(commands@) + items =~= before + (seq![c] + items));
                        },
                        _ => {},
                    }
                }
                cur = rest;
            }
            pending = next;
        }
    }
}

} // verus!
