//! What reading a picture and writing it again gives back.

use vstd::prelude::*;

use crate::compression::bitstreams::{
    be_bits_of, be_value, lemma_be_bits_of_value, lemma_be_value_bound, pow2_nat,
};
use crate::picture::decode::{
    byte_of, color_width, parse_arguments, parse_command, parse_commands, parse_coordinate_list,
    parse_corner_steps, parse_picture, parse_plot_points, parse_relative_points, PictureParse,
};
use crate::picture::encode::{
    arguments_bits, byte_bits, command_bits, commands_bits, coordinate_bits, coordinates_bits,
    picture_bits, plot_point_bits, plot_points_bits, relative_points_bits, steps_bits,
};
use crate::picture::{
    command_opcode, opcode_byte, opcode_of_byte, PictureCommandOpcode, PictureCommandView,
    PictureCoordinate, PictureCornerStep, PictureCornerStepAxis, PicturePenPlotPoint,
    PicturePenSettings, RelativeLinePoint,
};

verus! {

broadcast use PicturePenSettings::lemma_raw, RelativeLinePoint::lemma_raw;

/// The first `width` bits, read as a number and written again in `width` bits.
proof fn lemma_field_round_trip(bits: Seq<bool>, width: nat)
    requires
        width <= 8,
        bits.len() >= width,
    ensures
        be_bits_of(be_value(bits.take(width as int)) as u8 as nat, width) + bits.skip(width as int) == bits,
{
    let front = bits.take(width as int);
    lemma_be_value_bound(front);
    lemma_pow2_le_256(width);
    lemma_be_bits_of_value(front);
    assert(front + bits.skip(width as int) =~= bits);
}

proof fn lemma_pow2_le_256(n: nat)
    requires
        n <= 8,
    ensures
        pow2_nat(n) <= 256,
    decreases n,
{
    reveal_with_fuel(pow2_nat, 9);
}

/// The first byte, read and written again.
proof fn lemma_byte_round_trip(bits: Seq<bool>)
    requires
        bits.len() >= 8,
    ensures
        byte_bits(byte_of(bits)) + bits.skip(8) == bits,
{
    lemma_field_round_trip(bits, 8);
}

/// The first two bytes as a coordinate, read and written again.
proof fn lemma_coordinate_round_trip(bits: Seq<bool>)
    requires
        bits.len() >= 16,
    ensures
        coordinate_bits(PictureCoordinate { x: byte_of(bits), y: byte_of(bits.skip(8)) }) + bits.skip(16)
            == bits,
{
    lemma_byte_round_trip(bits);
    lemma_byte_round_trip(bits.skip(8));
    assert(bits.skip(8).skip(8) =~= bits.skip(16));
    assert(byte_bits(byte_of(bits)) + (byte_bits(byte_of(bits.skip(8))) + bits.skip(16))
        =~= coordinate_bits(PictureCoordinate { x: byte_of(bits), y: byte_of(bits.skip(8)) }) + bits.skip(16));
}

proof fn lemma_coordinates_bits_prepend(c: PictureCoordinate, s: Seq<PictureCoordinate>)
    ensures
        coordinates_bits(seq![c] + s) == coordinate_bits(c) + coordinates_bits(s),
    decreases s.len(),
{
    if s.len() > 0 {
        lemma_coordinates_bits_prepend(c, s.drop_last());
        assert((seq![c] + s).drop_last() =~= seq![c] + s.drop_last());
        assert(coordinates_bits(seq![c] + s) =~= coordinate_bits(c) + coordinates_bits(s));
    } else {
        assert(seq![c] + s =~= seq![c]);
        assert(seq![c].drop_last() =~= Seq::<PictureCoordinate>::empty());
        assert(coordinates_bits(seq![c].drop_last()) =~= Seq::<bool>::empty());
        assert(Seq::<bool>::empty() + coordinate_bits(c) =~= coordinate_bits(c));
        assert(coordinates_bits(seq![c]) =~= coordinate_bits(c));
    }
}

proof fn lemma_steps_bits_prepend(c: PictureCornerStep, s: Seq<PictureCornerStep>)
    ensures
        steps_bits(seq![c] + s) == byte_bits(c.position) + steps_bits(s),
    decreases s.len(),
{
    if s.len() > 0 {
        lemma_steps_bits_prepend(c, s.drop_last());
        assert((seq![c] + s).drop_last() =~= seq![c] + s.drop_last());
        assert(steps_bits(seq![c] + s) =~= byte_bits(c.position) + steps_bits(s));
    } else {
        assert(seq![c] + s =~= seq![c]);
        assert(seq![c].drop_last() =~= Seq::<PictureCornerStep>::empty());
        assert(steps_bits(seq![c].drop_last()) =~= Seq::<bool>::empty());
        assert(Seq::<bool>::empty() + byte_bits(c.position) =~= byte_bits(c.position));
        assert(steps_bits(seq![c]) =~= byte_bits(c.position));
    }
}

proof fn lemma_relative_bits_prepend(c: RelativeLinePoint, s: Seq<RelativeLinePoint>)
    ensures
        relative_points_bits(seq![c] + s) == byte_bits(c.raw()) + relative_points_bits(s),
    decreases s.len(),
{
    if s.len() > 0 {
        lemma_relative_bits_prepend(c, s.drop_last());
        assert((seq![c] + s).drop_last() =~= seq![c] + s.drop_last());
        assert(relative_points_bits(seq![c] + s) =~= byte_bits(c.raw()) + relative_points_bits(s));
    } else {
        assert(seq![c] + s =~= seq![c]);
        assert(seq![c].drop_last() =~= Seq::<RelativeLinePoint>::empty());
        assert(relative_points_bits(seq![c].drop_last()) =~= Seq::<bool>::empty());
        assert(Seq::<bool>::empty() + byte_bits(c.raw()) =~= byte_bits(c.raw()));
        assert(relative_points_bits(seq![c]) =~= byte_bits(c.raw()));
    }
}

proof fn lemma_plot_bits_prepend(c: PicturePenPlotPoint, s: Seq<PicturePenPlotPoint>)
    ensures
        plot_points_bits(seq![c] + s) == plot_point_bits(c) + plot_points_bits(s),
    decreases s.len(),
{
    if s.len() > 0 {
        lemma_plot_bits_prepend(c, s.drop_last());
        assert((seq![c] + s).drop_last() =~= seq![c] + s.drop_last());
        assert(plot_points_bits(seq![c] + s) =~= plot_point_bits(c) + plot_points_bits(s));
    } else {
        assert(seq![c] + s =~= seq![c]);
        assert(seq![c].drop_last() =~= Seq::<PicturePenPlotPoint>::empty());
        assert(plot_points_bits(seq![c].drop_last()) =~= Seq::<bool>::empty());
        assert(Seq::<bool>::empty() + plot_point_bits(c) =~= plot_point_bits(c));
        assert(plot_points_bits(seq![c]) =~= plot_point_bits(c));
    }
}

proof fn lemma_commands_bits_prepend(c: PictureCommandView, s: Seq<PictureCommandView>, compress: bool)
    ensures
        commands_bits(seq![c] + s, compress) == command_bits(c, compress) + commands_bits(s, compress),
    decreases s.len(),
{
    if s.len() > 0 {
        lemma_commands_bits_prepend(c, s.drop_last(), compress);
        assert((seq![c] + s).drop_last() =~= seq![c] + s.drop_last());
        assert(commands_bits(seq![c] + s, compress) =~= command_bits(c, compress) + commands_bits(s, compress));
    } else {
        assert(seq![c] + s =~= seq![c]);
        assert(seq![c].drop_last() =~= Seq::<PictureCommandView>::empty());
        assert(commands_bits(seq![c].drop_last(), compress) =~= Seq::<bool>::empty());
        assert(Seq::<bool>::empty() + command_bits(c, compress) =~= command_bits(c, compress));
        assert(commands_bits(seq![c], compress) =~= command_bits(c, compress));
    }
}

/// A list of coordinates read is written back as the bits it was read from.
#[verifier::rlimit(40)]
proof fn lemma_coordinate_list_round_trip(bits: Seq<bool>)
    ensures
        parse_coordinate_list(bits) matches PictureParse::Parsed(pts, rest) ==> coordinates_bits(pts)
            + rest == bits,
    decreases bits.len(),
{
    if bits.len() >= 16 && byte_of(bits) < 0xf0 {
        lemma_coordinate_list_round_trip(bits.skip(16));
        let c = PictureCoordinate { x: byte_of(bits), y: byte_of(bits.skip(8)) };
        if let PictureParse::Parsed(pts, rest) = parse_coordinate_list(bits.skip(16)) {
            lemma_coordinates_bits_prepend(c, pts);
            lemma_coordinate_round_trip(bits);
            assert(coordinates_bits(seq![c] + pts) + rest =~= coordinate_bits(c) + (coordinates_bits(pts) + rest));
        }
    } else if bits.len() >= 8 && byte_of(bits) >= 0xf0 {
        assert(coordinates_bits(Seq::<PictureCoordinate>::empty()) + bits =~= bits);
    }
}

proof fn lemma_corner_steps_round_trip(bits: Seq<bool>, axis: PictureCornerStepAxis)
    ensures
        parse_corner_steps(bits, axis) matches PictureParse::Parsed(steps, rest) ==> steps_bits(steps) + rest
            == bits,
    decreases bits.len(),
{
    if bits.len() >= 8 && byte_of(bits) < 0xf0 {
        lemma_corner_steps_round_trip(bits.skip(8), axis.flipped());
        let c = PictureCornerStep { axis, position: byte_of(bits) };
        if let PictureParse::Parsed(steps, rest) = parse_corner_steps(bits.skip(8), axis.flipped()) {
            lemma_steps_bits_prepend(c, steps);
            lemma_byte_round_trip(bits);
            assert(steps_bits(seq![c] + steps) + rest =~= byte_bits(c.position) + (steps_bits(steps) + rest));
        }
    } else if bits.len() >= 8 && byte_of(bits) >= 0xf0 {
        assert(steps_bits(Seq::<PictureCornerStep>::empty()) + bits =~= bits);
    }
}

proof fn lemma_relative_points_round_trip(bits: Seq<bool>)
    ensures
        parse_relative_points(bits) matches PictureParse::Parsed(pts, rest) ==> relative_points_bits(pts)
            + rest == bits,
    decreases bits.len(),
{
    if bits.len() >= 8 && byte_of(bits) < 0xf0 {
        lemma_relative_points_round_trip(bits.skip(8));
        let c = RelativeLinePoint::of_raw(byte_of(bits));
        if let PictureParse::Parsed(pts, rest) = parse_relative_points(bits.skip(8)) {
            lemma_relative_bits_prepend(c, pts);
            lemma_byte_round_trip(bits);
            assert(relative_points_bits(seq![c] + pts) + rest =~= byte_bits(c.raw()) + (relative_points_bits(pts)
                + rest));
        }
    } else if bits.len() >= 8 && byte_of(bits) >= 0xf0 {
        assert(relative_points_bits(Seq::<RelativeLinePoint>::empty()) + bits =~= bits);
    }
}

proof fn lemma_plot_points_round_trip(bits: Seq<bool>, splatter: bool)
    ensures
        parse_plot_points(bits, splatter) matches PictureParse::Parsed(pts, rest) ==> plot_points_bits(pts)
            + rest == bits,
    decreases bits.len(),
{
    if bits.len() >= 8 && byte_of(bits) >= 0xf0 {
        assert(plot_points_bits(Seq::<PicturePenPlotPoint>::empty()) + bits =~= bits);
    } else if bits.len() >= 24 && splatter {
        lemma_plot_points_round_trip(bits.skip(24), splatter);
        let c = PicturePenPlotPoint {
            position: PictureCoordinate { x: byte_of(bits.skip(8)), y: byte_of(bits.skip(16)) },
            texture: Some(byte_of(bits)),
        };
        if let PictureParse::Parsed(pts, rest) = parse_plot_points(bits.skip(24), splatter) {
            lemma_plot_bits_prepend(c, pts);
            lemma_byte_round_trip(bits);
            lemma_coordinate_round_trip(bits.skip(8));
            assert(bits.skip(8).skip(8) =~= bits.skip(16));
            assert(bits.skip(8).skip(16) =~= bits.skip(24));
            assert(plot_points_bits(seq![c] + pts) + rest =~= byte_bits(byte_of(bits)) + (coordinate_bits(
                c.position,
            ) + (plot_points_bits(pts) + rest)));
        }
    } else if bits.len() >= 16 && !splatter {
        lemma_plot_points_round_trip(bits.skip(16), splatter);
        let c = PicturePenPlotPoint {
            position: PictureCoordinate { x: byte_of(bits), y: byte_of(bits.skip(8)) },
            texture: None,
        };
        if let PictureParse::Parsed(pts, rest) = parse_plot_points(bits.skip(16), splatter) {
            lemma_plot_bits_prepend(c, pts);
            lemma_coordinate_round_trip(bits);
            assert(plot_points_bits(seq![c] + pts) + rest =~= coordinate_bits(c.position) + (plot_points_bits(pts)
                + rest));
        }
    }
}

/// The opcode that a byte names writes that byte.
proof fn lemma_opcode_of_byte_inverse(b: u8)
    ensures
        opcode_of_byte(b) matches Some(op) ==> opcode_byte(op) == b,
{
}

/// The arguments of a command read are written back as the bits they were read from.
#[verifier::rlimit(40)]
proof fn lemma_arguments_round_trip(op: PictureCommandOpcode, bits: Seq<bool>, compress: bool, splatter: bool)
    ensures
        parse_arguments(op, bits, compress, splatter) matches PictureParse::Parsed(c, rest) ==> arguments_bits(
            c,
            compress,
        ) + rest == bits && command_opcode(c) == op,
{
    lemma_coordinate_list_round_trip(bits);
    lemma_plot_points_round_trip(bits, splatter);
    if bits.len() >= color_width(compress) {
        lemma_field_round_trip(bits, color_width(compress));
    }
    if bits.len() >= 8 {
        lemma_byte_round_trip(bits);
    }
    if bits.len() >= 16 {
        lemma_coordinate_round_trip(bits);
        lemma_corner_steps_round_trip(bits.skip(16), PictureCornerStepAxis::X);
        lemma_corner_steps_round_trip(bits.skip(16), PictureCornerStepAxis::Y);
        lemma_relative_points_round_trip(bits.skip(16));
        let start = PictureCoordinate { x: byte_of(bits), y: byte_of(bits.skip(8)) };
        if let PictureParse::Parsed(steps, rest) = parse_corner_steps(bits.skip(16), PictureCornerStepAxis::X) {
            assert(coordinate_bits(start) + steps_bits(steps) + rest =~= coordinate_bits(start) + (steps_bits(steps)
                + rest));
        }
        if let PictureParse::Parsed(steps, rest) = parse_corner_steps(bits.skip(16), PictureCornerStepAxis::Y) {
            assert(coordinate_bits(start) + steps_bits(steps) + rest =~= coordinate_bits(start) + (steps_bits(steps)
                + rest));
        }
        if let PictureParse::Parsed(pts, rest) = parse_relative_points(bits.skip(16)) {
            assert(coordinate_bits(start) + relative_points_bits(pts) + rest =~= coordinate_bits(start) + (
            relative_points_bits(pts) + rest));
        }
    }
    if op == PictureCommandOpcode::DisablePictureDraw || op == PictureCommandOpcode::DisablePriorityDraw || op
        == PictureCommandOpcode::End {
        assert(Seq::<bool>::empty() + bits =~= bits);
    }
}

/// A command read is written back as the bits it was read from.
proof fn lemma_command_round_trip(bits: Seq<bool>, compress: bool, splatter: bool)
    ensures
        parse_command(bits, compress, splatter) matches PictureParse::Parsed(c, rest) ==> command_bits(c, compress)
            + rest == bits,
{
    if bits.len() >= 8 {
        let b = byte_of(bits);
        lemma_opcode_of_byte_inverse(b);
        if let Some(op) = opcode_of_byte(b) {
            lemma_arguments_round_trip(op, bits.skip(8), compress, splatter);
            lemma_byte_round_trip(bits);
            if let PictureParse::Parsed(c, rest) = parse_arguments(op, bits.skip(8), compress, splatter) {
                assert(command_bits(c, compress) + rest =~= byte_bits(b) + (arguments_bits(c, compress) + rest));
            }
        }
    }
}

#[verifier::rlimit(80)]
proof fn lemma_commands_round_trip(bits: Seq<bool>, compress: bool, splatter: bool)
    ensures
        parse_commands(bits, compress, splatter) matches PictureParse::Parsed(cs, rest) ==> picture_bits(
            cs,
            compress,
        ) + rest == bits,
    decreases bits.len(),
{
    lemma_command_round_trip(bits, compress, splatter);
    if let PictureParse::Parsed(c, rest) = parse_command(bits, compress, splatter) {
        if c is End {
            assert(picture_bits(Seq::empty(), compress) =~= command_bits(c, compress));
        } else if rest.len() < bits.len() {
            let next_splatter = match c {
                PictureCommandView::ChangePen(s) => s.splatter_of(),
                _ => splatter,
            };
            lemma_commands_round_trip(rest, compress, next_splatter);
            if let PictureParse::Parsed(cs, after) = parse_commands(rest, compress, next_splatter) {
                lemma_commands_bits_prepend(c, cs, compress);
                assert(picture_bits(seq![c] + cs, compress) + after =~= command_bits(c, compress) + (picture_bits(
                    cs,
                    compress,
                ) + after));
            }
        }
    }
}

/// Reading a picture and writing it again gives back every bit that was read:
/// whenever `bits` read as the commands `cs`, with `rest` left after the end
/// command, writing `cs` gives the bits before `rest`.
pub proof fn lemma_picture_read_then_written(bits: Seq<bool>, compress_color_numbers: bool)
    ensures
        parse_picture(bits, compress_color_numbers) matches PictureParse::Parsed(cs, rest) ==> picture_bits(
            cs,
            compress_color_numbers,
        ) + rest == bits,
{
    lemma_commands_round_trip(bits, compress_color_numbers, false);
}

} // verus!
