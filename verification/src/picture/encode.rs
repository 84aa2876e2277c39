use vstd::prelude::*;

use crate::compression::bitstreams::{
    be_bits_of, msb_write_var, msb_writer_bits, msb_writer_into_bytes, msb_writer_new, pow2_nat,
    bytes_to_bits_be, MsbBitWriter,
};
use crate::logic::encode::EncodingError;
use crate::picture::decode::color_width;
use crate::picture::{
    command_opcode, commands_view, opcode_byte, Picture, PictureCommand, PictureCommandOpcode,
    PictureCommandView, PictureCoordinate, PictureCornerStep, PicturePenPlotPoint,
    RelativeLinePoint,
};

verus! {

/// The eight bits of a byte, most significant first.
pub open spec fn byte_bits(b: u8) -> Seq<bool> {
    be_bits_of(b as nat, 8)
}

pub open spec fn coordinate_bits(c: PictureCoordinate) -> Seq<bool> {
    byte_bits(c.x) + byte_bits(c.y)
}

pub open spec fn coordinates_bits(s: Seq<PictureCoordinate>) -> Seq<bool>
    decreases s.len(),
{
    if s.len() == 0 {
        Seq::empty()
    } else {
        coordinates_bits(s.drop_last()) + coordinate_bits(s.last())
    }
}

/// Corner steps write their positions only; the axis alternates by itself.
pub open spec fn steps_bits(s: Seq<PictureCornerStep>) -> Seq<bool>
    decreases s.len(),
{
    if s.len() == 0 {
        Seq::empty()
    } else {
        steps_bits(s.drop_last()) + byte_bits(s.last().position)
    }
}

pub open spec fn relative_points_bits(s: Seq<RelativeLinePoint>) -> Seq<bool>
    decreases s.len(),
{
    if s.len() == 0 {
        Seq::empty()
    } else {
        relative_points_bits(s.drop_last()) + byte_bits(s.last().raw())
    }
}

/// A plot writes its texture, when it has one, before its coordinate.
pub open spec fn plot_point_bits(p: PicturePenPlotPoint) -> Seq<bool> {
    match p.texture {
        Some(t) => byte_bits(t) + coordinate_bits(p.position),
        None => coordinate_bits(p.position),
    }
}

pub open spec fn plot_points_bits(s: Seq<PicturePenPlotPoint>) -> Seq<bool>
    decreases s.len(),
{
    if s.len() == 0 {
        Seq::empty()
    } else {
        plot_points_bits(s.drop_last()) + plot_point_bits(s.last())
    }
}

/// The arguments of a command.
pub open spec fn arguments_bits(c: PictureCommandView, compress_color_numbers: bool) -> Seq<bool> {
    match c {
        PictureCommandView::SetPictureColor(n) => be_bits_of(n as nat, color_width(compress_color_numbers)),
        PictureCommandView::SetPriorityColor(n) => be_bits_of(n as nat, color_width(compress_color_numbers)),
        PictureCommandView::DrawYCorner(start, steps) => coordinate_bits(start) + steps_bits(steps),
        PictureCommandView::DrawXCorner(start, steps) => coordinate_bits(start) + steps_bits(steps),
        PictureCommandView::AbsoluteLine(points) => coordinates_bits(points),
        PictureCommandView::RelativeLine(start, points) => coordinate_bits(start) + relative_points_bits(points),
        PictureCommandView::Fill(points) => coordinates_bits(points),
        PictureCommandView::ChangePen(settings) => byte_bits(settings.raw()),
        PictureCommandView::PlotWithPen(points) => plot_points_bits(points),
        _ => Seq::empty(),
    }
}

/// A command: its opcode byte, then its arguments.
pub open spec fn command_bits(c: PictureCommandView, compress_color_numbers: bool) -> Seq<bool> {
    byte_bits(opcode_byte(command_opcode(c))) + arguments_bits(c, compress_color_numbers)
}

pub open spec fn commands_bits(cs: Seq<PictureCommandView>, compress_color_numbers: bool) -> Seq<bool>
    decreases cs.len(),
{
    if cs.len() == 0 {
        Seq::empty()
    } else {
        commands_bits(cs.drop_last(), compress_color_numbers) + command_bits(cs.last(), compress_color_numbers)
    }
}

/// A picture: its commands, then the end opcode.
pub open spec fn picture_bits(cs: Seq<PictureCommandView>, compress_color_numbers: bool) -> Seq<bool> {
    commands_bits(cs, compress_color_numbers) + byte_bits(0xff)
}

/// The color number of a command fits in the width colors are written in.
pub open spec fn color_fits(c: PictureCommandView, compress_color_numbers: bool) -> bool {
    match c {
        PictureCommandView::SetPictureColor(n) => n < pow2_nat(color_width(compress_color_numbers)),
        PictureCommandView::SetPriorityColor(n) => n < pow2_nat(color_width(compress_color_numbers)),
        _ => true,
    }
}

pub open spec fn colors_fit(cs: Seq<PictureCommandView>, compress_color_numbers: bool) -> bool {
    forall|i: int| 0 <= i < cs.len() ==> #[trigger] color_fits(cs[i], compress_color_numbers)
}

/// The whole bytes of a stream of bits; the bits of a last byte not yet
/// complete are dropped.
pub open spec fn whole_bytes(bits: Seq<bool>) -> Seq<bool> {
    bits.take(8 * (bits.len() / 8) as int)
}

fn write_byte(w: &mut MsbBitWriter, b: u8)
    ensures
        msb_writer_bits(*final(w)) == msb_writer_bits(*old(w)) + byte_bits(b),
{
    proof {
        reveal_with_fuel(pow2_nat, 9);
    }
    let r = msb_write_var(w, 8, b as u32);
}

fn write_coordinate(w: &mut MsbBitWriter, c: &PictureCoordinate)
    ensures
        msb_writer_bits(*final(w)) == msb_writer_bits(*old(w)) + coordinate_bits(*c),
{
    write_byte(w, c.x);
    write_byte(w, c.y);
    assert(msb_writer_bits(*w) =~= msb_writer_bits(*old(w)) + coordinate_bits(*c));
}

fn write_coordinates(w: &mut MsbBitWriter, points: &Vec<PictureCoordinate>)
    ensures
        msb_writer_bits(*final(w)) == msb_writer_bits(*old(w)) + coordinates_bits(points@),
{
    let mut i: usize = 0;
    while i < points.len()
        invariant
            0 <= i <= points@.len(),
            msb_writer_bits(*w) == msb_writer_bits(*old(w)) + coordinates_bits(points@.take(i as int)),
        decreases points@.len() - i,
    {
        write_coordinate(w, &points[i]);
        proof {
            assert(points@.take(i + 1).drop_last() =~= points@.take(i as int));
        }
        i = i + 1;
        assert(msb_writer_bits(*w) =~= msb_writer_bits(*old(w)) + coordinates_bits(points@.take(i as int)));
    }
    assert(points@.take(points@.len() as int) =~= points@);
}

fn write_steps(w: &mut MsbBitWriter, steps: &Vec<PictureCornerStep>)
    ensures
        msb_writer_bits(*final(w)) == msb_writer_bits(*old(w)) + steps_bits(steps@),
{
    let mut i: usize = 0;
    while i < steps.len()
        invariant
            0 <= i <= steps@.len(),
            msb_writer_bits(*w) == msb_writer_bits(*old(w)) + steps_bits(steps@.take(i as int)),
        decreases steps@.len() - i,
    {
        write_byte(w, steps[i].position);
        proof {
            assert(steps@.take(i + 1).drop_last() =~= steps@.take(i as int));
        }
        i = i + 1;
        assert(msb_writer_bits(*w) =~= msb_writer_bits(*old(w)) + steps_bits(steps@.take(i as int)));
    }
    assert(steps@.take(steps@.len() as int) =~= steps@);
}

fn write_relative_points(w: &mut MsbBitWriter, points: &Vec<RelativeLinePoint>)
    ensures
        msb_writer_bits(*final(w)) == msb_writer_bits(*old(w)) + relative_points_bits(points@),
{
    let mut i: usize = 0;
    while i < points.len()
        invariant
            0 <= i <= points@.len(),
            msb_writer_bits(*w) == msb_writer_bits(*old(w)) + relative_points_bits(points@.take(i as int)),
        decreases points@.len() - i,
    {
        write_byte(w, points[i].into_bits());
        proof {
            assert(points@.take(i + 1).drop_last() =~= points@.take(i as int));
        }
        i = i + 1;
        assert(msb_writer_bits(*w) =~= msb_writer_bits(*old(w)) + relative_points_bits(points@.take(i as int)));
    }
    assert(points@.take(points@.len() as int) =~= points@);
}

fn write_plot_points(w: &mut MsbBitWriter, points: &Vec<PicturePenPlotPoint>)
    ensures
        msb_writer_bits(*final(w)) == msb_writer_bits(*old(w)) + plot_points_bits(points@),
{
    let mut i: usize = 0;
    while i < points.len()
        invariant
            0 <= i <= points@.len(),
            msb_writer_bits(*w) == msb_writer_bits(*old(w)) + plot_points_bits(points@.take(i as int)),
        decreases points@.len() - i,
    {
        let ghost before = msb_writer_bits(*w);
        let point = points[i];
        match point.texture {
            Some(t) => {
                write_byte(w, t);
            },
            None => {},
        }
        write_coordinate(w, &point.position);
        proof {
            assert(msb_writer_bits(*w) =~= before + plot_point_bits(point));
            assert(points@.take(i + 1).drop_last() =~= points@.take(i as int));
        }
        i = i + 1;
        assert(msb_writer_bits(*w) =~= msb_writer_bits(*old(w)) + plot_points_bits(points@.take(i as int)));
    }
    assert(points@.take(points@.len() as int) =~= points@);
}

impl PictureCommand {
    /// Writes the command: its opcode byte, then its arguments. A color number
    /// too large for its width is refused by the writer.
    pub fn encode_bitstream(&self, out: &mut MsbBitWriter, compress_color_numbers: bool) -> (r: Result<(), EncodingError>)
        ensures
            color_fits(self@, compress_color_numbers) ==> r is Ok && msb_writer_bits(*final(out))
                == msb_writer_bits(*old(out)) + command_bits(self@, compress_color_numbers),
            !color_fits(self@, compress_color_numbers) ==> r matches Err(EncodingError::Io(_)),
    {
        let color_bits: u32 = if compress_color_numbers {
            4
        } else {
            8
        };
        proof {
            reveal_with_fuel(pow2_nat, 9);
        }
        write_byte(out, self.opcode().into_u8());
        let ghost after_opcode = msb_writer_bits(*out);
        match self {
            PictureCommand::SetPictureColor(command) => {
                match msb_write_var(out, color_bits, command.color_number as u32) {
                    Ok(()) => {},
                    Err(e) => {
                        return Err(EncodingError::Io(e));
                    },
                }
            },
            PictureCommand::DisablePictureDraw(_) => {},
            PictureCommand::SetPriorityColor(command) => {
                match msb_write_var(out, color_bits, command.color_number as u32) {
                    Ok(()) => {},
                    Err(e) => {
                        return Err(EncodingError::Io(e));
                    },
                }
            },
            PictureCommand::DisablePriorityDraw(_) => {},
            PictureCommand::DrawYCorner(command) => {
                write_coordinate(out, &command.start_position);
                write_steps(out, &command.steps);
            },
            PictureCommand::DrawXCorner(command) => {
                write_coordinate(out, &command.start_position);
                write_steps(out, &command.steps);
            },
            PictureCommand::AbsoluteLine(command) => {
                write_coordinates(out, &command.points);
            },
            PictureCommand::RelativeLine(command) => {
                write_coordinate(out, &command.start_position);
                write_relative_points(out, &command.relative_points);
            },
            PictureCommand::Fill(command) => {
                write_coordinates(out, &command.start_positions);
            },
            PictureCommand::ChangePen(command) => {
                write_byte(out, command.settings.into_bits());
            },
            PictureCommand::PlotWithPen(command) => {
                write_plot_points(out, &command.points);
            },
            PictureCommand::End(_) => {},
        }
        assert(msb_writer_bits(*out) =~= msb_writer_bits(*old(out)) + command_bits(self@, compress_color_numbers));
        Ok(())
    }
}

impl Picture {
    /// Writes the picture, most significant bit first: each command, then the
    /// end opcode. The whole bytes written are returned; a color number too
    /// large for its width is refused.
    pub fn encode_bitstream(&self, compress_color_numbers: bool) -> (r: Result<Vec<u8>, EncodingError>)
        ensures
            colors_fit(self@, compress_color_numbers) ==> (r matches Ok(out) && bytes_to_bits_be(out@)
                == whole_bytes(picture_bits(self@, compress_color_numbers))),
            !colors_fit(self@, compress_color_numbers) ==> r matches Err(EncodingError::Io(_)),
    {
        let mut out = msb_writer_new();
        let mut i: usize = 0;
        while i < self.commands.len()
            invariant
                0 <= i <= self.commands@.len(),
                colors_fit(commands_view(self.commands@.take(i as int)), compress_color_numbers),
                msb_writer_bits(out) == commands_bits(commands_view(self.commands@.take(i as int)), compress_color_numbers),
            decreases self.commands@.len() - i,
        {
            let ghost before = commands_view(self.commands@.take(i as int));
            let ghost now = commands_view(self.commands@.take(i + 1));
            proof {
                assert(now =~= before.push(self.commands@[i as int]@));
            }
            match self.commands[i].encode_bitstream(&mut out, compress_color_numbers) {
                Ok(()) => {},
                Err(e) => {
                    assert(!color_fits(self@[i as int], compress_color_numbers));
                    return Err(e);
                },
            }
            proof {
                assert(now.drop_last() =~= before);
            }
            i = i + 1;
        }
        proof {
            assert(self.commands@.take(self.commands@.len() as int) =~= self.commands@);
        }
        write_byte(&mut out, PictureCommandOpcode::End.into_u8());
        Ok(msb_writer_into_bytes(out))
    }
}

} // verus!
