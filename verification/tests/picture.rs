use agikit::color_palettes::ega_palette;
use agikit::picture::render::{
    default_pen_settings, rectangle_masks, PixelBuffer, RenderedPicture,
};
use agikit::picture::{
    AbsoluteLinePictureCommand, FillPictureCommand, Picture, PictureCommand,
    PictureCoordinate, SetPictureColorPictureCommand, SetPriorityColorPictureCommand,
};

#[test]
pub fn test_pen_mask_parsing() {
    let masks = rectangle_masks();
    let rectangle1 = &masks[1];
    assert_eq!(2, rectangle1.width);
    assert_eq!(3, rectangle1.height);
    assert_eq!(1, rectangle1.origin.x);
    assert_eq!(1, rectangle1.origin.y);
    for pixel in rectangle1.mask.iter() {
        assert_eq!(true, *pixel);
    }
}

#[test]
fn pixel_buffer_reads_back_what_it_set() {
    let mut buffer = PixelBuffer::new(4, 3, 0u8);
    assert_eq!(buffer.buffer.len(), 12);
    buffer.set_pixel(&PictureCoordinate { x: 2, y: 1 }, &7);
    assert_eq!(buffer.get_pixel(&PictureCoordinate { x: 2, y: 1 }), Some(7));
    assert_eq!(buffer.get_pixel(&PictureCoordinate { x: 1, y: 1 }), Some(0));
    assert_eq!(buffer.get_pixel(&PictureCoordinate { x: 0, y: 3 }), None);
}

#[test]
fn plot_with_smallest_pen_paints_its_mask() {
    let pen = default_pen_settings();
    let masks = rectangle_masks();
    let mask = &masks[pen.size() as usize];
    let mut buffer = PixelBuffer::new(8, 8, 0u8);
    buffer.plot_with_pen(&PictureCoordinate { x: 3, y: 3 }, pen, None, 9);
    let painted = buffer.buffer.iter().filter(|p| **p == 9).count();
    let cells = mask.mask.iter().filter(|m| **m).count();
    assert_eq!(painted, cells);
    assert_eq!(buffer.get_pixel(&PictureCoordinate { x: 3, y: 3 }), Some(9));
}

fn walled_picture() -> RenderedPicture {
    // a 5 by 3 picture, white, with a black wall in column 2
    let mut visual = PixelBuffer::new(5, 3, 15u8);
    for y in 0..3 {
        visual.set_pixel(&PictureCoordinate { x: 2, y }, &0);
    }
    RenderedPicture {
        visual_buffer: visual,
        priority_buffer: PixelBuffer::new(5, 3, 4u8),
    }
}

#[test]
fn flood_fill_stops_at_walls() {
    let mut picture = walled_picture();
    picture.flood_fill(&PictureCoordinate { x: 0, y: 1 }, Some(6), Some(9));
    for y in 0..3u8 {
        for x in 0..5u8 {
            let pos = PictureCoordinate { x, y };
            let visual = picture.visual_buffer.get_pixel(&pos).unwrap();
            let priority = picture.priority_buffer.get_pixel(&pos).unwrap();
            if x < 2 {
                assert_eq!((visual, priority), (6, 9));
            } else if x == 2 {
                assert_eq!((visual, priority), (0, 4));
            } else {
                assert_eq!((visual, priority), (15, 4));
            }
        }
    }
}

#[test]
fn flood_fill_on_a_wall_does_nothing() {
    let mut picture = walled_picture();
    picture.flood_fill(&PictureCoordinate { x: 2, y: 0 }, Some(6), None);
    assert_eq!(picture.visual_buffer.buffer.iter().filter(|p| **p == 6).count(), 0);
}

#[test]
fn priority_fill_uses_priority_background() {
    let mut picture = walled_picture();
    picture.flood_fill(&PictureCoordinate { x: 4, y: 2 }, None, Some(11));
    assert!(picture.priority_buffer.buffer.iter().all(|p| *p == 11));
    assert_eq!(picture.visual_buffer.get_pixel(&PictureCoordinate { x: 4, y: 2 }), Some(15));
}

fn sample_picture() -> Picture {
    Picture {
        commands: vec![
            PictureCommand::SetPictureColor(SetPictureColorPictureCommand { color_number: 3 }),
            PictureCommand::SetPriorityColor(SetPriorityColorPictureCommand { color_number: 5 }),
            PictureCommand::AbsoluteLine(AbsoluteLinePictureCommand {
                points: vec![PictureCoordinate { x: 1, y: 2 }, PictureCoordinate { x: 30, y: 40 }],
            }),
            PictureCommand::Fill(FillPictureCommand {
                start_positions: vec![PictureCoordinate { x: 5, y: 6 }],
            }),
        ],
    }
}

#[test]
fn picture_written_then_read_gives_the_commands_back() {
    for compress in [false, true] {
        let picture = sample_picture();
        let bytes = picture.encode_bitstream(compress).expect("encoding failed");
        let decoded = Picture::decode_bitstream(&bytes, compress).expect("decoding failed");
        assert_eq!(format!("{:?}", decoded.commands), format!("{:?}", picture.commands));
    }
}

#[test]
fn picture_bytes_are_as_expected() {
    let bytes = sample_picture().encode_bitstream(false).expect("encoding failed");
    assert_eq!(bytes, vec![0xf0, 3, 0xf2, 5, 0xf6, 1, 2, 30, 40, 0xf8, 5, 6, 0xff]);
    // with four-bit colors the two colors share a byte's worth of bits
    let packed = sample_picture().encode_bitstream(true).expect("encoding failed");
    assert_eq!(packed, vec![0xf0, 0x3f, 0x25, 0xf6, 1, 2, 30, 40, 0xf8, 5, 6, 0xff]);
}

#[test]
fn pen_fits_tells_whether_a_plot_stays_in_the_buffer() {
    let pen = default_pen_settings();
    let buffer = PixelBuffer::new(8, 8, 0u8);
    assert!(buffer.pen_fits(&PictureCoordinate { x: 3, y: 3 }, pen, None));
    assert!(!buffer.pen_fits(&PictureCoordinate { x: 3, y: 8 }, pen, None));
    assert!(buffer.pixel_in_buffer(&PictureCoordinate { x: 7, y: 7 }));
    assert!(!buffer.pixel_in_buffer(&PictureCoordinate { x: 0, y: 8 }));
}

#[test]
fn pixels_become_rgba_bytes_through_the_palette() {
    let mut buffer = PixelBuffer::new(2, 1, 1u8);
    buffer.set_pixel(&PictureCoordinate { x: 1, y: 0 }, &14);
    let rgba = buffer.to_rgba_data(&ega_palette());
    assert_eq!(rgba, vec![0x00, 0x00, 0xaa, 0xff, 0xff, 0xff, 0x55, 0xff]);
}

#[test]
fn palette_covers_tells_whether_every_pixel_has_a_colour() {
    let mut buffer = PixelBuffer::new(2, 1, 1u8);
    assert!(buffer.palette_covers(&ega_palette()));
    buffer.set_pixel(&PictureCoordinate { x: 0, y: 0 }, &16);
    assert!(!buffer.palette_covers(&ega_palette()));
}
