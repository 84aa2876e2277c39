use agikit::picture::render::default_pen_settings;
use agikit::picture::render_steps::{relative_line_fits, render_step, RenderAction, RenderState};
use agikit::picture::{
    AbsoluteLinePictureCommand, DisablePictureDrawPictureCommand, DrawXCornerPictureCommand, FillPictureCommand,
    PictureCommand, PictureCoordinate, PictureCornerStep, PictureCornerStepAxis, RelativeLinePictureCommand,
    RelativeLinePoint, SetPictureColorPictureCommand,
};

fn at(x: u8, y: u8) -> PictureCoordinate {
    PictureCoordinate { x, y }
}

fn start_state() -> RenderState {
    RenderState { picture_color: None, priority_color: Some(4), pen: default_pen_settings() }
}

#[test]
fn colour_commands_set_and_clear_the_colours() {
    let set = PictureCommand::SetPictureColor(SetPictureColorPictureCommand { color_number: 9 });
    let (state, action) = render_step(start_state(), &set);
    assert_eq!(state.picture_color, Some(9));
    assert_eq!(state.priority_color, Some(4));
    assert!(matches!(action, RenderAction::Nothing));
    let clear = PictureCommand::DisablePictureDraw(DisablePictureDrawPictureCommand);
    let (state, _) = render_step(state, &clear);
    assert_eq!(state.picture_color, None);
}

#[test]
fn an_absolute_line_draws_between_consecutive_points() {
    let line = PictureCommand::AbsoluteLine(AbsoluteLinePictureCommand { points: vec![at(1, 1), at(5, 1), at(5, 9)] });
    let (state, action) = render_step(start_state(), &line);
    assert_eq!(state, start_state());
    match action {
        RenderAction::Lines(segments) => assert_eq!(segments, vec![(at(1, 1), at(5, 1)), (at(5, 1), at(5, 9))]),
        _ => panic!("a line draws lines"),
    }
    let single = PictureCommand::AbsoluteLine(AbsoluteLinePictureCommand { points: vec![at(1, 1)] });
    match render_step(start_state(), &single).1 {
        RenderAction::Lines(segments) => assert!(segments.is_empty()),
        _ => panic!("a line draws lines"),
    }
}

#[test]
fn a_corner_alternates_its_axes() {
    let corner = PictureCommand::DrawXCorner(DrawXCornerPictureCommand {
        start_position: at(10, 20),
        steps: vec![
            PictureCornerStep { axis: PictureCornerStepAxis::X, position: 30 },
            PictureCornerStep { axis: PictureCornerStepAxis::Y, position: 40 },
        ],
    });
    match render_step(start_state(), &corner).1 {
        RenderAction::Lines(segments) => {
            assert_eq!(segments, vec![(at(10, 20), at(30, 20)), (at(30, 20), at(30, 40))])
        }
        _ => panic!("a corner draws lines"),
    }
}

#[test]
fn a_relative_line_adds_its_displacements() {
    // x + 2, y - 3 (sign bit set in the low nibble), then x - 1, y + 0
    let steps = vec![RelativeLinePoint::from_bits(0x2B), RelativeLinePoint::from_bits(0x90)];
    assert!(relative_line_fits(&at(10, 10), &steps));
    let line = PictureCommand::RelativeLine(RelativeLinePictureCommand { start_position: at(10, 10), relative_points: steps });
    match render_step(start_state(), &line).1 {
        RenderAction::Lines(segments) => {
            assert_eq!(segments, vec![(at(10, 10), at(12, 7)), (at(12, 7), at(11, 7))])
        }
        _ => panic!("a relative line draws lines"),
    }
}

#[test]
fn a_relative_line_off_the_grid_does_not_fit() {
    let steps = vec![RelativeLinePoint::from_bits(0x0B)];
    assert!(!relative_line_fits(&at(1, 1), &steps));
    assert!(relative_line_fits(&at(1, 3), &steps));
}

#[test]
fn a_fill_hands_on_its_start_points() {
    let fill = PictureCommand::Fill(FillPictureCommand { start_positions: vec![at(3, 4), at(7, 8)] });
    match render_step(start_state(), &fill).1 {
        RenderAction::Fill(points) => assert_eq!(points, vec![at(3, 4), at(7, 8)]),
        _ => panic!("a fill fills"),
    }
}
