use vstd::prelude::*;

use crate::picture::{
    PictureCommand, PictureCommandView, PictureCoordinate, PictureCornerStep, PictureCornerStepAxis, PicturePenPlotPoint,
    PicturePenSettings, RelativeLinePoint,
};

verus! {

/// The colours and the pen that a picture's commands have set so far.
#[derive(Debug, Clone, Copy, PartialEq, Eq, Structural)]
pub struct RenderState {
    pub picture_color: Option<u8>,
    pub priority_color: Option<u8>,
    pub pen: PicturePenSettings,
}

/// What a picture command asks to be drawn with the colours and pen in
/// force: straight lines between pairs of points, fills from points, or
/// pen plots.
#[derive(Debug, Clone)]
pub enum RenderAction {
    Nothing,
    Lines(Vec<(PictureCoordinate, PictureCoordinate)>),
    Fill(Vec<PictureCoordinate>),
    Plot(Vec<PicturePenPlotPoint>),
}

pub enum RenderActionView {
    Nothing,
    Lines(Seq<(PictureCoordinate, PictureCoordinate)>),
    Fill(Seq<PictureCoordinate>),
    Plot(Seq<PicturePenPlotPoint>),
}

pub open spec fn action_view(a: RenderAction) -> RenderActionView {
    match a {
        RenderAction::Nothing => RenderActionView::Nothing,
        RenderAction::Lines(v) => RenderActionView::Lines(v@),
        RenderAction::Fill(v) => RenderActionView::Fill(v@),
        RenderAction::Plot(v) => RenderActionView::Plot(v@),
    }
}

/// The colours and pen after a command: colour commands set or clear a
/// colour, a pen change sets the pen, the rest leave them.
pub open spec fn next_render_state(s: RenderState, c: PictureCommandView) -> RenderState {
    match c {
        PictureCommandView::SetPictureColor(n) => RenderState { picture_color: Some(n), ..s },
        PictureCommandView::DisablePictureDraw => RenderState { picture_color: None, ..s },
        PictureCommandView::SetPriorityColor(n) => RenderState { priority_color: Some(n), ..s },
        PictureCommandView::DisablePriorityDraw => RenderState { priority_color: None, ..s },
        PictureCommandView::ChangePen(p) => RenderState { pen: p, ..s },
        _ => s,
    }
}

/// The value of a four-bit displacement: bit 3 the sign, the rest the size.
pub open spec fn signed_of(b: int) -> int {
    if (b / 8) % 2 == 1 {
        -(b % 8)
    } else {
        b % 8
    }
}

/// Where a relative line stands after its first `k` steps, as integers.
pub open spec fn relative_at(start: PictureCoordinate, steps: Seq<RelativeLinePoint>, k: int) -> (int, int)
    decreases k,
{
    if k <= 0 {
        (start.x as int, start.y as int)
    } else {
        let (x, y) = relative_at(start, steps, k - 1);
        (x + signed_of((steps[k - 1].raw() / 16) as int), y + signed_of((steps[k - 1].raw() % 16) as int))
    }
}

/// Every point of a relative line lies on the byte grid.
pub open spec fn relative_line_fits_spec(start: PictureCoordinate, steps: Seq<RelativeLinePoint>) -> bool {
    forall|k: int|
        0 <= k <= steps.len() ==> 0 <= (#[trigger] relative_at(start, steps, k)).0 <= 255 && 0 <= relative_at(
            start,
            steps,
            k,
        ).1 <= 255
}

/// The points of a relative line.
pub open spec fn relative_points(start: PictureCoordinate, steps: Seq<RelativeLinePoint>) -> Seq<PictureCoordinate> {
    Seq::new(
        steps.len() + 1,
        |k: int| PictureCoordinate { x: relative_at(start, steps, k).0 as u8, y: relative_at(start, steps, k).1 as u8 },
    )
}

/// Where a corner line stands after its first `k` steps: each step moves
/// along its axis to its position.
pub open spec fn corner_at(start: PictureCoordinate, steps: Seq<PictureCornerStep>, k: int) -> PictureCoordinate
    decreases k,
{
    if k <= 0 {
        start
    } else {
        let p = corner_at(start, steps, k - 1);
        match steps[k - 1].axis {
            PictureCornerStepAxis::X => PictureCoordinate { x: steps[k - 1].position, y: p.y },
            PictureCornerStepAxis::Y => PictureCoordinate { x: p.x, y: steps[k - 1].position },
        }
    }
}

pub open spec fn corner_points(start: PictureCoordinate, steps: Seq<PictureCornerStep>) -> Seq<PictureCoordinate> {
    Seq::new(steps.len() + 1, |k: int| corner_at(start, steps, k))
}

/// The lines between each point and the next.
pub open spec fn chain_segments(points: Seq<PictureCoordinate>) -> Seq<(PictureCoordinate, PictureCoordinate)> {
    Seq::new(
        if points.len() > 0 {
            (points.len() - 1) as nat
        } else {
            0
        },
        |i: int| (points[i], points[i + 1]),
    )
}

/// What a command draws.
pub open spec fn render_action_of(c: PictureCommandView) -> RenderActionView {
    match c {
        PictureCommandView::AbsoluteLine(points) => RenderActionView::Lines(chain_segments(points)),
        PictureCommandView::RelativeLine(start, steps) => RenderActionView::Lines(
            chain_segments(relative_points(start, steps)),
        ),
        PictureCommandView::DrawYCorner(start, steps) => RenderActionView::Lines(chain_segments(corner_points(start, steps))),
        PictureCommandView::DrawXCorner(start, steps) => RenderActionView::Lines(chain_segments(corner_points(start, steps))),
        PictureCommandView::Fill(points) => RenderActionView::Fill(points),
        PictureCommandView::PlotWithPen(points) => RenderActionView::Plot(points),
        _ => RenderActionView::Nothing,
    }
}

/// A command can be drawn: a relative line stays on the byte grid.
pub open spec fn command_drawable(c: PictureCommandView) -> bool {
    match c {
        PictureCommandView::RelativeLine(start, steps) => relative_line_fits_spec(start, steps),
        _ => true,
    }
}

/// Whether every point of a relative line lies on the byte grid.
pub fn relative_line_fits(start: &PictureCoordinate, steps: &Vec<RelativeLinePoint>) -> (r: bool)
    ensures
        r == relative_line_fits_spec(*start, steps@),
{
    let mut x: i32 = start.x as i32;
    let mut y: i32 = start.y as i32;
    let mut k: usize = 0;
    while k < steps.len()
        invariant
            k <= steps@.len(),
            (x as int, y as int) == relative_at(*start, steps@, k as int),
            0 <= x <= 255,
            0 <= y <= 255,
            forall|j: int|
                0 <= j <= k ==> 0 <= (#[trigger] relative_at(*start, steps@, j)).0 <= 255 && 0 <= relative_at(
                    *start,
                    steps@,
                    j,
                ).1 <= 255,
        decreases steps@.len() - k,
    {
        let dx = steps[k].x_displacement().value();
        let dy = steps[k].y_displacement().value();
        x = x + dx as i32;
        y = y + dy as i32;
        k = k + 1;
        if x < 0 || x > 255 || y < 0 || y > 255 {
            proof {
                let rk = relative_at(*start, steps@, k as int);
                assert(rk == (x as int, y as int));
                assert(!(0 <= rk.0 <= 255 && 0 <= rk.1 <= 255));
            }
            return false;
        }
    }
    true
}

fn line_segments_of(points: &Vec<PictureCoordinate>) -> (r: Vec<(PictureCoordinate, PictureCoordinate)>)
    ensures
        r@ == chain_segments(points@),
{
    let mut r: Vec<(PictureCoordinate, PictureCoordinate)> = Vec::new();
    let mut i: usize = 1;
    while i < points.len()
        invariant
            1 <= i,
            i <= points@.len() || points@.len() == 0,
            points@.len() == 0 ==> i == 1,
            r@.len() == i - 1,
            forall|j: int| 0 <= j < i - 1 ==> #[trigger] r@[j] == (points@[j], points@[j + 1]),
        decreases points@.len() - i,
    {
        r.push((points[i - 1], points[i]));
        i = i + 1;
    }
    proof {
        let c = chain_segments(points@);
        if points@.len() > 0 {
            assert(i == points@.len());
        }
        assert(r@.len() == c.len());
        assert forall|j: int| 0 <= j < c.len() implies r@[j] == c[j] by {
            assert(r@[j] == (points@[j], points@[j + 1]));
        }
        assert(r@ =~= c);
    }
    r
}

fn corner_segments(start: &PictureCoordinate, steps: &Vec<PictureCornerStep>) -> (r: Vec<(PictureCoordinate, PictureCoordinate)>)
    ensures
        r@ == chain_segments(corner_points(*start, steps@)),
{
    let ghost pts = corner_points(*start, steps@);
    let mut r: Vec<(PictureCoordinate, PictureCoordinate)> = Vec::new();
    let mut last = *start;
    let mut k: usize = 0;
    while k < steps.len()
        invariant
            k <= steps@.len(),
            pts == corner_points(*start, steps@),
            last == corner_at(*start, steps@, k as int),
            r@.len() == k,
            forall|j: int| 0 <= j < k ==> #[trigger] r@[j] == (pts[j], pts[j + 1]),
        decreases steps@.len() - k,
    {
        let step = steps[k];
        let point = match step.axis {
            PictureCornerStepAxis::X => PictureCoordinate { x: step.position, y: last.y },
            PictureCornerStepAxis::Y => PictureCoordinate { x: last.x, y: step.position },
        };
        r.push((last, point));
        last = point;
        k = k + 1;
    }
    assert(r@ =~= chain_segments(pts));
    r
}

fn relative_segments(start: &PictureCoordinate, steps: &Vec<RelativeLinePoint>) -> (r: Vec<(PictureCoordinate, PictureCoordinate)>)
    requires
        relative_line_fits_spec(*start, steps@),
    ensures
        r@ == chain_segments(relative_points(*start, steps@)),
{
    let ghost pts = relative_points(*start, steps@);
    let mut r: Vec<(PictureCoordinate, PictureCoordinate)> = Vec::new();
    let mut last = *start;
    let mut k: usize = 0;
    proof {
        assert(0 <= relative_at(*start, steps@, 0).0 <= 255);
    }
    while k < steps.len()
        invariant
            k <= steps@.len(),
            pts == relative_points(*start, steps@),
            relative_line_fits_spec(*start, steps@),
            last == pts[k as int],
            (last.x as int, last.y as int) == relative_at(*start, steps@, k as int),
            r@.len() == k,
            forall|j: int| 0 <= j < k ==> #[trigger] r@[j] == (pts[j], pts[j + 1]),
        decreases steps@.len() - k,
    {
        let dx = steps[k].x_displacement().value();
        let dy = steps[k].y_displacement().value();
        proof {
            assert(0 <= relative_at(*start, steps@, k + 1).0 <= 255);
        }
        let point = PictureCoordinate { x: (last.x as i32 + dx as i32) as u8, y: (last.y as i32 + dy as i32) as u8 };
        r.push((last, point));
        last = point;
        k = k + 1;
    }
    assert(r@ =~= chain_segments(pts));
    r
}

fn copy_points(points: &Vec<PictureCoordinate>) -> (r: Vec<PictureCoordinate>)
    ensures
        r@ == points@,
{
    let mut r: Vec<PictureCoordinate> = Vec::new();
    let mut k: usize = 0;
    while k < points.len()
        invariant
            k <= points@.len(),
            r@ == points@.take(k as int),
        decreases points@.len() - k,
    {
        r.push(points[k]);
        k = k + 1;
        assert(r@ =~= points@.take(k as int));
    }
    assert(points@.take(k as int) =~= points@);
    r
}

fn copy_plot_points(points: &Vec<PicturePenPlotPoint>) -> (r: Vec<PicturePenPlotPoint>)
    ensures
        r@ == points@,
{
    let mut r: Vec<PicturePenPlotPoint> = Vec::new();
    let mut k: usize = 0;
    while k < points.len()
        invariant
            k <= points@.len(),
            r@ == points@.take(k as int),
        decreases points@.len() - k,
    {
        r.push(points[k]);
        k = k + 1;
        assert(r@ =~= points@.take(k as int));
    }
    assert(points@.take(k as int) =~= points@);
    r
}

/// One step of rendering: the colours and pen after `command`, and what it
/// asks to be drawn with the colours and pen in force.
pub fn render_step(state: RenderState, command: &PictureCommand) -> (r: (RenderState, RenderAction))
    requires
        command_drawable(command@),
    ensures
        r.0 == next_render_state(state, command@),
        action_view(r.1) == render_action_of(command@),
{
    match command {
        PictureCommand::SetPictureColor(c) => (RenderState { picture_color: Some(c.color_number), ..state }, RenderAction::Nothing),
        PictureCommand::DisablePictureDraw(_) => (RenderState { picture_color: None, ..state }, RenderAction::Nothing),
        PictureCommand::SetPriorityColor(c) => (RenderState { priority_color: Some(c.color_number), ..state }, RenderAction::Nothing),
        PictureCommand::DisablePriorityDraw(_) => (RenderState { priority_color: None, ..state }, RenderAction::Nothing),
        PictureCommand::AbsoluteLine(c) => (state, RenderAction::Lines(line_segments_of(&c.points))),
        PictureCommand::RelativeLine(c) => (state, RenderAction::Lines(relative_segments(&c.start_position, &c.relative_points))),
        PictureCommand::DrawYCorner(c) => (state, RenderAction::Lines(corner_segments(&c.start_position, &c.steps))),
        PictureCommand::DrawXCorner(c) => (state, RenderAction::Lines(corner_segments(&c.start_position, &c.steps))),
        PictureCommand::Fill(c) => (state, RenderAction::Fill(copy_points(&c.start_positions))),
        PictureCommand::ChangePen(c) => (RenderState { pen: c.settings, ..state }, RenderAction::Nothing),
        PictureCommand::PlotWithPen(c) => (state, RenderAction::Plot(copy_plot_points(&c.points))),
        PictureCommand::End(_) => (state, RenderAction::Nothing),
    }
}

} // verus!
