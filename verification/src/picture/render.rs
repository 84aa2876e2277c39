//! Drawing a picture into pixel buffers: pens, textures and flood fill.

use vstd::prelude::*;

use crate::color_palettes::{rgba_of, ColorPalette};
use vstd::string::StringSliceAdditionalSpecFns;

use crate::picture::{PictureCoordinate, PicturePenSettings, PicturePenShape};

verus! {

/// A pen's footprint: `width` by `height` cells, row by row, with the cell
/// that sits on the plotted point at `origin`.
#[derive(Debug, Clone)]
pub struct PicturePenMask {
    pub origin: PictureCoordinate,
    pub width: u8,
    pub height: u8,
    pub mask: Vec<bool>,
}

// Pen masks are drawn as text: `X` marks a cell of the pen, `*` the cell on
// the plotted point, a space a cell left out. Lines without a mark are left out.

/// The lines of a text, split at each newline.
pub open spec fn art_lines(b: Seq<u8>) -> Seq<Seq<u8>>
    decreases b.len(),
{
    if b.len() == 0 {
        seq![Seq::empty()]
    } else {
        let ls = art_lines(b.drop_last());
        if b.last() == 10 {
            ls.push(Seq::empty())
        } else {
            ls.update(ls.len() - 1, ls.last().push(b.last()))
        }
    }
}

/// A line holds something besides spaces.
pub open spec fn marked(l: Seq<u8>) -> bool {
    exists|i: int| 0 <= i < l.len() && l[i] != 32
}

/// The lines that hold a mark, in order.
pub open spec fn marked_lines(ls: Seq<Seq<u8>>) -> Seq<Seq<u8>>
    decreases ls.len(),
{
    if ls.len() == 0 {
        Seq::empty()
    } else if marked(ls.last()) {
        marked_lines(ls.drop_last()).push(ls.last())
    } else {
        marked_lines(ls.drop_last())
    }
}

/// The rows of a pen drawing.
pub open spec fn art_rows(b: Seq<u8>) -> Seq<Seq<u8>> {
    marked_lines(art_lines(b))
}

/// The length of the longest row.
pub open spec fn max_len(rows: Seq<Seq<u8>>) -> nat
    decreases rows.len(),
{
    if rows.len() == 0 {
        0
    } else {
        let m = max_len(rows.drop_last());
        if rows.last().len() > m {
            rows.last().len()
        } else {
            m
        }
    }
}

/// Whether the cell at `p`, row by row with rows of `w` cells, is part of the pen.
pub open spec fn cell_on(rows: Seq<Seq<u8>>, w: int, p: int) -> bool {
    let y = p / w;
    let x = p % w;
    x < rows[y].len() && (rows[y][x] == 88 || rows[y][x] == 42)
}

/// Whether the cell at `p` is the one on the plotted point.
pub open spec fn cell_is_origin(rows: Seq<Seq<u8>>, w: int, p: int) -> bool {
    let y = p / w;
    let x = p % w;
    x < rows[y].len() && rows[y][x] == 42
}

/// The first cell from `p` on, before `n`, that is on the plotted point.
pub open spec fn first_origin(rows: Seq<Seq<u8>>, w: int, p: int, n: int) -> Option<int>
    decreases n - p,
{
    if p >= n {
        None
    } else if cell_is_origin(rows, w, p) {
        Some(p)
    } else {
        first_origin(rows, w, p + 1, n)
    }
}

/// A drawing small enough for a mask: fewer than 256 rows, each shorter than 256.
pub open spec fn art_fits(b: Seq<u8>) -> bool {
    art_rows(b).len() < 256 && max_len(art_rows(b)) < 256 && max_len(art_rows(b)) > 0
}

/// A mask as a value: its size, its cells row by row, and its origin.
pub struct MaskView {
    pub width: int,
    pub height: int,
    pub cells: Seq<bool>,
    pub origin: PictureCoordinate,
}

pub open spec fn view_of_mask(m: PicturePenMask) -> MaskView {
    MaskView { width: m.width as int, height: m.height as int, cells: m.mask@, origin: m.origin }
}

/// The mask a drawing gives: its rows padded to the longest, the origin at the
/// first `*` (the corner when there is none). A drawing too large for a mask,
/// or without any mark, gives an empty mask.
pub open spec fn art_mask(b: Seq<u8>) -> MaskView {
    let rows = art_rows(b);
    let w = max_len(rows) as int;
    let n = rows.len() * w;
    if !art_fits(b) {
        MaskView { width: 0, height: 0, cells: Seq::empty(), origin: PictureCoordinate { x: 0, y: 0 } }
    } else {
        MaskView {
            width: w,
            height: rows.len() as int,
            cells: Seq::new(n as nat, |p: int| cell_on(rows, w, p)),
            origin: match first_origin(rows, w, 0, n) {
                Some(p) => PictureCoordinate { x: (p % w) as u8, y: (p / w) as u8 },
                None => PictureCoordinate { x: 0, y: 0 },
            },
        }
    }
}

/// Whether a line holds something besides spaces.
fn line_marked(l: &Vec<u8>) -> (r: bool)
    ensures
        r == marked(l@),
{
    let mut i: usize = 0;
    while i < l.len()
        invariant
            0 <= i <= l@.len(),
            forall|j: int| 0 <= j < i ==> l@[j] == 32,
        decreases l@.len() - i,
    {
        if l[i] != 32 {
            return true;
        }
        i = i + 1;
    }
    false
}

/// The rows of a drawing.
fn split_rows(b: &[u8]) -> (r: Vec<Vec<u8>>)
    ensures
        r@.len() == art_rows(b@).len(),
        forall|i: int| 0 <= i < r@.len() ==> #[trigger] r@[i]@ == art_rows(b@)[i],
{
    let mut rows: Vec<Vec<u8>> = Vec::new();
    let mut cur: Vec<u8> = Vec::new();
    let mut i: usize = 0;
    proof {
        assert(b@.take(0) =~= Seq::<u8>::empty());
        assert(art_lines(b@.take(0)).drop_last() =~= Seq::<Seq<u8>>::empty());
    }
    while i < b.len()
        invariant
            0 <= i <= b@.len(),
            art_lines(b@.take(i as int)).len() >= 1,
            cur@ == art_lines(b@.take(i as int)).last(),
            rows@.len() == marked_lines(art_lines(b@.take(i as int)).drop_last()).len(),
            forall|j: int| 0 <= j < rows@.len() ==> #[trigger] rows@[j]@ == marked_lines(
                art_lines(b@.take(i as int)).drop_last(),
            )[j],
        decreases b@.len() - i,
    {
        let ghost prev = art_lines(b@.take(i as int));
        proof {
            assert(b@.take(i + 1).drop_last() =~= b@.take(i as int));
            lemma_art_lines_nonempty(b@.take(i + 1));
        }
        if b[i] == 10 {
            let ghost before = rows@;
            if line_marked(&cur) {
                rows.push(cur);
            }
            cur = Vec::new();
            proof {
                let now = art_lines(b@.take(i + 1));
                assert(now.drop_last() =~= prev);
                assert(now.last() =~= Seq::<u8>::empty());
                assert(prev.drop_last().push(prev.last()) =~= prev);
            }
        } else {
            cur.push(b[i]);
            proof {
                let now = art_lines(b@.take(i + 1));
                assert(now.drop_last() =~= prev.drop_last());
            }
        }
        i = i + 1;
    }
    proof {
        assert(b@.take(b@.len() as int) =~= b@);
        let ls = art_lines(b@);
        assert(ls.drop_last().push(ls.last()) =~= ls);
    }
    if line_marked(&cur) {
        rows.push(cur);
    }
    rows
}

/// The art's lines are never empty.
proof fn lemma_art_lines_nonempty(b: Seq<u8>)
    ensures
        art_lines(b).len() >= 1,
    decreases b.len(),
{
    if b.len() > 0 {
        lemma_art_lines_nonempty(b.drop_last());
    }
}

/// Reads a pen drawing; one with no mark, or too large for a mask, gives nothing.
pub fn parse_pen_mask(art: &str) -> (r: Option<PicturePenMask>)
    ensures
        art_fits(art.spec_bytes()) ==> (r matches Some(m) && view_of_mask(m) == art_mask(art.spec_bytes())),
        !art_fits(art.spec_bytes()) ==> r is None,
{
    let ghost b = art.spec_bytes();
    let bytes = art.as_bytes();
    let rows = split_rows(bytes);
    let ghost rs = art_rows(b);
    let mut width: usize = 0;
    let mut k: usize = 0;
    while k < rows.len()
        invariant
            rows@.len() == rs.len(),
            forall|i: int| 0 <= i < rows@.len() ==> #[trigger] rows@[i]@ == rs[i],
            0 <= k <= rows@.len(),
            width == max_len(rs.take(k as int)),
        decreases rows@.len() - k,
    {
        proof {
            assert(rs.take(k + 1).drop_last() =~= rs.take(k as int));
        }
        if rows[k].len() > width {
            width = rows[k].len();
        }
        k = k + 1;
    }
    proof {
        assert(rs.take(rs.len() as int) =~= rs);
    }
    if rows.len() >= 256 || width >= 256 || width == 0 {
        return None;
    }
    let height = rows.len();
    let mut mask: Vec<bool> = Vec::new();
    let mut origin = PictureCoordinate { x: 0, y: 0 };
    let mut found = false;
    let ghost n = rs.len() * width;
    let mut y: usize = 0;
    while y < height
        invariant
            rows@.len() == rs.len(),
            forall|i: int| 0 <= i < rows@.len() ==> #[trigger] rows@[i]@ == rs[i],
            height == rs.len(),
            width == max_len(rs),
            0 < width < 256,
            height < 256,
            n == height * width,
            0 <= y <= height,
            mask@.len() == y * width,
            forall|p: int| 0 <= p < y * width ==> mask@[p] == cell_on(rs, width as int, p),
            found ==> first_origin(rs, width as int, 0, n) == Some(origin.y * width + origin.x) && origin.x
                < width && origin.y < y,
            !found ==> first_origin(rs, width as int, 0, n) == first_origin(rs, width as int, y * width, n),
            !found ==> origin == (PictureCoordinate { x: 0, y: 0 }),
        decreases height - y,
    {
        let row = &rows[y];
        let mut x: usize = 0;
        while x < width
            invariant
                rows@.len() == rs.len(),
                forall|i: int| 0 <= i < rows@.len() ==> #[trigger] rows@[i]@ == rs[i],
                height == rs.len(),
                width == max_len(rs),
                0 < width < 256,
                height < 256,
                n == height * width,
                0 <= y < height,
                row@ == rs[y as int],
                0 <= x <= width,
                mask@.len() == y * width + x,
                forall|p: int| 0 <= p < y * width + x ==> mask@[p] == cell_on(rs, width as int, p),
                found ==> first_origin(rs, width as int, 0, n) == Some(origin.y * width + origin.x) && origin.x
                    < width && origin.y <= y,
                !found ==> first_origin(rs, width as int, 0, n) == first_origin(rs, width as int, y * width + x, n),
                !found ==> origin == (PictureCoordinate { x: 0, y: 0 }),
            decreases width - x,
        {
            let ghost p = y * width + x;
            proof {
                lemma_row_column(y as int, x as int, width as int);
                assert(p < n) by (nonlinear_arith)
                    requires
                        p == y * width + x,
                        x < width,
                        y < height,
                        n == height * width,
                ;
            }
            let on = x < row.len() && (row[x] == 88 || row[x] == 42);
            let is_origin = x < row.len() && row[x] == 42;
            mask.push(on);
            if !found && is_origin {
                found = true;
                origin = PictureCoordinate { x: x as u8, y: y as u8 };
            }
            x = x + 1;
        }
        proof {
            assert((y + 1) * width == y * width + width) by (nonlinear_arith);
        }
        y = y + 1;
    }
    proof {
        if !found {
            assert(first_origin(rs, width as int, n, n) == None::<int>);
        } else {
            lemma_row_column(origin.y as int, origin.x as int, width as int);
        }
    }
    let m = PicturePenMask { origin, width: width as u8, height: height as u8, mask };
    proof {
        assert(view_of_mask(m).cells =~= art_mask(b).cells);
    }
    Some(m)
}

/// The cell of row `y`, column `x` sits at `y * w + x`.
proof fn lemma_row_column(y: int, x: int, w: int)
    requires
        0 <= x < w,
        0 <= y,
    ensures
        (y * w + x) / w == y,
        (y * w + x) % w == x,
{
    vstd::arithmetic::div_mod::lemma_fundamental_div_mod_converse(y * w + x, w, y, x);
}

/// The rectangle pen drawings, by size.
pub open spec fn rectangle_drawings() -> Seq<Seq<char>> {
    seq![
        "*"@,
        "\nXX\nX*\nXX\n"@,
        "\nXXX\nXXX\nX*X\nXXX\nXXX\n    "@,
        "\nXXXX\nXXXX\nXXXX\nXX*X\nXXXX\nXXXX\nXXXX\n      "@,
        "\nXXXXX\nXXXXX\nXXXXX\nXXXXX\nXX*XX\nXXXXX\nXXXXX\nXXXXX\nXXXXX\n      "@,
        "\nXXXXXX\nXXXXXX\nXXXXXX\nXXXXXX\nXXXXXX\nXXX*XX\nXXXXXX\nXXXXXX\nXXXXXX\nXXXXXX\nXXXXXX\n      "@,
        "\nXXXXXXX\nXXXXXXX\nXXXXXXX\nXXXXXXX\nXXXXXXX\nXXXXXXX\nXXX*XXX\nXXXXXXX\nXXXXXXX\nXXXXXXX\nXXXXXXX\nXXXXXXX\nXXXXXXX\n      "@,
        "\nXXXXXXXX\nXXXXXXXX\nXXXXXXXX\nXXXXXXXX\nXXXXXXXX\nXXXXXXXX\nXXXXXXXX\nXXXX*XXX\nXXXXXXXX\nXXXXXXXX\nXXXXXXXX\nXXXXXXXX\nXXXXXXXX\nXXXXXXXX\nXXXXXXXX\n      "@,
    ]
}

fn rectangle_drawing(size: usize) -> (r: &'static str)
    requires
        size < 8,
    ensures
        r@ == rectangle_drawings()[size as int],
{
    if size == 0 {
        "*"
    } else if size == 1 {
        "\nXX\nX*\nXX\n"
    } else if size == 2 {
        "\nXXX\nXXX\nX*X\nXXX\nXXX\n    "
    } else if size == 3 {
        "\nXXXX\nXXXX\nXXXX\nXX*X\nXXXX\nXXXX\nXXXX\n      "
    } else if size == 4 {
        "\nXXXXX\nXXXXX\nXXXXX\nXXXXX\nXX*XX\nXXXXX\nXXXXX\nXXXXX\nXXXXX\n      "
    } else if size == 5 {
        "\nXXXXXX\nXXXXXX\nXXXXXX\nXXXXXX\nXXXXXX\nXXX*XX\nXXXXXX\nXXXXXX\nXXXXXX\nXXXXXX\nXXXXXX\n      "
    } else if size == 6 {
        "\nXXXXXXX\nXXXXXXX\nXXXXXXX\nXXXXXXX\nXXXXXXX\nXXXXXXX\nXXX*XXX\nXXXXXXX\nXXXXXXX\nXXXXXXX\nXXXXXXX\nXXXXXXX\nXXXXXXX\n      "
    } else {
        "\nXXXXXXXX\nXXXXXXXX\nXXXXXXXX\nXXXXXXXX\nXXXXXXXX\nXXXXXXXX\nXXXXXXXX\nXXXX*XXX\nXXXXXXXX\nXXXXXXXX\nXXXXXXXX\nXXXXXXXX\nXXXXXXXX\nXXXXXXXX\nXXXXXXXX\n      "
    }
}

/// The circle pen drawings, by size.
pub open spec fn circle_drawings() -> Seq<Seq<char>> {
    seq![
        "*"@,
        "\nXX\nX*\nXX\n  "@,
        "\n X\nXXX\nX*X\nXXX\n X\n      "@,
        "\n XX\n XX\nXXXX\nXX*X\nXXXX\n XX\n XX\n      "@,
        "\n  X\n XXX\nXXXXX\nXXXXX\nXX*XX\nXXXXX\nXXXXX\n XXX\n  X\n      "@,
        "\n  XX\n XXXX\n XXXX\n XXXX\nXXXXXX\nXXX*XX\nXXXXXX\n XXXX\n XXXX\n XXXX\n  XX\n      "@,
        "\n  XXX\n XXXXX\n XXXXX\n XXXXX\nXXXXXXX\nXXXXXXX\nXXX*XXX\nXXXXXXX\nXXXXXXX\n XXXXX\n XXXXX\n XXXXX\n  XXX\n      "@,
        "\n   XX\n  XXXX\n XXXXXX\n XXXXXX\n XXXXXX\nXXXXXXXX\nXXXXXXXX\nXXXX*XXX\nXXXXXXXX\nXXXXXXXX\n XXXXXX\n XXXXXX\n XXXXXX\n  XXXX\n   XX\n      "@,
    ]
}

fn circle_drawing(size: usize) -> (r: &'static str)
    requires
        size < 8,
    ensures
        r@ == circle_drawings()[size as int],
{
    if size == 0 {
        "*"
    } else if size == 1 {
        "\nXX\nX*\nXX\n  "
    } else if size == 2 {
        "\n X\nXXX\nX*X\nXXX\n X\n      "
    } else if size == 3 {
        "\n XX\n XX\nXXXX\nXX*X\nXXXX\n XX\n XX\n      "
    } else if size == 4 {
        "\n  X\n XXX\nXXXXX\nXXXXX\nXX*XX\nXXXXX\nXXXXX\n XXX\n  X\n      "
    } else if size == 5 {
        "\n  XX\n XXXX\n XXXX\n XXXX\nXXXXXX\nXXX*XX\nXXXXXX\n XXXX\n XXXX\n XXXX\n  XX\n      "
    } else if size == 6 {
        "\n  XXX\n XXXXX\n XXXXX\n XXXXX\nXXXXXXX\nXXXXXXX\nXXX*XXX\nXXXXXXX\nXXXXXXX\n XXXXX\n XXXXX\n XXXXX\n  XXX\n      "
    } else {
        "\n   XX\n  XXXX\n XXXXXX\n XXXXXX\n XXXXXX\nXXXXXXXX\nXXXXXXXX\nXXXX*XXX\nXXXXXXXX\nXXXXXXXX\n XXXXXX\n XXXXXX\n XXXXXX\n  XXXX\n   XX\n      "
    }
}

/// A mask with no cells, standing for a drawing that does not fit.
fn empty_mask() -> (r: PicturePenMask)
    ensures
        r.width == 0 && r.height == 0 && r.mask@.len() == 0,
        r.origin == (PictureCoordinate { x: 0, y: 0 }),
{
    PicturePenMask { origin: PictureCoordinate { x: 0, y: 0 }, width: 0, height: 0, mask: Vec::new() }
}

/// The drawing of a pen of the given shape and size.
pub open spec fn drawing(circle: bool, size: int) -> Seq<char> {
    if circle {
        circle_drawings()[size]
    } else {
        rectangle_drawings()[size]
    }
}

/// The mask a drawing gives.
fn pen_mask_of(art: &str) -> (r: PicturePenMask)
    ensures
        view_of_mask(r) == art_mask(art.spec_bytes()),
{
    match parse_pen_mask(art) {
        Some(m) => m,
        None => {
            let e = empty_mask();
            assert(view_of_mask(e).cells =~= art_mask(art.spec_bytes()).cells);
            e
        },
    }
}

/// The mask of a pen of the given shape and size.
pub fn pen_mask(shape: PicturePenShape, size: u8) -> (r: PicturePenMask)
    requires
        size < 8,
    ensures
        view_of_mask(r) == art_mask(vstd::utf8::encode_utf8(drawing(shape == PicturePenShape::Circle, size as int))),
{
    match shape {
        PicturePenShape::Rectangle => pen_mask_of(rectangle_drawing(size as usize)),
        PicturePenShape::Circle => pen_mask_of(circle_drawing(size as usize)),
    }
}

/// The masks of a set of drawings, by size.
fn masks_of(circle: bool) -> (r: Vec<PicturePenMask>)
    ensures
        r@.len() == 8,
        forall|i: int| 0 <= i < 8 ==> view_of_mask(#[trigger] r@[i]) == art_mask(vstd::utf8::encode_utf8(drawing(circle, i))),
{
    let mut r: Vec<PicturePenMask> = Vec::new();
    let mut size: usize = 0;
    while size < 8
        invariant
            0 <= size <= 8,
            r@.len() == size,
            forall|i: int| 0 <= i < size ==> view_of_mask(#[trigger] r@[i]) == art_mask(vstd::utf8::encode_utf8(drawing(circle, i))),
        decreases 8 - size,
    {
        let art = if circle {
            circle_drawing(size)
        } else {
            rectangle_drawing(size)
        };
        let mask = pen_mask_of(art);
        r.push(mask);
        size = size + 1;
    }
    r
}

/// The rectangular pens, by size: each a rectangle twice as tall as it is wide.
pub fn rectangle_masks() -> (r: Vec<PicturePenMask>)
    ensures
        r@.len() == 8,
        forall|i: int| 0 <= i < 8 ==> view_of_mask(#[trigger] r@[i]) == art_mask(vstd::utf8::encode_utf8(rectangle_drawings()[i])),
{
    masks_of(false)
}

/// The round pens, by size.
pub fn circle_masks() -> (r: Vec<PicturePenMask>)
    ensures
        r@.len() == 8,
        forall|i: int| 0 <= i < 8 ==> view_of_mask(#[trigger] r@[i]) == art_mask(vstd::utf8::encode_utf8(circle_drawings()[i])),
{
    masks_of(true)
}

/// The bit patterns of the splatter textures.
pub open spec fn pen_texture_patterns() -> Seq<u8> {
    seq![
        0x20u8, 0x94, 0x02, 0x24, 0x90, 0x82, 0xa4, 0xa2, 0x82, 0x09, 0x0a, 0x22, 0x12, 0x10, 0x42, 0x14,
        0x91, 0x4a, 0x91, 0x11, 0x08, 0x12, 0x25, 0x10, 0x22, 0xa8, 0x14, 0x24, 0x00, 0x50, 0x24, 0x04,
    ]
}

/// Where in the texture patterns each of the 120 textures starts.
pub open spec fn pen_texture_start_positions() -> Seq<u8> {
    seq![
        0x00u8, 0x18, 0x30, 0xc4, 0xdc, 0x65, 0xeb, 0x48, 0x60, 0xbd, 0x89, 0x04, 0x0a, 0xf4, 0x7d, 0x6d,
        0x85, 0xb0, 0x8e, 0x95, 0x1f, 0x22, 0x0d, 0xdf, 0x2a, 0x78, 0xd5, 0x73, 0x1c, 0xb4, 0x40, 0xa1,
        0xb9, 0x3c, 0xca, 0x58, 0x92, 0x34, 0xcc, 0xce, 0xd7, 0x42, 0x90, 0x0f, 0x8b, 0x7f, 0x32, 0xed,
        0x5c, 0x9d, 0xc8, 0x99, 0xad, 0x4e, 0x56, 0xa6, 0xf7, 0x68, 0xb7, 0x25, 0x82, 0x37, 0x3a, 0x51,
        0x69, 0x26, 0x38, 0x52, 0x9e, 0x9a, 0x4f, 0xa7, 0x43, 0x10, 0x80, 0xee, 0x3d, 0x59, 0x35, 0xcf,
        0x79, 0x74, 0xb5, 0xa2, 0xb1, 0x96, 0x23, 0xe0, 0xbe, 0x05, 0xf5, 0x6e, 0x19, 0xc5, 0x66, 0x49,
        0xf0, 0xd1, 0x54, 0xa9, 0x70, 0x4b, 0xa4, 0xe2, 0xe6, 0xe5, 0xab, 0xe4, 0xd2, 0xaa, 0x4c, 0xe3,
        0x06, 0x6f, 0xc6, 0x4a, 0x75, 0xa3, 0x97, 0xe1,
    ]
}

pub fn pen_texture_pattern(i: usize) -> (r: u8)
    requires
        i < 32,
    ensures
        r == pen_texture_patterns()[i as int],
{
    let t: [u8; 32] = [
        0x20, 0x94, 0x02, 0x24, 0x90, 0x82, 0xa4, 0xa2, 0x82, 0x09, 0x0a, 0x22, 0x12, 0x10, 0x42, 0x14,
        0x91, 0x4a, 0x91, 0x11, 0x08, 0x12, 0x25, 0x10, 0x22, 0xa8, 0x14, 0x24, 0x00, 0x50, 0x24, 0x04,
    ];
    assert(t@ =~= pen_texture_patterns());
    t[i]
}

pub fn pen_texture_start_position(i: usize) -> (r: u8)
    requires
        i < 120,
    ensures
        r == pen_texture_start_positions()[i as int],
{
    let t: [u8; 120] = [
        0x00, 0x18, 0x30, 0xc4, 0xdc, 0x65, 0xeb, 0x48, 0x60, 0xbd, 0x89, 0x04, 0x0a, 0xf4, 0x7d, 0x6d,
        0x85, 0xb0, 0x8e, 0x95, 0x1f, 0x22, 0x0d, 0xdf, 0x2a, 0x78, 0xd5, 0x73, 0x1c, 0xb4, 0x40, 0xa1,
        0xb9, 0x3c, 0xca, 0x58, 0x92, 0x34, 0xcc, 0xce, 0xd7, 0x42, 0x90, 0x0f, 0x8b, 0x7f, 0x32, 0xed,
        0x5c, 0x9d, 0xc8, 0x99, 0xad, 0x4e, 0x56, 0xa6, 0xf7, 0x68, 0xb7, 0x25, 0x82, 0x37, 0x3a, 0x51,
        0x69, 0x26, 0x38, 0x52, 0x9e, 0x9a, 0x4f, 0xa7, 0x43, 0x10, 0x80, 0xee, 0x3d, 0x59, 0x35, 0xcf,
        0x79, 0x74, 0xb5, 0xa2, 0xb1, 0x96, 0x23, 0xe0, 0xbe, 0x05, 0xf5, 0x6e, 0x19, 0xc5, 0x66, 0x49,
        0xf0, 0xd1, 0x54, 0xa9, 0x70, 0x4b, 0xa4, 0xe2, 0xe6, 0xe5, 0xab, 0xe4, 0xd2, 0xaa, 0x4c, 0xe3,
        0x06, 0x6f, 0xc6, 0x4a, 0x75, 0xa3, 0x97, 0xe1,
    ];
    assert(t@ =~= pen_texture_start_positions());
    t[i]
}

/// The pen a picture starts with: a rectangle of size 0, without splatter.
pub fn default_pen_settings() -> (r: PicturePenSettings)
    ensures
        r.shape_of() == PicturePenShape::Rectangle,
        r.size_of() == 0,
        !r.splatter_of(),
{
    PicturePenSettings::new().with_shape(PicturePenShape::Rectangle).with_size(0).with_splatter(false)
}

/// A grid of pixels, row by row.
pub struct PixelBuffer<Pixel: Copy> {
    pub width: usize,
    pub height: usize,
    pub buffer: Vec<Pixel>,
}

/// Where the pixel at `pos` sits in a buffer `width` pixels wide.
pub open spec fn pixel_index(width: int, pos: PictureCoordinate) -> int {
    pos.y * width + pos.x
}

impl<Pixel: Copy> PixelBuffer<Pixel> {
    /// A `width` by `height` buffer filled with `color`.
    pub fn new(width: usize, height: usize, color: Pixel) -> (r: Self)
        requires
            width * height <= usize::MAX,
        ensures
            r.width == width,
            r.height == height,
            r.buffer@ == Seq::new((width * height) as nat, |i: int| color),
    {
        let n = width * height;
        let mut buffer: Vec<Pixel> = Vec::new();
        let mut i: usize = 0;
        while i < n
            invariant
                0 <= i <= n,
                buffer@ == Seq::new(i as nat, |j: int| color),
            decreases n - i,
        {
            buffer.push(color);
            i = i + 1;
            assert(buffer@ =~= Seq::new(i as nat, |j: int| color));
        }
        Self { width, height, buffer }
    }

    /// The pixel at `pos`, if the buffer reaches that far.
    pub fn get_pixel(&self, pos: &PictureCoordinate) -> (r: Option<Pixel>)
        requires
            pixel_index(self.width as int, *pos) <= usize::MAX,
        ensures
            pixel_index(self.width as int, *pos) < self.buffer@.len() ==> r == Some(
                self.buffer@[pixel_index(self.width as int, *pos)],
            ),
            pixel_index(self.width as int, *pos) >= self.buffer@.len() ==> r is None,
    {
        proof {
            assert(pos.y * self.width <= usize::MAX);
        }
        let index = pos.y as usize * self.width + pos.x as usize;
        if index < self.buffer.len() {
            Some(self.buffer[index])
        } else {
            None
        }
    }

    /// Sets the pixel at `pos`, which must lie in the buffer.
    pub fn set_pixel(&mut self, pos: &PictureCoordinate, value: &Pixel)
        requires
            pixel_index(old(self).width as int, *pos) < old(self).buffer@.len(),
        ensures
            final(self).width == old(self).width,
            final(self).height == old(self).height,
            final(self).buffer@ == old(self).buffer@.update(pixel_index(old(self).width as int, *pos), *value),
    {
        let len = self.buffer.len();
        assert(pos.y * self.width + pos.x < len);
        let index = pos.y as usize * self.width + pos.x as usize;
        self.buffer.set(index, *value);
    }
}

/// The texture a plot uses: with splatter on and a texture given, where that
/// texture starts in the patterns.
pub open spec fn texture_start(pen: PicturePenSettings, texture: Option<u8>) -> Option<u8> {
    match texture {
        Some(t) => if pen.splatter_of() {
            Some(pen_texture_start_positions()[t as int])
        } else {
            None
        },
        None => None,
    }
}

/// Whether the pattern bit at `position` is set.
pub open spec fn texture_bit(position: int) -> bool {
    pen_texture_patterns()[position / 8] & (1u8 << ((position % 8) as u8)) != 0
}

/// The cells of a mask that a plot paints, from cell `p` on, `count` cells of
/// the mask having been met before: every cell of the mask, or with a texture
/// those whose texture bit is set. The texture position runs modulo 255.
pub open spec fn painted_cells(m: MaskView, start: Option<u8>, p: int, count: int) -> Seq<int>
    decreases m.cells.len() - p,
{
    if p < 0 || p >= m.cells.len() {
        Seq::empty()
    } else if !m.cells[p] {
        painted_cells(m, start, p + 1, count)
    } else {
        match start {
            None => seq![p] + painted_cells(m, start, p + 1, count),
            Some(s) => {
                let rest = painted_cells(m, start, p + 1, count + 1);
                if texture_bit((s + count) % 255) {
                    seq![p] + rest
                } else {
                    rest
                }
            },
        }
    }
}

/// Where cell `p` of a mask lands when the mask's origin sits on `pos`; a
/// position off the edge wraps round as a byte does.
pub open spec fn cell_position(m: MaskView, pos: PictureCoordinate, p: int) -> PictureCoordinate {
    PictureCoordinate {
        x: (p % m.width - m.origin.x + pos.x) as u8,
        y: (p / m.width - m.origin.y + pos.y) as u8,
    }
}

/// A buffer with each cell of `cells` painted `color`, one after another.
pub open spec fn paint<Pixel>(
    buf: Seq<Pixel>,
    width: int,
    m: MaskView,
    pos: PictureCoordinate,
    cells: Seq<int>,
    color: Pixel,
) -> Seq<Pixel>
    decreases cells.len(),
{
    if cells.len() == 0 {
        buf
    } else {
        paint(buf, width, m, pos, cells.drop_last(), color).update(
            pixel_index(width, cell_position(m, pos, cells.last())),
            color,
        )
    }
}

/// Every cell a plot paints lies in the buffer.
pub open spec fn plot_fits(len: int, width: int, m: MaskView, pos: PictureCoordinate, cells: Seq<int>) -> bool {
    forall|j: int| 0 <= j < cells.len() ==> #[trigger] pixel_index(width, cell_position(m, pos, cells[j])) < len
}

/// The mask of the pen `pen` draws with.
pub open spec fn pen_mask_view(pen: PicturePenSettings) -> MaskView {
    art_mask(vstd::utf8::encode_utf8(drawing(pen.shape_of() == PicturePenShape::Circle, pen.size_of() as int)))
}

/// The cells of its mask that a pen paints with the given texture.
pub open spec fn pen_cells(pen: PicturePenSettings, texture: Option<u8>) -> Seq<int> {
    painted_cells(pen_mask_view(pen), texture_start(pen, texture), 0, 0)
}

impl<Pixel: Copy> PixelBuffer<Pixel> {
    /// Plots the pen at `pos`: the pen's mask with its origin on `pos`, every
    /// cell of it, or with splatter on and a texture those the texture picks.
    pub fn plot_with_pen(&mut self, pos: &PictureCoordinate, pen: PicturePenSettings, texture: Option<u8>, color: Pixel)
        requires
            texture matches Some(t) ==> t < 120,
            plot_fits(
                old(self).buffer@.len() as int,
                old(self).width as int,
                pen_mask_view(pen),
                *pos,
                pen_cells(pen, texture),
            ),
        ensures
            final(self).width == old(self).width,
            final(self).height == old(self).height,
            final(self).buffer@.len() == old(self).buffer@.len(),
            final(self).buffer@ == paint(
                old(self).buffer@,
                old(self).width as int,
                pen_mask_view(pen),
                *pos,
                pen_cells(pen, texture),
                color,
            ),
    {
        let mask = pen_mask(pen.shape(), pen.size());
        let ghost m = view_of_mask(mask);
        let texture_start_position: Option<u8> = match texture {
            Some(t) => if pen.splatter() {
                Some(pen_texture_start_position(t as usize))
            } else {
                None
            },
            None => None,
        };
        let ghost start = texture_start(pen, texture);
        let ghost all = painted_cells(m, start, 0, 0);
        proof {
            lemma_art_mask_shape(vstd::utf8::encode_utf8(drawing(pen.shape_of() == PicturePenShape::Circle, pen.size_of() as int)));
        }
        let mut count: usize = 0;
        let mut index: usize = 0;
        let ghost mut done: Seq<int> = Seq::empty();
        proof {
            assert(done + all =~= all);
        }
        while index < mask.mask.len()
            invariant
                m == view_of_mask(mask),
                mask.mask@.len() == mask.width * mask.height,
                mask.mask@.len() > 0 ==> 0 < mask.width && 0 < mask.height,
                start == texture_start_position,
                all == painted_cells(m, start, 0, 0),
                0 <= index <= mask.mask@.len(),
                count <= index,
                done + painted_cells(m, start, index as int, count as int) == all,
                plot_fits(old(self).buffer@.len() as int, old(self).width as int, m, *pos, all),
                self.width == old(self).width,
                self.height == old(self).height,
                self.buffer@.len() == old(self).buffer@.len(),
                self.buffer@ == paint(old(self).buffer@, old(self).width as int, m, *pos, done, color),
            decreases mask.mask@.len() - index,
        {
            let ghost rest = painted_cells(m, start, index as int, count as int);
            proof {
                assert(index < mask.width * mask.height);
                assert((index as int) / (mask.width as int) < mask.height) by (nonlinear_arith)
                    requires
                        index < mask.width * mask.height,
                        mask.width > 0,
                ;
                assert(mask.width * mask.height <= 255 * 255) by (nonlinear_arith)
                    requires
                        mask.width <= 255,
                        mask.height <= 255,
                ;
            }
            if mask.mask[index] {
                let mut draw = true;
                match texture_start_position {
                    Some(s) => {
                        let texture_position = (s as usize + count) % 255;
                        let texture_byte = pen_texture_pattern(texture_position / 8);
                        let texture_bit_set = texture_byte & (1u8 << ((texture_position % 8) as u8)) != 0;
                        count = count + 1;
                        if !texture_bit_set {
                            draw = false;
                        }
                    },
                    None => {},
                }
                if draw {
                    let w = mask.width as usize;
                    let mask_x = (index % w) as isize;
                    let mask_y = (index / w) as isize;
                    let logical_x = mask_x - mask.origin.x as isize;
                    let logical_y = mask_y - mask.origin.y as isize;
                    let pixel_pos = PictureCoordinate {
                        x: #[verifier::truncate] ((logical_x + pos.x as isize) as u8),
                        y: #[verifier::truncate] ((logical_y + pos.y as isize) as u8),
                    };
                    proof {
                        let j = done.len() as int;
                        assert(all[j] == index as int);
                        assert(pixel_position_matches(m, *pos, index as int, pixel_pos));
                    }
                    self.set_pixel(&pixel_pos, &color);
                    proof {
                        let nd = done.push(index as int);
                        assert(nd.drop_last() =~= done);
                        assert(nd + painted_cells(m, start, index + 1, count as int) =~= done + rest);
                        done = nd;
                    }
                } else {
                    proof {
                        assert(done + painted_cells(m, start, index + 1, count as int) =~= done + rest);
                    }
                }
            }
            index = index + 1;
        }
        proof {
            assert(painted_cells(m, start, index as int, count as int) =~= Seq::<int>::empty());
            assert(done =~= all);
        }
    }
}

impl<Pixel: Copy> PixelBuffer<Pixel> {
    /// Whether `pos` lies in the buffer.
    pub fn pixel_in_buffer(&self, pos: &PictureCoordinate) -> (r: bool)
        ensures
            r == (pixel_index(self.width as int, *pos) < self.buffer@.len()),
    {
        let y = pos.y as u128;
        let w = self.width as u128;
        assert(y * w <= 255 * 0x1_0000_0000_0000_0000) by (nonlinear_arith)
            requires
                y <= 255,
                w <= 0x1_0000_0000_0000_0000,
        ;
        let index: u128 = y * w + pos.x as u128;
        index < self.buffer.len() as u128
    }

    /// Whether every cell that plotting the pen at `pos` paints lies in the
    /// buffer: what `plot_with_pen` asks of its caller.
    pub fn pen_fits(&self, pos: &PictureCoordinate, pen: PicturePenSettings, texture: Option<u8>) -> (r: bool)
        requires
            texture matches Some(t) ==> t < 120,
        ensures
            r == plot_fits(
                self.buffer@.len() as int,
                self.width as int,
                pen_mask_view(pen),
                *pos,
                pen_cells(pen, texture),
            ),
    {
        let mask = pen_mask(pen.shape(), pen.size());
        let ghost m = view_of_mask(mask);
        let texture_start_position: Option<u8> = match texture {
            Some(t) => if pen.splatter() {
                Some(pen_texture_start_position(t as usize))
            } else {
                None
            },
            None => None,
        };
        let ghost start = texture_start(pen, texture);
        let ghost all = painted_cells(m, start, 0, 0);
        let ghost len = self.buffer@.len() as int;
        let ghost width = self.width as int;
        proof {
            lemma_art_mask_shape(vstd::utf8::encode_utf8(drawing(pen.shape_of() == PicturePenShape::Circle, pen.size_of() as int)));
        }
        let mut count: usize = 0;
        let mut index: usize = 0;
        let ghost mut done: Seq<int> = Seq::empty();
        proof {
            assert(done + all =~= all);
            assert(m == pen_mask_view(pen));
        }
        while index < mask.mask.len()
            invariant
                m == view_of_mask(mask),
                mask.mask@.len() == mask.width * mask.height,
                mask.mask@.len() > 0 ==> 0 < mask.width && 0 < mask.height,
                start == texture_start_position,
                all == painted_cells(m, start, 0, 0),
                0 <= index <= mask.mask@.len(),
                count <= index,
                done + painted_cells(m, start, index as int, count as int) == all,
                len == self.buffer@.len(),
                width == self.width,
                m == pen_mask_view(pen),
                all == pen_cells(pen, texture),
                plot_fits(len, width, m, *pos, done),
            decreases mask.mask@.len() - index,
        {
            let ghost rest = painted_cells(m, start, index as int, count as int);
            proof {
                assert(index < mask.width * mask.height);
                assert((index as int) / (mask.width as int) < mask.height) by (nonlinear_arith)
                    requires
                        index < mask.width * mask.height,
                        mask.width > 0,
                ;
                assert(mask.width * mask.height <= 255 * 255) by (nonlinear_arith)
                    requires
                        mask.width <= 255,
                        mask.height <= 255,
                ;
            }
            if mask.mask[index] {
                let mut draw = true;
                match texture_start_position {
                    Some(s) => {
                        let texture_position = (s as usize + count) % 255;
                        let texture_byte = pen_texture_pattern(texture_position / 8);
                        let texture_bit_set = texture_byte & (1u8 << ((texture_position % 8) as u8)) != 0;
                        count = count + 1;
                        if !texture_bit_set {
                            draw = false;
                        }
                    },
                    None => {},
                }
                if draw {
                    let w = mask.width as usize;
                    let mask_x = (index % w) as isize;
                    let mask_y = (index / w) as isize;
                    let logical_x = mask_x - mask.origin.x as isize;
                    let logical_y = mask_y - mask.origin.y as isize;
                    let pixel_pos = PictureCoordinate {
                        x: #[verifier::truncate] ((logical_x + pos.x as isize) as u8),
                        y: #[verifier::truncate] ((logical_y + pos.y as isize) as u8),
                    };
                    proof {
                        let j = done.len() as int;
                        assert(all[j] == index as int);
                        assert(pixel_position_matches(m, *pos, index as int, pixel_pos));
                    }
                    if !self.pixel_in_buffer(&pixel_pos) {
                        proof {
                            let j = done.len() as int;
                            assert(all[j] == index as int);
                            assert(!(pixel_index(width, cell_position(m, *pos, all[j])) < len));
                        }
                        return false;
                    }
                    proof {
                        let nd = done.push(index as int);
                        assert(nd.drop_last() =~= done);
                        assert(nd + painted_cells(m, start, index + 1, count as int) =~= done + rest);
                        assert forall|j: int| 0 <= j < nd.len() implies #[trigger] pixel_index(width, cell_position(m, *pos, nd[j])) < len by {
                            if j < done.len() {
                                assert(nd[j] == done[j]);
                            }
                        }
                        done = nd;
                    }
                } else {
                    proof {
                        assert(done + painted_cells(m, start, index + 1, count as int) =~= done + rest);
                    }
                }
            }
            index = index + 1;
        }
        proof {
            assert(painted_cells(m, start, index as int, count as int) =~= Seq::<int>::empty());
            assert(done =~= all);
        }
        true
    }
}

impl PixelBuffer<u8> {
    /// Whether the palette has a colour for every pixel of the buffer.
    pub fn palette_covers(&self, color_palette: &ColorPalette) -> (r: bool)
        ensures
            r == forall|i: int| 0 <= i < self.buffer@.len() ==> (#[trigger] self.buffer@[i] as int) < color_palette.colors@.len(),
    {
        let mut i: usize = 0;
        while i < self.buffer.len()
            invariant
                i <= self.buffer@.len(),
                forall|j: int| 0 <= j < i ==> (#[trigger] self.buffer@[j] as int) < color_palette.colors@.len(),
            decreases self.buffer@.len() - i,
        {
            if self.buffer[i] as usize >= color_palette.colors.len() {
                return false;
            }
            i = i + 1;
        }
        true
    }

    /// The buffer as RGBA bytes: for each pixel, in order, the four bytes of
    /// its colour in the palette.
    pub fn to_rgba_data(&self, color_palette: &ColorPalette) -> (r: Vec<u8>)
        requires
            forall|i: int| 0 <= i < self.buffer@.len() ==> (#[trigger] self.buffer@[i] as int) < color_palette.colors@.len(),
        ensures
            r@ == rgba_of(self.buffer@, color_palette.colors_view()),
    {
        let mut out: Vec<u8> = Vec::new();
        let mut i: usize = 0;
        while i < self.buffer.len()
            invariant
                i <= self.buffer@.len(),
                forall|j: int| 0 <= j < self.buffer@.len() ==> (#[trigger] self.buffer@[j] as int) < color_palette.colors@.len(),
                out@ == rgba_of(self.buffer@.take(i as int), color_palette.colors_view()),
            decreases self.buffer@.len() - i,
        {
            let c = color_palette.colors[self.buffer[i] as usize];
            out.push(c[0]);
            out.push(c[1]);
            out.push(c[2]);
            out.push(c[3]);
            proof {
                let pixels = self.buffer@.take(i + 1);
                assert(pixels.drop_last() =~= self.buffer@.take(i as int));
                assert(color_palette.colors_view()[self.buffer@[i as int] as int] == c@);
                assert(c@ =~= seq![c[0], c[1], c[2], c[3]]);
            }
            i = i + 1;
        }
        assert(self.buffer@.take(self.buffer@.len() as int) =~= self.buffer@);
        out
    }
}

/// A mask's cells fill its rectangle, and a mask with cells is at most 255 by 255.
pub proof fn lemma_art_mask_shape(b: Seq<u8>)
    ensures
        art_mask(b).cells.len() == art_mask(b).width * art_mask(b).height,
        art_mask(b).cells.len() > 0 ==> 0 < art_mask(b).width < 256 && 0 < art_mask(b).height < 256,
        0 <= art_mask(b).width,
        0 <= art_mask(b).height,
{
    let m = art_mask(b);
    if art_fits(b) {
        assert(m.cells.len() == m.height * m.width);
        assert(m.height * m.width == m.width * m.height) by (nonlinear_arith);
        if m.cells.len() > 0 {
            assert(m.height > 0) by (nonlinear_arith)
                requires
                    m.height * m.width > 0,
                    m.width > 0,
                    m.height >= 0,
            ;
        }
    }
}

/// The position computed for a cell is where the spec puts it.
pub open spec fn pixel_position_matches(m: MaskView, pos: PictureCoordinate, p: int, q: PictureCoordinate) -> bool {
    q == cell_position(m, pos, p)
}

// Flood fill works on cell numbers: cell `i` of a grid `width` cells wide
// holds `n` cells in all, row by row.

/// Cell `j` is a side neighbour of cell `i`: left of it, above it, right of it
/// or below it, within the grid.
pub open spec fn neighbours(width: int, n: int, i: int, j: int) -> bool {
    ||| (i % width > 0 && j == i - 1)
    ||| (i >= width && j == i - width)
    ||| (i % width + 1 < width && j == i + 1)
    ||| (i + width < n && j == i + width)
}

/// The cells reached from `start` in at most `k` steps from one background
/// cell to a neighbouring one (`start` itself counting only if it is
/// background).
pub open spec fn reached(cells: Seq<u8>, width: int, background: u8, start: int, k: nat) -> Set<int>
    decreases k,
{
    if k == 0 {
        Set::new(|j: int| j == start && 0 <= start < cells.len() && cells[start] == background)
    } else {
        let before = reached(cells, width, background, start, (k - 1) as nat);
        Set::new(
            |j: int|
                before.contains(j) || (0 <= j < cells.len() && cells[j] == background && exists|i: int|
                    #[trigger] before.contains(i) && neighbours(width, cells.len() as int, i, j)),
        )
    }
}

/// Cell `j` lies in the background region around `start`: the cells of colour
/// `background` that a path of neighbouring background cells joins to it.
pub open spec fn in_region(cells: Seq<u8>, width: int, background: u8, start: int, j: int) -> bool {
    exists|k: nat| #[trigger] reached(cells, width, background, start, k).contains(j)
}

/// For each cell, whether it lies in the background region around `start`.
pub open spec fn fill_region(cells: Seq<u8>, width: int, background: u8, start: int) -> Seq<bool> {
    Seq::new(cells.len(), |j: int| in_region(cells, width, background, start, j))
}

/// A buffer with each cell of `region` painted `color`.
pub open spec fn painted(cells: Seq<u8>, region: Seq<bool>, color: u8) -> Seq<u8> {
    Seq::new(cells.len(), |j: int| if region[j] { color } else { cells[j] })
}

proof fn lemma_reached_in_grid(cells: Seq<u8>, width: int, background: u8, start: int, k: nat, j: int)
    requires
        reached(cells, width, background, start, k).contains(j),
    ensures
        0 <= j < cells.len(),
        cells[j] == background,
    decreases k,
{
    if k > 0 && reached(cells, width, background, start, (k - 1) as nat).contains(j) {
        lemma_reached_in_grid(cells, width, background, start, (k - 1) as nat, j);
    }
}

/// With the fill done, every cell that the region reaches was filled.
proof fn lemma_region_filled(
    cells: Seq<u8>,
    width: int,
    background: u8,
    start: int,
    filled: Seq<bool>,
    k: nat,
    j: int,
)
    requires
        filled.len() == cells.len(),
        0 <= start < cells.len() && cells[start] == background ==> filled[start],
        forall|i: int, l: int|
            0 <= i < cells.len() && filled[i] && 0 <= l < cells.len() && cells[l] == background
                && #[trigger] neighbours(width, cells.len() as int, i, l) ==> filled[l],
        reached(cells, width, background, start, k).contains(j),
    ensures
        filled[j],
    decreases k,
{
    if k > 0 {
        let before = reached(cells, width, background, start, (k - 1) as nat);
        if before.contains(j) {
            lemma_region_filled(cells, width, background, start, filled, (k - 1) as nat, j);
        } else {
            let i = choose|i: int| #[trigger] before.contains(i) && neighbours(width, cells.len() as int, i, j);
            lemma_reached_in_grid(cells, width, background, start, (k - 1) as nat, i);
            lemma_region_filled(cells, width, background, start, filled, (k - 1) as nat, i);
        }
    }
}

/// Some filled cell neighbours cell `q`.
spec fn joined(region: Seq<bool>, width: int, n: int, q: int) -> bool {
    exists|i: int| 0 <= i < n && #[trigger] region[i] && neighbours(width, n, i, q)
}

/// In a grid of `n == width * height` cells, a cell with a cell to its right
/// is not the last one.
proof fn lemma_right_in_grid(width: int, height: int, i: int)
    requires
        0 < width,
        0 <= i < width * height,
        i % width + 1 < width,
    ensures
        i + 1 < width * height,
{
    vstd::arithmetic::div_mod::lemma_fundamental_div_mod(i, width);
    let q = i / width;
    assert(q < height) by (nonlinear_arith)
        requires
            i == width * q + i % width,
            0 <= i % width,
            i < width * height,
            0 < width,
    ;
    assert(width * q + width <= width * height) by (nonlinear_arith)
        requires
            q < height,
            0 < width,
    ;
}

/// The cells of the background region around cell `start` of `check`.
fn fill_region_cells(check: &Vec<u8>, width: usize, height: Ghost<int>, background: u8, start: usize) -> (region: Vec<bool>)
    requires
        0 < width,
        check@.len() == width * height@,
        start < check@.len(),
    ensures
        region@ == fill_region(check@, width as int, background, start as int),
{
    let n = check.len();
    let ghost w = width as int;
    let ghost cells = check@;
    let mut visited: Vec<bool> = Vec::new();
    let mut region: Vec<bool> = Vec::new();
    let mut i: usize = 0;
    while i < n
        invariant
            n == check@.len(),
            0 <= i <= n,
            visited@ == Seq::new(i as nat, |j: int| false),
            region@ == Seq::new(i as nat, |j: int| false),
        decreases n - i,
    {
        visited.push(false);
        region.push(false);
        i = i + 1;
        assert(visited@ =~= Seq::new(i as nat, |j: int| false));
        assert(region@ =~= Seq::new(i as nat, |j: int| false));
    }
    let mut pending: Vec<usize> = Vec::new();
    pending.push(start);
    assert(pending@[0] == start);
    let ghost mut seen: Set<int> = Set::empty();
    proof {
        vstd::set_lib::lemma_int_range(0, n as int);
    }
    while pending.len() > 0
        invariant
            0 < width,
            w == width,
            cells == check@,
            n == cells.len(),
            n == w * height@,
            start < n,
            visited@.len() == n,
            region@.len() == n,
            seen.subset_of(vstd::set_lib::set_int_range(0, n as int)),
            vstd::set_lib::set_int_range(0, n as int).finite(),
            vstd::set_lib::set_int_range(0, n as int).len() == n,
            forall|j: int| 0 <= j < n ==> (visited@[j] <==> seen.contains(j)),
            forall|j: int| 0 <= j < n ==> #[trigger] region@[j] == (visited@[j] && cells[j] == background),
            forall|j: int| 0 <= j < n && #[trigger] region@[j] ==> in_region(cells, w, background, start as int, j),
            forall|p: int|
                0 <= p < pending@.len() ==> #[trigger] pending@[p] < n && (pending@[p] == start || joined(
                    region@,
                    w,
                    n as int,
                    pending@[p] as int,
                )),
            forall|i: int, j: int|
                0 <= i < n && region@[i] && #[trigger] neighbours(w, n as int, i, j) ==> 0 <= j < n && (visited@[j]
                    || pending@.contains(j as usize)),
            visited@[start as int] || pending@.contains(start),
        decreases n - seen.len(), pending@.len(),
    {
        proof {
            vstd::set_lib::lemma_len_subset(seen, vstd::set_lib::set_int_range(0, n as int));
        }
        let ghost before = pending@;
        let q = pending.pop().unwrap();
        proof {
            assert(before[before.len() - 1] == q);
            assert(q < n);
            assert forall|j: usize| before.contains(j) && j != q implies pending@.contains(j) by {
                let p = choose|p: int| 0 <= p < before.len() && before[p] == j;
                assert(pending@[p] == j);
            }
        }
        if !visited[q] {
            let ghost region_before = region@;
            let ghost visited_before = visited@;
            visited.set(q, true);
            proof {
                assert(!seen.contains(q as int));
                seen = seen.insert(q as int);
                vstd::set_lib::lemma_len_subset(seen, vstd::set_lib::set_int_range(0, n as int));
            }
            if check[q] == background {
                proof {
                    if q == start {
                        assert(reached(cells, w, background, start as int, 0).contains(q as int));
                    } else {
                        assert(joined(region@, w, n as int, q as int));
                        let i = choose|i: int|
                            0 <= i < n && #[trigger] region@[i] && neighbours(w, n as int, i, q as int);
                        assert(in_region(cells, w, background, start as int, i));
                        let k = choose|k: nat| #[trigger] reached(cells, w, background, start as int, k).contains(i);
                        let k1: nat = k + 1;
                        assert((k1 - 1) as nat == k);
                        assert(reached(cells, w, background, start as int, k1).contains(q as int));
                    }
                }
                region.set(q, true);
                let ghost before_push = pending@;
                assert(q % width > 0 ==> q > 0) by (nonlinear_arith)
                    requires
                        width > 0,
                ;
                let ghost mut at_left: int = 0;
                let ghost mut at_up: int = 0;
                let ghost mut at_right: int = 0;
                let ghost mut at_down: int = 0;
                if q % width > 0 {
                    proof {
                        at_left = pending@.len() as int;
                    }
                    pending.push(q - 1);
                }
                if q >= width {
                    proof {
                        at_up = pending@.len() as int;
                    }
                    pending.push(q - width);
                }
                if q % width + 1 < width {
                    proof {
                        lemma_right_in_grid(w, height@, q as int);
                        at_right = pending@.len() as int;
                    }
                    pending.push(q + 1);
                }
                if n - q > width {
                    proof {
                        at_down = pending@.len() as int;
                    }
                    pending.push(q + width);
                }
                proof {
                    assert forall|p: int| 0 <= p < pending@.len() implies #[trigger] pending@[p] < n && (pending@[p] == start || joined(
                        region@,
                        w,
                        n as int,
                        pending@[p] as int,
                    )) by {
                        if p < before_push.len() {
                            assert(pending@[p] == before_push[p]);
                            if pending@[p] != start {
                                assert(joined(region_before, w, n as int, pending@[p] as int));
                                let i = choose|i: int|
                                    0 <= i < n && #[trigger] region_before[i] && neighbours(w, n as int, i, pending@[p] as int);
                                assert(region@[i]);
                            }
                        } else {
                            assert(region@[q as int]);
                            assert(neighbours(w, n as int, q as int, pending@[p] as int));
                        }
                    }
                    assert forall|j: usize| before_push.contains(j) implies pending@.contains(j) by {
                        let p = choose|p: int| 0 <= p < before_push.len() && before_push[p] == j;
                        assert(pending@[p] == j);
                    }
                    assert forall|l: int| #[trigger] neighbours(w, n as int, q as int, l) implies 0 <= l < n
                        && pending@.contains(l as usize) by {
                        if q % width > 0 && l == q - 1 {
                            assert(pending@[at_left] == (q - 1) as usize);
                        } else if q >= width && l == q - width {
                            assert(pending@[at_up] == (q - width) as usize);
                        } else if q % width + 1 < width && l == q + 1 {
                            lemma_right_in_grid(w, height@, q as int);
                            assert(pending@[at_right] == (q + 1) as usize);
                        } else {
                            assert(pending@[at_down] == (q + width) as usize);
                        }
                    }
                }
            }
            assert forall|j: int| 0 <= j < n implies region@[j] == (visited@[j] && cells[j] == background) by {
                assert(region_before[j] == (visited_before[j] && cells[j] == background));
                if j != q {
                    assert(region@[j] == region_before[j]);
                    assert(visited@[j] == visited_before[j]);
                } else if cells[j] != background {
                    assert(region@[j] == region_before[j]);
                }
            }
        }
    }
    proof {
        assert forall|j: int| 0 <= j < n implies region@[j] == in_region(cells, w, background, start as int, j) by {
            if in_region(cells, w, background, start as int, j) {
                let k = choose|k: nat| #[trigger] reached(cells, w, background, start as int, k).contains(j);
                lemma_region_filled(cells, w, background, start as int, region@, k, j);
            }
        }
        assert(region@ =~= fill_region(cells, w, background, start as int));
    }
    region
}


/// Paints each cell of `region` in `buffer` `color`.
fn paint_region(buffer: &mut PixelBuffer<u8>, region: &Vec<bool>, color: u8)
    requires
        region@.len() == old(buffer).buffer@.len(),
    ensures
        final(buffer).width == old(buffer).width,
        final(buffer).height == old(buffer).height,
        final(buffer).buffer@ == painted(old(buffer).buffer@, region@, color),
{
    let n = buffer.buffer.len();
    let ghost start = buffer.buffer@;
    let mut i: usize = 0;
    while i < n
        invariant
            n == start.len(),
            region@.len() == n,
            0 <= i <= n,
            buffer.width == old(buffer).width,
            buffer.height == old(buffer).height,
            start == old(buffer).buffer@,
            buffer.buffer@.len() == n,
            forall|j: int| 0 <= j < n ==> #[trigger] buffer.buffer@[j] == if j < i && region@[j] {
                color
            } else {
                start[j]
            },
        decreases n - i,
    {
        if region[i] {
            buffer.buffer.set(i, color);
        }
        i = i + 1;
    }
    assert(buffer.buffer@ =~= painted(start, region@, color));
}

/// A position inside a `width` by `height` grid has its cell in the grid.
proof fn lemma_position_in_grid(width: int, height: int, pos: PictureCoordinate)
    requires
        pos.x < width,
        pos.y < height,
    ensures
        0 <= pixel_index(width, pos) < width * height,
{
    assert(pos.y * width + pos.x < width * height) by (nonlinear_arith)
        requires
            0 <= pos.x < width,
            0 <= pos.y < height,
    ;
}

/// A picture as drawn: the colour shown at each pixel, and the priority of
/// each pixel.
pub struct RenderedPicture {
    pub visual_buffer: PixelBuffer<u8>,
    pub priority_buffer: PixelBuffer<u8>,
}

/// The colour of an untouched pixel of the visual buffer.
pub const VISUAL_BACKGROUND: u8 = 15;

/// The priority of an untouched pixel.
pub const PRIORITY_BACKGROUND: u8 = 4;

impl RenderedPicture {
    /// Both buffers are `width` by `height` pixels, the same for both.
    pub open spec fn wf(&self) -> bool {
        &&& self.visual_buffer.width == self.priority_buffer.width
        &&& self.visual_buffer.height == self.priority_buffer.height
        &&& self.visual_buffer.buffer@.len() == self.visual_buffer.width * self.visual_buffer.height
        &&& self.priority_buffer.buffer@.len() == self.priority_buffer.width * self.priority_buffer.height
    }

    /// Fills the region around `start_position`. With a visual colour, the
    /// region is the untouched (white) area of the visual buffer, painted in
    /// the visual colour and, with a priority colour too, painted in that in
    /// the priority buffer. With a priority colour alone, it is the untouched
    /// area of the priority buffer, painted in that colour.
    pub fn flood_fill(&mut self, start_position: &PictureCoordinate, visual_color: Option<u8>, priority_color: Option<u8>)
        requires
            old(self).wf(),
            start_position.x < old(self).visual_buffer.width,
            start_position.y < old(self).visual_buffer.height,
        ensures
            final(self).wf(),
            final(self).visual_buffer.width == old(self).visual_buffer.width,
            final(self).visual_buffer.height == old(self).visual_buffer.height,
            ({
                let w = old(self).visual_buffer.width as int;
                let s = pixel_index(w, *start_position);
                let visual = old(self).visual_buffer.buffer@;
                let priority = old(self).priority_buffer.buffer@;
                match visual_color {
                    Some(vc) => {
                        let r = fill_region(visual, w, VISUAL_BACKGROUND, s);
                        &&& final(self).visual_buffer.buffer@ == painted(visual, r, vc)
                        &&& final(self).priority_buffer.buffer@ == match priority_color {
                            Some(pc) => painted(priority, r, pc),
                            None => priority,
                        }
                    },
                    None => {
                        &&& final(self).visual_buffer.buffer@ == visual
                        &&& final(self).priority_buffer.buffer@ == match priority_color {
                            Some(pc) => painted(priority, fill_region(priority, w, PRIORITY_BACKGROUND, s), pc),
                            None => priority,
                        }
                    },
                }
            }),
    {
        let width = self.visual_buffer.width;
        let n = self.visual_buffer.buffer.len();
        let ghost height = self.visual_buffer.height as int;
        proof {
            lemma_position_in_grid(width as int, height, *start_position);
            assert(start_position.y * width <= start_position.y * width + start_position.x);
            assert(start_position.y * width + start_position.x < n);
        }
        let start = start_position.y as usize * width + start_position.x as usize;
        if let Some(visual_color) = visual_color {
            let region = fill_region_cells(&self.visual_buffer.buffer, width, Ghost(height), VISUAL_BACKGROUND, start);
            paint_region(&mut self.visual_buffer, &region, visual_color);
            if let Some(priority_color) = priority_color {
                paint_region(&mut self.priority_buffer, &region, priority_color);
            }
        } else if let Some(priority_color) = priority_color {
            let region = fill_region_cells(&self.priority_buffer.buffer, width, Ghost(height), PRIORITY_BACKGROUND, start);
            paint_region(&mut self.priority_buffer, &region, priority_color);
        }
    }

    /// Plots the pen at `pos` in each buffer that is given a colour.
    pub fn plot_with_pen(
        &mut self,
        pos: &PictureCoordinate,
        pen: PicturePenSettings,
        texture: Option<u8>,
        visual_color: Option<u8>,
        priority_color: Option<u8>,
    )
        requires
            old(self).wf(),
            texture matches Some(t) ==> t < 120,
            plot_fits(
                old(self).visual_buffer.buffer@.len() as int,
                old(self).visual_buffer.width as int,
                pen_mask_view(pen),
                *pos,
                pen_cells(pen, texture),
            ),
        ensures
            final(self).wf(),
            final(self).visual_buffer.width == old(self).visual_buffer.width,
            final(self).visual_buffer.height == old(self).visual_buffer.height,
            final(self).visual_buffer.buffer@ == match visual_color {
                Some(vc) => paint(
                    old(self).visual_buffer.buffer@,
                    old(self).visual_buffer.width as int,
                    pen_mask_view(pen),
                    *pos,
                    pen_cells(pen, texture),
                    vc,
                ),
                None => old(self).visual_buffer.buffer@,
            },
            final(self).priority_buffer.buffer@ == match priority_color {
                Some(pc) => paint(
                    old(self).priority_buffer.buffer@,
                    old(self).priority_buffer.width as int,
                    pen_mask_view(pen),
                    *pos,
                    pen_cells(pen, texture),
                    pc,
                ),
                None => old(self).priority_buffer.buffer@,
            },
    {
        if let Some(visual_color) = visual_color {
            self.visual_buffer.plot_with_pen(pos, pen, texture, visual_color);
        }
        if let Some(priority_color) = priority_color {
            self.priority_buffer.plot_with_pen(pos, pen, texture, priority_color);
        }
    }
}

} // verus!
