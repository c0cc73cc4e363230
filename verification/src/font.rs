//! Lines of text as pictures: laid-out glyphs are inked onto a canvas.

use vstd::prelude::*;
use crate::image::{pixel, spec_put, zeros, Image};

verus! {

/// The box of pixels that a glyph covers on its line.
#[derive(Clone, Copy, Debug, PartialEq, Eq)]
pub struct Bounds {
    pub min_x: i32,
    pub min_y: i32,
    pub max_x: i32,
    pub max_y: i32,
}

/// How much of one pixel a glyph covers, from 0 to 255; the pixel is
/// counted from the top left of the glyph's box.
#[derive(Clone, Copy, Debug, PartialEq, Eq)]
pub struct Dot {
    pub x: u32,
    pub y: u32,
    pub alpha: u8,
}

/// A glyph in its place on the line. One that shows nothing, such as a
/// space, has no box.
pub struct Glyph {
    pub bounds: Option<Bounds>,
    pub dots: Vec<Dot>,
}

/// Why a line of text gave no picture.
#[derive(Clone, Copy, Debug, PartialEq, Eq, Structural)]
pub enum FontError {
    /// There is no glyph, or the first or the last has no box.
    NoWidth,
    /// The picture would be larger than the machine can hold.
    TooLarge,
    /// A glyph covers a pixel outside the picture.
    Outside,
}

/// What is left round the glyphs, in pixels, on the right and below.
pub const MARGIN: u32 = 10;

/// A difference read as an unsigned number of 32 bits.
pub open spec fn wrapped(d: int) -> u32 {
    (d % 0x1_0000_0000) as u32
}

/// The width of a line: from the left edge of its first glyph to the right
/// edge of its last.
pub open spec fn spec_glyph_width(glyphs: Seq<Glyph>) -> Option<u32> {
    if glyphs.len() == 0 {
        None
    } else {
        match (glyphs.first().bounds, glyphs.last().bounds) {
            (Some(first), Some(last)) => Some(wrapped(last.max_x - first.min_x)),
            _ => None,
        }
    }
}

/// The width of a line of glyphs, or `None` where it has none.
pub fn glyph_width(glyphs: &Vec<Glyph>) -> (res: Option<u32>)
    ensures
        res == spec_glyph_width(glyphs@),
{
    if glyphs.len() == 0 {
        return None;
    }
    let first = &glyphs[0];
    let last = &glyphs[glyphs.len() - 1];
    match (first.bounds, last.bounds) {
        (Some(first), Some(last)) => {
            let d: i64 = last.max_x as i64 - first.min_x as i64;
            if d < 0 {
                Some((d + 0x1_0000_0000) as u32)
            } else {
                Some(d as u32)
            }
        },
        _ => None,
    }
}

/// Where dot `d` of the glyph lies on the canvas.
pub open spec fn dot_at(glyph: Glyph, d: int) -> (int, int) {
    (
        glyph.dots@[d].x + glyph.bounds->Some_0.min_x,
        glyph.dots@[d].y + glyph.bounds->Some_0.min_y,
    )
}

/// Dot `d` of the glyph lies on a canvas of the given size. The dots of a
/// glyph without a box are never inked, and fit any canvas.
pub open spec fn dot_fits(glyph: Glyph, d: int, w: int, h: int) -> bool {
    glyph.bounds is Some ==> 0 <= dot_at(glyph, d).0 < w && 0 <= dot_at(glyph, d).1 < h
}

/// Every dot of every glyph lies on the canvas.
pub open spec fn all_fit(glyphs: Seq<Glyph>, w: int, h: int) -> bool {
    forall|g: int, d: int|
        0 <= g < glyphs.len() && 0 <= d < glyphs[g].dots@.len() ==> #[trigger] dot_fits(
            glyphs[g],
            d,
            w,
            h,
        )
}

/// The canvas, `w` pixels wide and `h` high, after the glyphs before `g`
/// and the first `d` dots of glyph `g` are inked: it begins all zero, and
/// each dot makes its pixel white with the dot's coverage as alpha.
pub open spec fn inked(glyphs: Seq<Glyph>, g: int, d: int, w: int, h: int) -> Seq<u8>
    decreases g, d,
{
    if d > 0 {
        let before = inked(glyphs, g, d - 1, w, h);
        if 0 <= g < glyphs.len() && glyphs[g].bounds is Some {
            spec_put(
                before,
                w,
                dot_at(glyphs[g], d - 1).0,
                dot_at(glyphs[g], d - 1).1,
                (255u8, 255u8, 255u8, glyphs[g].dots@[d - 1].alpha),
            )
        } else {
            before
        }
    } else if g > 0 {
        inked(glyphs, g - 1, glyphs[g - 1].dots@.len() as int, w, h)
    } else {
        zeros(w * h * 4)
    }
}

/// The dots of a glyph without a box leave the canvas as it is.
proof fn lemma_boxless(glyphs: Seq<Glyph>, g: int, d: int, w: int, h: int)
    requires
        0 <= g < glyphs.len(),
        glyphs[g].bounds is None,
        0 <= d,
    ensures
        inked(glyphs, g, d, w, h) == inked(glyphs, g, 0, w, h),
    decreases d,
{
    if d > 0 {
        lemma_boxless(glyphs, g, d - 1, w, h);
    }
}

/// What stands in the way of a picture of the glyphs, if anything.
pub open spec fn spec_refusal(glyphs: Seq<Glyph>, glyphs_height: u32) -> Option<FontError> {
    match spec_glyph_width(glyphs) {
        None => Some(FontError::NoWidth),
        Some(width) => {
            let w = width + MARGIN;
            let h = glyphs_height + MARGIN;
            if w > u32::MAX || h > u32::MAX || w * h * 4 > usize::MAX {
                Some(FontError::TooLarge)
            } else if !all_fit(glyphs, w, h) {
                Some(FontError::Outside)
            } else {
                None
            }
        },
    }
}

/// The picture of a line of glyphs: as wide as the line and as high as
/// asked, with a margin added to both, white where the glyphs cover it, and
/// turned upside down, as the graphics card wants it.
pub fn snapshot(glyphs: &Vec<Glyph>, glyphs_height: u32) -> (res: Result<Image, FontError>)
    ensures
        match spec_refusal(glyphs@, glyphs_height) {
            Some(error) => res == Err::<Image, FontError>(error),
            None => {
                let w = spec_glyph_width(glyphs@)->Some_0 + MARGIN;
                let h = glyphs_height + MARGIN;
                &&& res is Ok
                &&& res->Ok_0.wf()
                &&& res->Ok_0.spec_width() == w
                &&& res->Ok_0.spec_height() == h
                &&& forall|x: int, y: int, c: int|
                    0 <= x < w && 0 <= y < h && 0 <= c < 4 ==> #[trigger] res->Ok_0.channel(x, y, c)
                        == inked(glyphs@, glyphs@.len() as int, 0, w, h)[pixel(w, x, h - 1 - y, c)]
            },
        },
{
    let width = match glyph_width(glyphs) {
        Some(width) => width,
        None => {
            return Err(FontError::NoWidth);
        },
    };
    if width > u32::MAX - MARGIN || glyphs_height > u32::MAX - MARGIN {
        return Err(FontError::TooLarge);
    }
    let mut image = match Image::blank(width + MARGIN, glyphs_height + MARGIN) {
        Some(image) => image,
        None => {
            return Err(FontError::TooLarge);
        },
    };
    let ghost w = width + MARGIN;
    let ghost h = glyphs_height + MARGIN;
    let mut g: usize = 0;
    while g < glyphs.len()
        invariant
            g <= glyphs.len(),
            spec_glyph_width(glyphs@) == Some(width),
            w * h * 4 <= usize::MAX,
            w == width + MARGIN,
            h == glyphs_height + MARGIN,
            w <= u32::MAX,
            h <= u32::MAX,
            image.wf(),
            image.spec_width() == w,
            image.spec_height() == h,
            image.bytes() == inked(glyphs@, g as int, 0, w, h),
            forall|g2: int, d2: int|
                0 <= g2 < g && 0 <= d2 < glyphs@[g2].dots@.len() ==> #[trigger] dot_fits(
                    glyphs@[g2],
                    d2,
                    w,
                    h,
                ),
        decreases glyphs.len() - g,
    {
        let glyph = &glyphs[g];
        match glyph.bounds {
            Some(bounds) => {
                let mut d: usize = 0;
                while d < glyph.dots.len()
                    invariant
                        g < glyphs.len(),
                        glyph == &glyphs@[g as int],
                        glyph.bounds == Some(bounds),
                        d <= glyph.dots.len(),
                        spec_glyph_width(glyphs@) == Some(width),
                        w * h * 4 <= usize::MAX,
                        w == width + MARGIN,
                        h == glyphs_height + MARGIN,
                        w <= u32::MAX,
                        h <= u32::MAX,
                        image.wf(),
                        image.spec_width() == w,
                        image.spec_height() == h,
                        image.bytes() == inked(glyphs@, g as int, d as int, w, h),
                        forall|d2: int| 0 <= d2 < d ==> #[trigger] dot_fits(glyphs@[g as int], d2, w, h),
                    decreases glyph.dots.len() - d,
                {
                    let dot = glyph.dots[d];
                    let x: i64 = dot.x as i64 + bounds.min_x as i64;
                    let y: i64 = dot.y as i64 + bounds.min_y as i64;
                    if x < 0 || y < 0 || x >= (width + MARGIN) as i64 || y >= (glyphs_height
                        + MARGIN) as i64 {
                        assert(!dot_fits(glyphs@[g as int], d as int, w, h));
                        return Err(FontError::Outside);
                    }
                    let done = image.put(x as u32, y as u32, (255, 255, 255, dot.alpha));
                    d = d + 1;
                }
            },
            None => {
                proof {
                    lemma_boxless(glyphs@, g as int, glyph.dots@.len() as int, w, h);
                }
            },
        }
        g = g + 1;
    }
    let flipped = image.flip_vertical();
    Ok(flipped)
}

} // verus!
