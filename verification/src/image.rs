//! Decoded images: rows of RGBA pixels.

use vstd::prelude::*;

verus! {

/// A decoded picture: `height` rows of `width` pixels, four bytes each (red,
/// green, blue, alpha), row after row.
pub struct Image {
    width: u32,
    height: u32,
    data: Vec<u8>,
}

impl Image {
    /// The bytes of the picture have the length that its size asks for.
    pub closed spec fn wf(&self) -> bool {
        self.data@.len() == self.width as int * self.height as int * 4
    }

    pub closed spec fn spec_width(&self) -> nat {
        self.width as nat
    }

    pub closed spec fn spec_height(&self) -> nat {
        self.height as nat
    }

    /// The bytes, row after row.
    pub closed spec fn bytes(&self) -> Seq<u8> {
        self.data@
    }

    /// The byte of channel `c` of the pixel in column `x` of row `y`.
    pub open spec fn channel(&self, x: int, y: int, c: int) -> u8 {
        self.bytes()[pixel(self.spec_width() as int, x, y, c)]
    }

    /// Makes a picture of bytes that a decoder handed over. `None` where
    /// their number does not fit the size.
    pub fn new(width: u32, height: u32, data: Vec<u8>) -> (res: Option<Image>)
        ensures
            res is Some <==> data@.len() == width as int * height as int * 4,
            res matches Some(image) ==> image.wf() && image.spec_width() == width
                && image.spec_height() == height && image.bytes() == data@,
    {
        assert(0 <= width as int * height as int <= 0xFFFF_FFFE_0000_0001) by (nonlinear_arith)
            requires
                0 <= width <= 0xFFFF_FFFF,
                0 <= height <= 0xFFFF_FFFF,
        ;
        let pixels: u64 = width as u64 * height as u64;
        let wanted: u128 = pixels as u128 * 4;
        if data.len() as u128 == wanted {
            Some(Image { width, height, data })
        } else {
            None
        }
    }

    pub fn width(&self) -> (res: u32)
        ensures
            res == self.spec_width(),
    {
        self.width
    }

    pub fn height(&self) -> (res: u32)
        ensures
            res == self.spec_height(),
    {
        self.height
    }

    /// The bytes, as the graphics card takes them.
    pub fn data(&self) -> (res: &Vec<u8>)
        ensures
            res@ == self.bytes(),
    {
        &self.data
    }

    /// Copies `rows` rows of `cols` pixels, beginning at column `left`; the
    /// rows are taken from row `first` on, downwards, or, `reversed`, from
    /// the last of them upwards.
    fn gather(&self, left: u32, cols: u32, first: u32, rows: u32, reversed: bool) -> (res: Image)
        requires
            self.wf(),
            left + cols <= self.spec_width(),
            first + rows <= self.spec_height(),
        ensures
            res.wf(),
            res.spec_width() == cols,
            res.spec_height() == rows,
            forall|x: int, y: int, c: int|
                0 <= x < cols && 0 <= y < rows && 0 <= c < 4 ==> #[trigger] res.channel(x, y, c)
                    == self.channel(left + x, source_row(first as int, rows as int, reversed, y), c),
    {
        let w: usize = self.width as usize;
        let ghost sw = self.width as int;
        let ghost sh = self.height as int;
        let ghost cw = cols as int;
        let mut data: Vec<u8> = Vec::new();
        let mut j: u32 = 0;
        while j < rows
            invariant
                self.wf(),
                w == self.width,
                sw == self.width,
                sh == self.height,
                cw == cols,
                left + cols <= sw,
                first + rows <= sh,
                j <= rows,
                data@.len() == (j * cw) * 4,
                forall|x: int, y: int, c: int|
                    0 <= x < cw && 0 <= y < j && 0 <= c < 4 ==> #[trigger] data@[pixel(cw, x, y, c)]
                        == self.data@[pixel(
                        sw,
                        left + x,
                        source_row(first as int, rows as int, reversed, y),
                        c,
                    )],
            decreases rows - j,
        {
            let row: u32 = if reversed {
                first + (rows - 1 - j)
            } else {
                first + j
            };
            let mut i: u32 = 0;
            assert((j * cw + 0) * 4 == (j * cw) * 4);
            while i < cols
                invariant
                    self.wf(),
                    w == self.width,
                    sw == self.width,
                    sh == self.height,
                    cw == cols,
                    left + cols <= sw,
                    row < sh,
                    row == source_row(first as int, rows as int, reversed, j as int),
                    j < rows,
                    i <= cols,
                    data@.len() == (j * cw + i) * 4,
                    forall|x: int, y: int, c: int|
                        0 <= x < cw && 0 <= y < j && 0 <= c < 4 ==> #[trigger] data@[pixel(
                            cw,
                            x,
                            y,
                            c,
                        )] == self.data@[pixel(
                            sw,
                            left + x,
                            source_row(first as int, rows as int, reversed, y),
                            c,
                        )],
                    forall|x: int, c: int|
                        0 <= x < i && 0 <= c < 4 ==> #[trigger] data@[pixel(cw, x, j as int, c)]
                            == self.data@[pixel(sw, left + x, row as int, c)],
                decreases cols - i,
            {
                proof {
                    lemma_pixel_bound(sw, sh, left + i, row as int, 0);
                    lemma_pixel_bound(sw, sh, left + i, row as int, 3);
                }
                let ghost before = data@;
                let total: usize = self.data.len();
                assert(total == sw * sh * 4);
                assert(0 <= row * sw && row * sw + (left + i) < sw * sh);
                assert(row * w == row * sw);
                let at: usize = (row as usize * w + (left + i) as usize) * 4;
                data.push(self.data[at]);
                data.push(self.data[at + 1]);
                data.push(self.data[at + 2]);
                data.push(self.data[at + 3]);
                proof {
                    assert((j * cw + (i + 1)) * 4 == (j * cw + i) * 4 + 4) by (nonlinear_arith);
                    assert forall|x: int, y: int, c: int|
                        0 <= x < cw && 0 <= y < j && 0 <= c < 4 implies #[trigger] data@[pixel(
                        cw,
                        x,
                        y,
                        c,
                    )] == self.data@[pixel(
                        sw,
                        left + x,
                        source_row(first as int, rows as int, reversed, y),
                        c,
                    )] by {
                        lemma_pixel_order(cw, x, y, c, i as int, j as int, 0);
                        assert(data@[pixel(cw, x, y, c)] == before[pixel(cw, x, y, c)]);
                    }
                    assert forall|x: int, c: int| 0 <= x < i + 1 && 0 <= c < 4 implies #[trigger] data@[pixel(
                        cw,
                        x,
                        j as int,
                        c,
                    )] == self.data@[pixel(sw, left + x, row as int, c)] by {
                        if x < i {
                            lemma_pixel_order(cw, x, j as int, c, i as int, j as int, 0);
                            assert(data@[pixel(cw, x, j as int, c)] == before[pixel(
                                cw,
                                x,
                                j as int,
                                c,
                            )]);
                        }
                    }
                }
                i = i + 1;
            }
            proof {
                assert(((j + 1) * cw) * 4 == (j * cw + cw) * 4) by (nonlinear_arith);
                assert forall|x: int, y: int, c: int|
                    0 <= x < cw && 0 <= y < j + 1 && 0 <= c < 4 implies #[trigger] data@[pixel(
                    cw,
                    x,
                    y,
                    c,
                )] == self.data@[pixel(
                    sw,
                    left + x,
                    source_row(first as int, rows as int, reversed, y),
                    c,
                )] by {}
            }
            j = j + 1;
        }
        assert((rows * cw) * 4 == cols as int * rows as int * 4) by (nonlinear_arith)
            requires
                cw == cols,
        ;
        Image { width: cols, height: rows, data }
    }

    /// A picture of the given size with every byte zero: black and fully
    /// transparent. `None` where the bytes would not fit the machine.
    pub fn blank(width: u32, height: u32) -> (res: Option<Image>)
        ensures
            res is Some <==> width as int * height as int * 4 <= usize::MAX,
            res matches Some(image) ==> image.wf() && image.spec_width() == width
                && image.spec_height() == height && image.bytes() == zeros(
                width as int * height as int * 4,
            ),
    {
        assert(0 <= width as int * height as int <= 0xFFFF_FFFE_0000_0001) by (nonlinear_arith)
            requires
                0 <= width <= 0xFFFF_FFFF,
                0 <= height <= 0xFFFF_FFFF,
        ;
        let wanted: u128 = (width as u64 * height as u64) as u128 * 4;
        if wanted > usize::MAX as u128 {
            return None;
        }
        let mut data: Vec<u8> = Vec::new();
        let mut k: usize = 0;
        while k < wanted as usize
            invariant
                k <= wanted <= usize::MAX,
                data@ == zeros(k as int),
            decreases wanted - k,
        {
            data.push(0);
            assert(data@ =~= zeros(k + 1));
            k = k + 1;
        }
        Some(Image { width, height, data })
    }

    /// Sets the pixel in column `x` of row `y`. A pixel outside the picture
    /// is refused, and nothing changes.
    pub fn put(&mut self, x: u32, y: u32, rgba: (u8, u8, u8, u8)) -> (res: bool)
        requires
            old(self).wf(),
        ensures
            final(self).wf(),
            final(self).spec_width() == old(self).spec_width(),
            final(self).spec_height() == old(self).spec_height(),
            res == (x < old(self).spec_width() && y < old(self).spec_height()),
            res ==> final(self).bytes() == spec_put(
                old(self).bytes(),
                old(self).spec_width() as int,
                x as int,
                y as int,
                rgba,
            ),
            !res ==> final(self).bytes() == old(self).bytes(),
    {
        if x >= self.width || y >= self.height {
            return false;
        }
        proof {
            lemma_pixel_bound(self.width as int, self.height as int, x as int, y as int, 0);
            lemma_pixel_bound(self.width as int, self.height as int, x as int, y as int, 3);
        }
        let total: usize = self.data.len();
        let w: usize = self.width as usize;
        assert(0 <= y * w && y * w + x < self.width as int * self.height as int);
        let at: usize = (y as usize * w + x as usize) * 4;
        self.data[at] = rgba.0;
        self.data[at + 1] = rgba.1;
        self.data[at + 2] = rgba.2;
        self.data[at + 3] = rgba.3;
        true
    }

    /// The part of the picture that the rectangle covers. A rectangle that
    /// reaches past the picture is cut down to it: first its corner, then
    /// its size.
    pub fn crop(&self, x: u32, y: u32, width: u32, height: u32) -> (res: Image)
        requires
            self.wf(),
        ensures
            res.wf(),
            res.spec_width() == spec_min(
                width as int,
                self.spec_width() - spec_min(x as int, self.spec_width() as int),
            ),
            res.spec_height() == spec_min(
                height as int,
                self.spec_height() - spec_min(y as int, self.spec_height() as int),
            ),
            forall|i: int, j: int, c: int|
                0 <= i < res.spec_width() && 0 <= j < res.spec_height() && 0 <= c < 4
                    ==> #[trigger] res.channel(i, j, c) == self.channel(x + i, y + j, c),
    {
        let left = if x < self.width {
            x
        } else {
            self.width
        };
        let top = if y < self.height {
            y
        } else {
            self.height
        };
        let cols = if width < self.width - left {
            width
        } else {
            self.width - left
        };
        let rows = if height < self.height - top {
            height
        } else {
            self.height - top
        };
        self.gather(left, cols, top, rows, false)
    }

    /// The picture upside down: its last row first.
    pub fn flip_vertical(&self) -> (res: Image)
        requires
            self.wf(),
        ensures
            res.wf(),
            res.spec_width() == self.spec_width(),
            res.spec_height() == self.spec_height(),
            forall|x: int, y: int, c: int|
                0 <= x < self.spec_width() && 0 <= y < self.spec_height() && 0 <= c < 4
                    ==> #[trigger] res.channel(x, y, c) == self.channel(
                    x,
                    self.spec_height() - 1 - y,
                    c,
                ),
    {
        self.gather(0, self.width, 0, self.height, true)
    }
}

/// `n` bytes, all zero.
pub open spec fn zeros(n: int) -> Seq<u8> {
    Seq::new(n as nat, |i: int| 0u8)
}

/// The bytes of a picture `w` pixels wide once the pixel in column `x` of
/// row `y` is set to `rgba`.
pub open spec fn spec_put(bytes: Seq<u8>, w: int, x: int, y: int, rgba: (u8, u8, u8, u8)) -> Seq<u8> {
    bytes.update(pixel(w, x, y, 0), rgba.0).update(pixel(w, x, y, 1), rgba.1).update(
        pixel(w, x, y, 2),
        rgba.2,
    ).update(pixel(w, x, y, 3), rgba.3)
}

/// The smaller of two numbers.
pub open spec fn spec_min(a: int, b: int) -> int {
    if a < b {
        a
    } else {
        b
    }
}

/// Where the byte of channel `c` of the pixel in column `x` of row `y` lies
/// in a picture `w` pixels wide.
pub open spec fn pixel(w: int, x: int, y: int, c: int) -> int {
    (y * w + x) * 4 + c
}

/// The row that row `j` of a copy is taken from.
pub open spec fn source_row(first: int, count: int, reversed: bool, j: int) -> int {
    if reversed {
        first + count - 1 - j
    } else {
        first + j
    }
}

proof fn lemma_pixel_bound(w: int, h: int, x: int, y: int, c: int)
    requires
        0 <= x < w,
        0 <= y < h,
        0 <= c < 4,
    ensures
        0 <= y * w,
        y * w + x < w * h,
        0 <= pixel(w, x, y, c) < w * h * 4,
{
    assert(0 <= y * w && y * w + x < w * h && (y * w + x) * 4 + c < w * h * 4) by (nonlinear_arith)
        requires
            0 <= x < w,
            0 <= y < h,
            0 <= c < 4,
    ;
}

proof fn lemma_pixel_order(w: int, x1: int, y1: int, c1: int, x2: int, y2: int, c2: int)
    requires
        0 <= x1 < w,
        0 <= x2 <= w,
        0 <= c1 < 4,
        0 <= c2,
        0 <= y1,
        y1 < y2 || (y1 == y2 && x1 < x2),
    ensures
        0 <= pixel(w, x1, y1, c1) < pixel(w, x2, y2, c2),
{
    assert(0 <= (y1 * w + x1) * 4 + c1 && (y1 * w + x1) * 4 + c1 < (y2 * w + x2) * 4 + c2)
        by (nonlinear_arith)
        requires
            0 <= x1 < w,
            0 <= x2 <= w,
            0 <= c1 < 4,
            0 <= c2,
            0 <= y1,
            y1 < y2 || (y1 == y2 && x1 < x2),
    ;
}

/// The number that a signed size stands for once it is read as unsigned:
/// a negative one counts from two to the power of 32 down.
pub open spec fn spec_unsigned(value: i32) -> int {
    if value < 0 {
        value + 0x1_0000_0000
    } else {
        value as int
    }
}

fn unsigned(value: i32) -> (res: u32)
    ensures
        res == spec_unsigned(value),
{
    if value < 0 {
        let wide: i64 = value as i64 + 0x1_0000_0000;
        wide as u32
    } else {
        value as u32
    }
}

/// Crops an image out of another image. The four numbers are read as
/// unsigned; see [`Image::crop`] for a rectangle that reaches too far.
pub fn crop_image(image: &Image, x: i32, y: i32, width: i32, height: i32) -> (res: Image)
    requires
        image.wf(),
    ensures
        res.wf(),
        res.spec_width() == spec_min(
            spec_unsigned(width),
            image.spec_width() - spec_min(spec_unsigned(x), image.spec_width() as int),
        ),
        res.spec_height() == spec_min(
            spec_unsigned(height),
            image.spec_height() - spec_min(spec_unsigned(y), image.spec_height() as int),
        ),
        forall|i: int, j: int, c: int|
            0 <= i < res.spec_width() && 0 <= j < res.spec_height() && 0 <= c < 4
                ==> #[trigger] res.channel(i, j, c) == image.channel(
                spec_unsigned(x) + i,
                spec_unsigned(y) + j,
                c,
            ),
{
    image.crop(unsigned(x), unsigned(y), unsigned(width), unsigned(height))
}

} // verus!
