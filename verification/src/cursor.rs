//! The in-game pointer: Alva's prism, scaled big for the display. Decoding
//! the picture is the interface's job; shrinking it to size happens here.
use vstd::prelude::*;

verus! {

/// Logical pixels tall. Big on purpose.
pub const HEIGHT: u32 = 96;

/// A picture as RGBA bytes, row by row.
#[derive(Clone, Debug, PartialEq, Eq)]
pub struct Image {
    pub width: u32,
    pub height: u32,
    pub rgba: Vec<u8>,
}

impl Image {
    /// Four bytes for every pixel.
    pub open spec fn wf(&self) -> bool {
        self.rgba@.len() == self.width * self.height * 4
    }

    pub fn new(width: u32, height: u32, rgba: Vec<u8>) -> (image: Image)
        ensures
            image.width == width,
            image.height == height,
            image.rgba@ == rgba@,
    {
        Image { width, height, rgba }
    }

    /// The four channels of the pixel in column `x`, row `y`.
    pub fn pixel(&self, x: u32, y: u32) -> (rgba: [u8; 4])
        requires
            self.wf(),
            x < self.width,
            y < self.height,
        ensures
            rgba@ == self.rgba@.subrange(pixel_at(self.width as int, x as int, y as int), pixel_at(
                self.width as int,
                x as int,
                y as int,
            ) + 4),
    {
        proof {
            lemma_pixel_in_bounds(self.width as int, self.height as int, x as int, y as int);
            assert(0 <= y * self.width <= y * self.width + x) by (nonlinear_arith)
                requires
                    0 <= y,
                    0 <= x,
            ;
        }
        let len = self.rgba.len();
        assert((y * self.width + x) * 4 + 4 <= len);
        let p = (y as usize * self.width as usize + x as usize) * 4;
        let rgba = [self.rgba[p], self.rgba[p + 1], self.rgba[p + 2], self.rgba[p + 3]];
        assert(rgba@ =~= self.rgba@.subrange(p as int, p + 4));
        rgba
    }
}

/// Where the pixel in column `x`, row `y` starts.
pub open spec fn pixel_at(width: int, x: int, y: int) -> int {
    (y * width + x) * 4
}

pub proof fn lemma_pixel_in_bounds(width: int, height: int, x: int, y: int)
    requires
        0 <= x < width,
        0 <= y < height,
    ensures
        0 <= pixel_at(width, x, y),
        pixel_at(width, x, y) + 4 <= width * height * 4,
{
    assert(0 <= y * width) by (nonlinear_arith)
        requires
            0 <= y,
            0 <= width,
    ;
    assert(y * width + x < width * height) by (nonlinear_arith)
        requires
            0 <= x < width,
            0 <= y < height,
    ;
}

/// The first source row or column that output row or column `i` of `out` covers.
pub open spec fn span_start(i: int, out: int, source: int) -> int {
    i * source / out
}

/// One past the last source row or column it covers: at least one, never past the edge.
pub open spec fn span_end(i: int, out: int, source: int) -> int {
    let start = i * source / out;
    let end = (i + 1) * source / out;
    let end = if end < start + 1 { start + 1 } else { end };
    if end < source { end } else { source }
}

/// A pixel's share of a sum: its alpha for channel 3, else the channel weighted by alpha.
pub open spec fn weight(rgba: Seq<u8>, width: int, x: int, y: int, c: int) -> int {
    let p = pixel_at(width, x, y);
    if c == 3 {
        rgba[p + 3] as int
    } else {
        rgba[p + c] as int * rgba[p + 3] as int
    }
}

/// Channel `c` summed over columns `x0..x1` of row `y`.
pub open spec fn row_sum(rgba: Seq<u8>, width: int, y: int, x0: int, x1: int, c: int) -> int
    decreases x1 - x0,
{
    if x1 <= x0 {
        0
    } else {
        row_sum(rgba, width, y, x0, x1 - 1, c) + weight(rgba, width, x1 - 1, y, c)
    }
}

/// Channel `c` summed over the block of columns `x0..x1` and rows `y0..y1`.
pub open spec fn block_sum(rgba: Seq<u8>, width: int, x0: int, x1: int, y0: int, y1: int, c: int) -> int
    decreases y1 - y0,
{
    if y1 <= y0 {
        0
    } else {
        block_sum(rgba, width, x0, x1, y0, y1 - 1, c) + row_sum(rgba, width, y1 - 1, x0, x1, c)
    }
}

/// How many source pixels output pixel `(x, y)` averages.
pub open spec fn block_count(x0: int, x1: int, y0: int, y1: int) -> int {
    let across = if x1 > x0 { x1 - x0 } else { 0 };
    let down = if y1 > y0 { y1 - y0 } else { 0 };
    across * down
}

/// Byte `c` of output pixel `(x, y)` when a `sw` × `sh` picture shrinks to
/// `width` × `height`: colour averaged with alpha as its weight, so hidden
/// colour under transparent pixels does not bleed in; alpha averaged plainly;
/// both rounded to nearest.
pub open spec fn downscaled(rgba: Seq<u8>, sw: int, sh: int, width: int, height: int, x: int, y: int, c: int) -> u8 {
    let x0 = span_start(x, width, sw);
    let x1 = span_end(x, width, sw);
    let y0 = span_start(y, height, sh);
    let y1 = span_end(y, height, sh);
    let alpha = block_sum(rgba, sw, x0, x1, y0, y1, 3);
    let count = block_count(x0, x1, y0, y1);
    if c < 3 {
        if alpha == 0 {
            0
        } else {
            ((block_sum(rgba, sw, x0, x1, y0, y1, c) + alpha / 2) / alpha) as u8
        }
    } else {
        ((alpha + count / 2) / (if count > 1 { count } else { 1 })) as u8
    }
}

/// The whole shrunken picture, row by row.
pub open spec fn resized_spec(rgba: Seq<u8>, sw: int, sh: int, width: int, height: int) -> Seq<u8> {
    Seq::new(
        (width * height * 4) as nat,
        |k: int| downscaled(rgba, sw, sh, width, height, (k / 4) % width, (k / 4) / width, k % 4),
    )
}

/// The first and one-past-last source index of output index `i`.
fn span(i: u32, out: u32, source: u32) -> (range: (u32, u32))
    requires
        i < out,
    ensures
        range.0 == span_start(i as int, out as int, source as int),
        range.1 == span_end(i as int, out as int, source as int),
        range.0 <= range.1 <= source,
{
    assert(i * source <= out * source) by (nonlinear_arith)
        requires
            i < out,
    ;
    assert((i + 1) * source <= out * source) by (nonlinear_arith)
        requires
            i < out,
    ;
    assert(out * source <= 0xFFFF_FFFF * 0xFFFF_FFFF) by (nonlinear_arith)
        requires
            out <= 0xFFFF_FFFF,
            source <= 0xFFFF_FFFF,
    ;
    let start = (i as u64 * source as u64 / out as u64) as u32;
    let end = ((i as u64 + 1) * source as u64 / out as u64) as u32;
    proof {
        vstd::arithmetic::div_mod::lemma_div_is_ordered(i * source, out * source, out as int);
        vstd::arithmetic::div_mod::lemma_div_is_ordered((i + 1) * source, out * source, out as int);
        vstd::arithmetic::div_mod::lemma_div_multiples_vanish(source as int, out as int);
        assert(out * source == source * out) by (nonlinear_arith);
        if source > 0 {
            let q = i * source / (out as int);
            vstd::arithmetic::div_mod::lemma_fundamental_div_mod(i * source, out as int);
            vstd::arithmetic::div_mod::lemma_mod_pos_bound(i * source, out as int);
            assert(i * source < out * source) by (nonlinear_arith)
                requires
                    i < out,
                    source > 0,
            ;
            assert(out * q == q * out) by (nonlinear_arith);
            assert(q < source) by (nonlinear_arith)
                requires
                    q * out <= i * source,
                    i * source < out * source,
                    out > 0,
            ;
        }
    }
    let end = if end < start + 1 {
        start + 1
    } else {
        end
    };
    let end = if end < source {
        end
    } else {
        source
    };
    (start, end)
}

/// Area-average downscale. Colour is weighted by alpha so transparent pixels do
/// not bleed their hidden colour into the edges.
pub fn resize(image: &Image, width: u32, height: u32) -> (small: Image)
    requires
        image.wf(),
        image.width * image.height <= 0x100_0000_0000,
        width * height * 4 <= 0xFFFF_FFFF,
    ensures
        small.width == width,
        small.height == height,
        small.wf(),
        small.rgba@ == resized_spec(image.rgba@, image.width as int, image.height as int, width as int, height as int),
{
    let ghost rgba = image.rgba@;
    let ghost sw = image.width as int;
    let ghost sh = image.height as int;
    let ghost goal = resized_spec(rgba, sw, sh, width as int, height as int);
    let mut out: Vec<u8> = Vec::new();
    let mut y: u32 = 0;
    while y < height
        invariant
            image.wf(),
            image.width * image.height <= 0x100_0000_0000,
            width * height * 4 <= 0xFFFF_FFFF,
            rgba == image.rgba@,
            sw == image.width,
            sh == image.height,
            goal == resized_spec(rgba, sw, sh, width as int, height as int),
            y <= height,
            out@.len() == y * width * 4,
            forall|k: int| 0 <= k < out@.len() ==> #[trigger] out@[k] == goal[k],
        decreases height - y,
    {
        let (y0, y1) = span(y, height, image.height);
        let mut x: u32 = 0;
        while x < width
            invariant
                image.wf(),
                image.width * image.height <= 0x100_0000_0000,
                width * height * 4 <= 0xFFFF_FFFF,
                rgba == image.rgba@,
                sw == image.width,
                sh == image.height,
                goal == resized_spec(rgba, sw, sh, width as int, height as int),
                y < height,
                y0 == span_start(y as int, height as int, sh),
                y1 == span_end(y as int, height as int, sh),
                y0 <= sh,
                y1 <= sh,
                x <= width,
                out@.len() == (y * width + x) * 4,
                forall|k: int| 0 <= k < out@.len() ==> #[trigger] out@[k] == goal[k],
            decreases width - x,
        {
            let (x0, x1) = span(x, width, image.width);
            let (sums, alpha, count) = block(image, x0, x1, y0, y1);
            let ghost k = (y * width + x) * 4;
            proof {
                lemma_output_byte(width as int, height as int, x as int, y as int, 3);
            }
            let mut c: usize = 0;
            while c < 3
                invariant
                    image.wf(),
                    goal == resized_spec(rgba, sw, sh, width as int, height as int),
                    rgba == image.rgba@,
                    sw == image.width,
                    sh == image.height,
                    x < width,
                    y < height,
                    k == (y * width + x) * 4,
                    x0 == span_start(x as int, width as int, sw),
                    x1 == span_end(x as int, width as int, sw),
                    y0 == span_start(y as int, height as int, sh),
                    y1 == span_end(y as int, height as int, sh),
                    alpha == block_sum(rgba, sw, x0 as int, x1 as int, y0 as int, y1 as int, 3),
                    count == block_count(x0 as int, x1 as int, y0 as int, y1 as int),
                    forall|c2: int| 0 <= c2 < 3 ==> #[trigger] sums@[c2] == block_sum(rgba, sw, x0 as int, x1 as int, y0 as int, y1 as int, c2),
                    sums@.len() == 3,
                    alpha <= 0x2_0000_0000_0000,
                    forall|c2: int| 0 <= c2 < 3 ==> #[trigger] sums@[c2] <= 255 * alpha,
                    c <= 3,
                    out@.len() == k + c,
                    forall|j: int| 0 <= j < out@.len() ==> #[trigger] out@[j] == goal[j],
                decreases 3 - c,
            {
                let value = if alpha == 0 {
                    0u8
                } else {
                    #[verifier::truncate] (((sums[c] + alpha / 2) / alpha) as u8)
                };
                proof {
                    lemma_output_byte(width as int, height as int, x as int, y as int, c as int);
                }
                assert(goal[k + c] == value);
                out.push(value);
                c += 1;
            }
            let divisor = if count > 1 {
                count
            } else {
                1
            };
            let value = #[verifier::truncate] (((alpha + count / 2) / divisor) as u8);
            proof {
                lemma_output_byte(width as int, height as int, x as int, y as int, 3);
            }
            assert(goal[k + 3] == value);
            out.push(value);
            x += 1;
            assert(out@.len() == (y * width + x) * 4) by (nonlinear_arith)
                requires
                    out@.len() == k + 4,
                    k == (y * width + x - 1) * 4,
            ;
        }
        y += 1;
        assert(out@.len() == y * width * 4) by (nonlinear_arith)
            requires
                out@.len() == ((y - 1) * width + width) * 4,
        ;
    }
    assert(out@ =~= goal) by {
        assert(y * width * 4 == width * height * 4) by (nonlinear_arith)
            requires
                y == height,
        ;
        assert(out@.len() == goal.len());
    }
    Image { width, height, rgba: out }
}

/// Byte `c` of output pixel `(x, y)` sits at `(y * width + x) * 4 + c`, and
/// that index recovers `x`, `y` and `c`.
proof fn lemma_output_byte(width: int, height: int, x: int, y: int, c: int)
    requires
        0 <= x < width,
        0 <= y < height,
        0 <= c < 4,
    ensures
        ({
            let k = (y * width + x) * 4 + c;
            &&& 0 <= k < width * height * 4
            &&& (k / 4) % width == x
            &&& (k / 4) / width == y
            &&& k % 4 == c
        }),
{
    lemma_pixel_in_bounds(width, height, x, y);
    let n = y * width + x;
    assert(0 <= n) by (nonlinear_arith)
        requires
            0 <= y,
            0 <= x,
            0 <= width,
            n == y * width + x,
    ;
    vstd::arithmetic::div_mod::lemma_fundamental_div_mod_converse(n * 4 + c, 4, n, c);
    vstd::arithmetic::div_mod::lemma_fundamental_div_mod_converse(n, width, y, x);
}

/// Sums of the three colour channels weighted by alpha, of alpha, and the
/// pixel count, over the block of columns `x0..x1` and rows `y0..y1`.
fn block(image: &Image, x0: u32, x1: u32, y0: u32, y1: u32) -> (result: (Vec<u64>, u64, u64))
    requires
        image.wf(),
        image.width * image.height <= 0x100_0000_0000,
        x0 <= x1 <= image.width,
        y0 <= y1 <= image.height,
    ensures
        result.0@.len() == 3,
        forall|c: int| 0 <= c < 3 ==> #[trigger] result.0@[c] == block_sum(image.rgba@, image.width as int, x0 as int, x1 as int, y0 as int, y1 as int, c),
        result.1 == block_sum(image.rgba@, image.width as int, x0 as int, x1 as int, y0 as int, y1 as int, 3),
        result.2 == block_count(x0 as int, x1 as int, y0 as int, y1 as int),
        result.1 <= 0x2_0000_0000_0000,
        forall|c: int| 0 <= c < 3 ==> #[trigger] result.0@[c] <= 255 * result.1,
{
    let ghost rgba = image.rgba@;
    let ghost w = image.width as int;
    let mut sums: Vec<u64> = vec![0, 0, 0];
    let mut alpha: u64 = 0;
    let mut count: u64 = 0;
    let mut sy = y0;
    while sy < y1
        invariant
            image.wf(),
            image.width * image.height <= 0x100_0000_0000,
            rgba == image.rgba@,
            w == image.width,
            x0 <= image.width,
            x1 <= image.width,
            y1 <= image.height,
            x0 <= x1,
            y0 <= sy <= y1,
            sums@.len() == 3,
            forall|c: int| 0 <= c < 3 ==> #[trigger] sums@[c] == block_sum(rgba, w, x0 as int, x1 as int, y0 as int, sy as int, c),
            alpha == block_sum(rgba, w, x0 as int, x1 as int, y0 as int, sy as int, 3),
            count == block_count(x0 as int, x1 as int, y0 as int, sy as int),
            alpha <= 255 * (sy - y0) * w,
            count <= (sy - y0) * w,
            forall|c: int| 0 <= c < 3 ==> #[trigger] sums@[c] <= 255 * alpha,
        decreases y1 - sy,
    {
        let mut sx = x0;
        let ghost row_start_sums = sums@;
        let ghost row_start_alpha = alpha as int;
        let ghost row_start_count = count as int;
        while sx < x1
            invariant
                image.wf(),
                image.width * image.height <= 0x100_0000_0000,
                rgba == image.rgba@,
                w == image.width,
                x1 <= image.width,
                x0 <= sx <= x1,
                y0 <= sy < y1,
                y1 <= image.height,
                sums@.len() == 3,
                row_start_sums.len() == 3,
                forall|c: int| 0 <= c < 3 ==> #[trigger] sums@[c] == row_start_sums[c] + row_sum(rgba, w, sy as int, x0 as int, sx as int, c),
                alpha == row_start_alpha + row_sum(rgba, w, sy as int, x0 as int, sx as int, 3),
                count == row_start_count + (sx - x0),
                row_start_alpha <= 255 * (sy - y0) * w,
                row_start_count <= (sy - y0) * w,
                alpha <= row_start_alpha + 255 * (sx - x0),
                forall|c: int| 0 <= c < 3 ==> #[trigger] sums@[c] <= 255 * alpha,
            decreases x1 - sx,
        {
            proof {
                lemma_pixel_in_bounds(w, image.height as int, sx as int, sy as int);
                assert(0 <= sy * w <= sy * w + sx) by (nonlinear_arith)
                    requires
                        0 <= sy,
                        0 <= sx,
                        0 <= w,
                ;
            }
            let len = image.rgba.len();
            assert((sy * image.width + sx) * 4 + 4 <= len);
            let p = (sy as usize * image.width as usize + sx as usize) * 4;
            let a = image.rgba[p + 3] as u64;
            assert(alpha <= 0x2_0000_0000_0000) by (nonlinear_arith)
                requires
                    alpha <= row_start_alpha + 255 * (sx - x0),
                    row_start_alpha <= 255 * (sy - y0) * w,
                    0 <= sy - y0,
                    sy < image.height,
                    0 <= sx - x0 <= w,
                    w == image.width,
                    image.width * image.height <= 0x100_0000_0000,
            ;
            let mut c: usize = 0;
            while c < 3
                invariant
                    image.wf(),
                    rgba == image.rgba@,
                    w == image.width,
                    p == pixel_at(w, sx as int, sy as int),
                    p + 4 <= rgba.len(),
                    a == rgba[p + 3],
                    sums@.len() == 3,
                    row_start_sums.len() == 3,
                    x0 <= sx,
                    c <= 3,
                    forall|c2: int| 0 <= c2 < c ==> #[trigger] sums@[c2] == row_start_sums[c2] + row_sum(rgba, w, sy as int, x0 as int, sx + 1, c2),
                    forall|c2: int| c <= c2 < 3 ==> #[trigger] sums@[c2] == row_start_sums[c2] + row_sum(rgba, w, sy as int, x0 as int, sx as int, c2),
                    forall|c2: int| 0 <= c2 < c ==> #[trigger] sums@[c2] <= 255 * (alpha + a),
                    forall|c2: int| c <= c2 < 3 ==> #[trigger] sums@[c2] <= 255 * alpha,
                    alpha <= 0x2_0000_0000_0000,
                decreases 3 - c,
            {
                let channel = image.rgba[p + c] as u64;
                assert(channel * a <= 255 * a) by (nonlinear_arith)
                    requires
                        channel <= 255,
                ;
                let total = sums[c] + channel * a;
                sums.set(c, total);
                assert(weight(rgba, w, sx as int, sy as int, c as int) == channel * a);
                assert(sums@[c as int] == row_start_sums[c as int] + row_sum(rgba, w, sy as int, x0 as int, sx + 1, c as int));
                c += 1;
            }
            assert(count + 1 <= 0x100_0000_0000) by (nonlinear_arith)
                requires
                    count == row_start_count + (sx - x0),
                    row_start_count <= (sy - y0) * w,
                    0 <= sy - y0,
                    sy < image.height,
                    0 <= sx - x0 < w,
                    w == image.width,
                    image.width * image.height <= 0x100_0000_0000,
            ;
            alpha = alpha + a;
            count = count + 1;
            sx += 1;
        }
        sy += 1;
        assert(count == block_count(x0 as int, x1 as int, y0 as int, sy as int)) by (nonlinear_arith)
            requires
                count == row_start_count + (x1 - x0),
                row_start_count == block_count(x0 as int, x1 as int, y0 as int, sy - 1),
                x0 <= x1,
                y0 < sy,
        ;
        assert(alpha <= 255 * (sy - y0) * w) by (nonlinear_arith)
            requires
                alpha <= row_start_alpha + 255 * (x1 - x0),
                row_start_alpha <= 255 * (sy - 1 - y0) * w,
                x1 - x0 <= w,
        ;
        assert(count <= (sy - y0) * w) by (nonlinear_arith)
            requires
                count == row_start_count + (x1 - x0),
                row_start_count <= (sy - 1 - y0) * w,
                x1 - x0 <= w,
        ;
    }
    assert(alpha <= 0x2_0000_0000_0000) by (nonlinear_arith)
        requires
            alpha <= 255 * (y1 - y0) * image.width,
            0 <= y1 - y0 <= image.height,
            image.width * image.height <= 0x100_0000_0000,
    ;
    (sums, alpha, count)
}

} // verus!
