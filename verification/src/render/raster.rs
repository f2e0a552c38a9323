use crate::css::stylesheet::Color;
use crate::layout::Rect;
use crate::render::DisplayCommand;
use crate::units::UNITS_PER_PX;
use vstd::arithmetic::div_mod::{lemma_fundamental_div_mod, lemma_fundamental_div_mod_converse};
use vstd::prelude::*;

verus! {

/// The value of a pixel that nothing was painted on: opaque black.
pub const BACKGROUND: u32 = 0xFF00_0000;

/// The pixel value `0xAARRGGBB` of a colour, with the alpha byte at full opacity.
pub open spec fn packed(c: Color) -> u32 {
    (0xFF00_0000 + c.r * 0x1_0000 + c.g * 0x100 + c.b) as u32
}

/// The pixel value `0xAARRGGBB` of a colour, with the alpha byte at full opacity.
pub fn pack(c: Color) -> (v: u32)
    ensures
        v == packed(c),
{
    let r: u32 = c.r as u32;
    let g: u32 = c.g as u32;
    let b: u32 = c.b as u32;
    0xFF00_0000u32 + r * 0x1_0000 + g * 0x100 + b
}

/// Whether the centre of pixel `i` lies in the range that starts at `start`
/// and is `extent` long, both in layout units.
pub open spec fn in_span(start: int, extent: int, i: int) -> bool {
    start <= i * UNITS_PER_PX + UNITS_PER_PX / 2 < start + extent
}

/// Whether the rectangle covers the pixel in column `col` of row `row`: whether
/// the centre of the pixel lies in it.
pub open spec fn covers(rect: Rect, col: int, row: int) -> bool {
    in_span(rect.x as int, rect.width as int, col) && in_span(
        rect.y as int,
        rect.height as int,
        row,
    )
}

/// The number of pixel centres below `edge`, at most `limit`.
fn centres_below(edge: i128, limit: u32) -> (n: u32)
    requires
        -0x1_0000_0000_0000_0000 <= edge <= 0x1_0000_0000_0000_0000,
    ensures
        n <= limit,
        n == limit || n * UNITS_PER_PX + UNITS_PER_PX / 2 >= edge,
        n == 0 || (n - 1) * UNITS_PER_PX + UNITS_PER_PX / 2 < edge,
{
    let a: i128 = edge - (UNITS_PER_PX / 2) as i128;
    if a <= 0 {
        0
    } else {
        let q: i128 = (a + (UNITS_PER_PX - 1) as i128) / (UNITS_PER_PX as i128);
        if q >= limit as i128 {
            limit
        } else {
            q as u32
        }
    }
}

/// The pixels among the first `limit` whose centre lies in the range that
/// starts at `start` and is `extent` long: those from `span.0` up to, not
/// including, `span.1`.
pub fn pixel_span(start: i64, extent: i64, limit: u32) -> (span: (u32, u32))
    ensures
        span.0 <= span.1 <= limit,
        forall|i: int|
            0 <= i < limit ==> (span.0 <= i < span.1 <==> #[trigger] in_span(
                start as int,
                extent as int,
                i,
            )),
{
    let lo = centres_below(start as i128, limit);
    let hi = centres_below(start as i128 + extent as i128, limit);
    if hi < lo {
        (lo, lo)
    } else {
        (lo, hi)
    }
}

/// The value of the pixel in column `col` of row `row` once the commands of
/// `list` were carried out in order on an empty buffer: the colour of the last
/// command whose rectangle covers the pixel, the background where none does.
pub open spec fn painted(list: Seq<DisplayCommand>, col: int, row: int) -> u32
    decreases list.len(),
{
    if list.len() == 0 {
        BACKGROUND
    } else {
        match list.last() {
            DisplayCommand::SolidColor(c, rect) => if covers(rect, col, row) {
                packed(c)
            } else {
                painted(list.drop_last(), col, row)
            },
        }
    }
}

/// Whether `buf` holds, row after row, the pixels of a buffer `width` wide and
/// `height` high on which the commands of `list` were carried out.
pub open spec fn shows(buf: Seq<u32>, width: int, height: int, list: Seq<DisplayCommand>) -> bool {
    &&& buf.len() == width * height
    &&& forall|p: int| 0 <= p < buf.len() ==> #[trigger] buf[p] == painted(list, p % width, p / width)
}

/// Overwrites with `value` the pixels of `buf` that `rect` covers; `buf`
/// holds, row after row, a buffer `width` wide and `height` high.
#[verifier::rlimit(40)]
pub fn fill_rect(buf: &mut Vec<u32>, width: u32, height: u32, rect: Rect, value: u32)
    requires
        old(buf)@.len() == width * height,
    ensures
        final(buf)@.len() == old(buf)@.len(),
        forall|p: int|
            0 <= p < old(buf)@.len() ==> #[trigger] final(buf)@[p] == if covers(
                rect,
                p % (width as int),
                p / (width as int),
            ) {
                value
            } else {
                old(buf)@[p]
            },
{
    let (c0, c1) = pixel_span(rect.x, rect.width, width);
    let (r0, r1) = pixel_span(rect.y, rect.height, height);
    let w: usize = width as usize;
    let total: usize = buf.len();
    let ghost wi = width as int;
    proof {
        // every pixel index splits into a row below `height` and a column below `width`
        assert forall|p: int| 0 <= p < old(buf)@.len() implies 0 <= #[trigger] (p % wi) < wi && 0
            <= p / wi < height by {
            lemma_row_col(p, wi, height as int);
        }
    }
    let mut r: u32 = r0;
    while r < r1
        invariant
            r0 <= r <= r1 <= height,
            c0 <= c1 <= width,
            w == width,
            wi == width,
            total == buf@.len(),
            buf@.len() == old(buf)@.len(),
            old(buf)@.len() == width * height,
            forall|i: int|
                0 <= i < width ==> (c0 <= i < c1 <==> #[trigger] in_span(
                    rect.x as int,
                    rect.width as int,
                    i,
                )),
            forall|i: int|
                0 <= i < height ==> (r0 <= i < r1 <==> #[trigger] in_span(
                    rect.y as int,
                    rect.height as int,
                    i,
                )),
            forall|p: int|
                0 <= p < total ==> 0 <= #[trigger] (p % wi) < wi && 0 <= p / wi < height,
            forall|p: int|
                0 <= p < buf@.len() ==> #[trigger] buf@[p] == if covers(rect, p % wi, p / wi) && p
                    / wi < r {
                    value
                } else {
                    old(buf)@[p]
                },
        decreases r1 - r,
    {
        let mut c: u32 = c0;
        while c < c1
            invariant
                r0 <= r < r1 <= height,
                c0 <= c <= c1 <= width,
                w == width,
                wi == width,
                total == buf@.len(),
                buf@.len() == old(buf)@.len(),
                old(buf)@.len() == width * height,
                forall|i: int|
                    0 <= i < width ==> (c0 <= i < c1 <==> #[trigger] in_span(
                        rect.x as int,
                        rect.width as int,
                        i,
                    )),
                forall|i: int|
                    0 <= i < height ==> (r0 <= i < r1 <==> #[trigger] in_span(
                        rect.y as int,
                        rect.height as int,
                        i,
                    )),
                forall|p: int|
                    0 <= p < total ==> 0 <= #[trigger] (p % wi) < wi && 0 <= p / wi < height,
                forall|p: int|
                    0 <= p < buf@.len() ==> #[trigger] buf@[p] == if covers(rect, p % wi, p / wi)
                        && (p / wi < r || (p / wi == r && p % wi < c)) {
                        value
                    } else {
                        old(buf)@[p]
                    },
            decreases c1 - c,
        {
            proof {
                lemma_index_in_bounds(r as int, c as int, wi, height as int);
                lemma_fundamental_div_mod_converse(r * wi + c, wi, r as int, c as int);
                assert((r as usize) * w == r * wi);
            }
            let at: usize = (r as usize) * w + (c as usize);
            let ghost before = buf@;
            buf.set(at, value);
            proof {
                assert forall|p: int| 0 <= p < buf@.len() implies #[trigger] buf@[p] == if covers(
                    rect,
                    p % wi,
                    p / wi,
                ) && (p / wi < r || (p / wi == r && p % wi < c + 1)) {
                    value
                } else {
                    old(buf)@[p]
                } by {
                    if p != at {
                        assert(buf@[p] == before[p]);
                        if p / wi == r && p % wi == c {
                            lemma_fundamental_div_mod(p, wi);
                            assert(wi * r == r * wi) by (nonlinear_arith);
                        }
                    } else {
                        assert(in_span(rect.x as int, rect.width as int, c as int));
                        assert(in_span(rect.y as int, rect.height as int, r as int));
                    }
                }
            }
            c += 1;
        }
        r += 1;
    }
}

/// A row below `height` and a column below `width` for every pixel index.
proof fn lemma_row_col(p: int, width: int, height: int)
    requires
        0 <= p < width * height,
        0 <= width,
        0 <= height,
    ensures
        0 <= p % width < width,
        0 <= p / width < height,
{
    assert(width > 0) by (nonlinear_arith)
        requires
            0 <= p < width * height,
            0 <= width,
    ;
    lemma_fundamental_div_mod(p, width);
    vstd::arithmetic::div_mod::lemma_mod_bound(p, width);
    let q = p / width;
    assert(0 <= q < height) by (nonlinear_arith)
        requires
            p == width * q + p % width,
            0 <= p % width < width,
            0 <= p < width * height,
            width > 0,
    ;
}

/// The index of the pixel in column `c` of row `r` lies within the buffer.
proof fn lemma_index_in_bounds(r: int, c: int, width: int, height: int)
    requires
        0 <= r < height,
        0 <= c < width,
    ensures
        0 <= r * width + c < width * height,
        0 <= r * width <= width * height,
{
    assert(0 <= r * width + c < width * height && 0 <= r * width <= width * height)
        by (nonlinear_arith)
        requires
            0 <= r < height,
            0 <= c < width,
    ;
}

/// Carries out the commands of `list` in order on an empty buffer `width`
/// pixels wide and `height` pixels high, and returns its pixels row after row
/// from the top, each row from the left. A later command paints over an
/// earlier one.
pub fn rasterize(list: &Vec<DisplayCommand>, width: u32, height: u32) -> (buf: Vec<u32>)
    requires
        width * height <= usize::MAX,
    ensures
        shows(buf@, width as int, height as int, list@),
{
    let count: usize = (width as usize) * (height as usize);
    let mut buf: Vec<u32> = Vec::new();
    let mut n: usize = 0;
    while n < count
        invariant
            n <= count,
            buf@.len() == n,
            forall|p: int| 0 <= p < n ==> #[trigger] buf@[p] == BACKGROUND,
        decreases count - n,
    {
        buf.push(BACKGROUND);
        n += 1;
    }
    let mut k: usize = 0;
    assert(list@.subrange(0, 0) =~= Seq::<DisplayCommand>::empty());
    while k < list.len()
        invariant
            k <= list@.len(),
            shows(buf@, width as int, height as int, list@.subrange(0, k as int)),
        decreases list@.len() - k,
    {
        let ghost before = buf@;
        let ghost done = list@.subrange(0, k as int);
        let ghost next = list@.subrange(0, k + 1);
        assert(next.drop_last() =~= done);
        assert(next.last() == list@[k as int]);
        match list[k] {
            DisplayCommand::SolidColor(color, rect) => {
                fill_rect(&mut buf, width, height, rect, pack(color));
            },
        }
        k += 1;
    }
    assert(list@.subrange(0, list@.len() as int) =~= list@);
    buf
}

} // verus!
