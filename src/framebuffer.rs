//! Linear framebuffer: pixels of `bytes_per_pixel` bytes, rows of `stride`
//! pixels, red-green-blue or blue-green-red byte order.
use vstd::prelude::*;

verus! {

#[derive(Clone, Copy, PartialEq, Eq, Structural, Debug)]
pub struct FramebufferInfo {
    pub width: usize,
    pub height: usize,
    pub stride: usize,
    pub bytes_per_pixel: usize,
    pub is_bgr: bool,
}

pub struct Framebuffer {
    buffer: Vec<u8>,
    info: FramebufferInfo,
}

/// Whether a buffer of `len` bytes holds every pixel `info` describes, each
/// of at least three bytes.
pub open spec fn fits(info: FramebufferInfo, len: nat) -> bool {
    &&& info.bytes_per_pixel >= 3
    &&& info.width <= info.stride
    &&& info.height * info.stride * info.bytes_per_pixel <= len
}

/// Whether a buffer of `len` bytes can back a framebuffer laid out as `info`.
pub fn layout_fits(info: &FramebufferInfo, len: usize) -> (r: bool)
    ensures
        r == fits(*info, len as nat),
{
    if info.bytes_per_pixel < 3 || info.width > info.stride {
        return false;
    }
    let rows = info.height as u128;
    let stride = info.stride as u128;
    let bpp = info.bytes_per_pixel as u128;
    proof {
        assert(rows * stride <= 0xffff_ffff_ffff_ffff * 0xffff_ffff_ffff_ffffu128) by (nonlinear_arith)
            requires rows <= 0xffff_ffff_ffff_ffff, stride <= 0xffff_ffff_ffff_ffff;
    }
    let cells = rows * stride;
    if cells > len as u128 {
        proof {
            assert(cells * bpp >= cells) by (nonlinear_arith)
                requires bpp >= 3, cells >= 0;
        }
        return false;
    }
    proof {
        assert(cells * bpp <= 0xffff_ffff_ffff_ffff * 0xffff_ffff_ffff_ffffu128) by (nonlinear_arith)
            requires cells <= 0xffff_ffff_ffff_ffff, bpp <= 0xffff_ffff_ffff_ffff;
    }
    cells * bpp <= len as u128
}

/// Offset of the first byte of pixel (`x`, `y`).
pub open spec fn pixel_offset(info: FramebufferInfo, x: int, y: int) -> int {
    y * info.stride * info.bytes_per_pixel + x * info.bytes_per_pixel
}

/// `buf` with pixel (`x`, `y`) set to the color, if it is on screen: three
/// color bytes in the framebuffer's order, then an opaque alpha byte when a
/// pixel has four bytes.
pub open spec fn with_pixel(buf: Seq<u8>, info: FramebufferInfo, x: int, y: int, r: u8, g: u8, b: u8) -> Seq<u8> {
    if x < 0 || y < 0 || x >= info.width || y >= info.height {
        buf
    } else {
        let o = pixel_offset(info, x, y);
        let (first, last) = if info.is_bgr { (b, r) } else { (r, b) };
        let b3 = buf.update(o, first).update(o + 1, g).update(o + 2, last);
        if info.bytes_per_pixel == 4 { b3.update(o + 3, 0xFF) } else { b3 }
    }
}

/// `buf` with the pixels `x..x + w` of row `y` set, left to right.
pub open spec fn with_row(buf: Seq<u8>, info: FramebufferInfo, x: int, y: int, w: nat, r: u8, g: u8, b: u8) -> Seq<u8>
    decreases w,
{
    if w == 0 {
        buf
    } else {
        with_pixel(with_row(buf, info, x, y, (w - 1) as nat, r, g, b), info, x + w - 1, y, r, g, b)
    }
}

/// `buf` with the rectangle of `w` by `h` pixels at (`x`, `y`) set, row by
/// row; the part off screen is left out.
pub open spec fn with_rect(buf: Seq<u8>, info: FramebufferInfo, x: int, y: int, w: nat, h: nat, r: u8, g: u8, b: u8) -> Seq<u8>
    decreases h,
{
    if h == 0 {
        buf
    } else {
        with_row(with_rect(buf, info, x, y, w, (h - 1) as nat, r, g, b), info, x, y + h - 1, w, r, g, b)
    }
}

impl Framebuffer {
    pub closed spec fn bytes(&self) -> Seq<u8> {
        self.buffer@
    }

    pub closed spec fn spec_info(&self) -> FramebufferInfo {
        self.info
    }

    pub open spec fn wf(&self) -> bool {
        fits(self.spec_info(), self.bytes().len())
    }

    /// A framebuffer over `buffer`, laid out as `info` says.
    pub fn new(buffer: Vec<u8>, info: FramebufferInfo) -> (r: Framebuffer)
        ensures
            r.bytes() == buffer@,
            r.spec_info() == info,
    {
        Framebuffer { buffer, info }
    }

    pub fn info(&self) -> (r: &FramebufferInfo)
        ensures
            *r == self.spec_info(),
    {
        &self.info
    }

    pub fn width(&self) -> (r: usize)
        ensures
            r == self.spec_info().width,
    {
        self.info.width
    }

    pub fn height(&self) -> (r: usize)
        ensures
            r == self.spec_info().height,
    {
        self.info.height
    }

    /// The bytes of the picture.
    pub fn buffer(&self) -> (r: &[u8])
        ensures
            r@ == self.bytes(),
    {
        self.buffer.as_slice()
    }

    /// Sets pixel (`x`, `y`) to the color; a pixel off screen is ignored.
    pub fn put_pixel(&mut self, x: usize, y: usize, r: u8, g: u8, b: u8)
        requires
            old(self).wf(),
        ensures
            final(self).wf(),
            final(self).spec_info() == old(self).spec_info(),
            final(self).bytes() == with_pixel(old(self).bytes(), old(self).spec_info(), x as int, y as int, r, g, b),
    {
        if x >= self.info.width || y >= self.info.height {
            return;
        }
        let ghost info = self.info;
        let bpp = self.info.bytes_per_pixel;
        let stride = self.info.stride;
        let blen = self.buffer.len();
        proof {
            let h = info.height as int;
            let w = info.width as int;
            let len = blen as int;
            assert(y * stride * bpp + x * bpp + bpp <= h * stride * bpp) by (nonlinear_arith)
                requires y < h, x < w, w <= stride, bpp >= 3;
            assert(y * stride <= y * stride * bpp) by (nonlinear_arith)
                requires bpp >= 3, y >= 0, stride >= 0;
            assert(x * bpp <= y * stride * bpp + x * bpp) by (nonlinear_arith)
                requires bpp >= 3, y >= 0, stride >= 0, x >= 0;
            assert(h * stride * bpp <= len);
            assert(len <= usize::MAX);
        }
        let offset = y * stride * bpp + x * bpp;
        if self.info.is_bgr {
            self.buffer.set(offset, b);
            self.buffer.set(offset + 1, g);
            self.buffer.set(offset + 2, r);
        } else {
            self.buffer.set(offset, r);
            self.buffer.set(offset + 1, g);
            self.buffer.set(offset + 2, b);
        }
        if bpp == 4 {
            self.buffer.set(offset + 3, 0xFF);
        }
    }

    /// Sets the `w` pixels from (`x`, `y`) rightwards.
    fn fill_row(&mut self, x: usize, y: usize, w: usize, r: u8, g: u8, b: u8)
        requires
            old(self).wf(),
            x + w <= usize::MAX,
        ensures
            final(self).wf(),
            final(self).spec_info() == old(self).spec_info(),
            final(self).bytes() == with_row(old(self).bytes(), old(self).spec_info(), x as int, y as int, w as nat, r, g, b),
    {
        let mut dx: usize = 0;
        while dx < w
            invariant
                self.wf(),
                self.spec_info() == old(self).spec_info(),
                0 <= dx <= w,
                x + w <= usize::MAX,
                self.bytes() == with_row(old(self).bytes(), old(self).spec_info(), x as int, y as int, dx as nat, r, g, b),
            decreases w - dx,
        {
            self.put_pixel(x + dx, y, r, g, b);
            dx = dx + 1;
        }
    }

    /// Fills the screen with the color.
    pub fn clear(&mut self, r: u8, g: u8, b: u8)
        requires
            old(self).wf(),
        ensures
            final(self).wf(),
            final(self).spec_info() == old(self).spec_info(),
            final(self).bytes() == with_rect(old(self).bytes(), old(self).spec_info(), 0, 0,
                old(self).spec_info().width as nat, old(self).spec_info().height as nat, r, g, b),
    {
        let w = self.info.width;
        let h = self.info.height;
        self.fill_rect(0, 0, w, h, r, g, b);
    }

    /// Fills the `w` by `h` rectangle at (`x`, `y`), clipped to the screen.
    pub fn fill_rect(&mut self, x: usize, y: usize, w: usize, h: usize, r: u8, g: u8, b: u8)
        requires
            old(self).wf(),
            x + w <= usize::MAX,
            y + h <= usize::MAX,
        ensures
            final(self).wf(),
            final(self).spec_info() == old(self).spec_info(),
            final(self).bytes() == with_rect(old(self).bytes(), old(self).spec_info(), x as int, y as int, w as nat, h as nat, r, g, b),
    {
        let mut dy: usize = 0;
        while dy < h
            invariant
                self.wf(),
                self.spec_info() == old(self).spec_info(),
                0 <= dy <= h,
                x + w <= usize::MAX,
                y + h <= usize::MAX,
                self.bytes() == with_rect(old(self).bytes(), old(self).spec_info(), x as int, y as int, w as nat, dy as nat, r, g, b),
            decreases h - dy,
        {
            self.fill_row(x, y + dy, w, r, g, b);
            dy = dy + 1;
        }
    }

    /// Sets the pixels of row `y` from column `x0` through `x1`, clipped to
    /// the screen (a negative `x1` reaches the right edge).
    pub fn draw_hline(&mut self, x0: i64, x1: i64, y: i64, r: u8, g: u8, b: u8)
        requires
            old(self).wf(),
        ensures
            final(self).wf(),
            final(self).spec_info() == old(self).spec_info(),
            final(self).bytes() == with_hline(old(self).bytes(), old(self).spec_info(), x0 as int, x1 as int, y as int, r, g, b),
    {
        if y < 0 || (y as i128) >= (self.info.height as i128) {
            return;
        }
        if self.info.width == 0 {
            return;
        }
        let start: usize = if x0 < 0 { 0 } else if (x0 as i128) > (self.info.width as i128) { self.info.width } else { x0 as usize };
        let end: usize = if x1 < 0 || (x1 as i128) >= (self.info.width as i128) { self.info.width - 1 } else { x1 as usize };
        if start > end {
            return;
        }
        self.fill_row(start, y as usize, end - start + 1, r, g, b);
    }

    /// Draws a filled circle of radius `radius` centred on (`cx`, `cy`) with
    /// the midpoint algorithm: four horizontal spans per step.
    pub fn draw_circle(&mut self, cx: i32, cy: i32, radius: i32, r: u8, g: u8, b: u8)
        requires
            old(self).wf(),
        ensures
            final(self).wf(),
            final(self).spec_info() == old(self).spec_info(),
            final(self).bytes() == with_circle(old(self).bytes(), old(self).spec_info(), cx as int, cy as int,
                0, radius as int, 1 - radius, r, g, b),
    {
        let cx = cx as i64;
        let cy = cy as i64;
        let rad = radius as i64;
        let mut x: i64 = 0;
        let mut y: i64 = rad;
        let mut d: i128 = 1 - radius as i128;
        while x <= y
            invariant
                self.wf(),
                self.spec_info() == old(self).spec_info(),
                -0x8000_0000 <= cx < 0x8000_0000,
                -0x8000_0000 <= cy < 0x8000_0000,
                0 <= x,
                x <= (if rad >= 0 { rad + 1 } else { 0 }),
                rad - x <= y <= rad,
                -0x8000_0000 <= rad < 0x8000_0000,
                -0x2_0000_0000 - x * 0x8_0000_0000 <= d <= 0x2_0000_0000 + x * 0x8_0000_0000,
                with_circle(old(self).bytes(), old(self).spec_info(), cx as int, cy as int, 0, radius as int, 1 - radius, r, g, b)
                    == with_circle(self.bytes(), self.spec_info(), cx as int, cy as int, x as int, y as int, d as int, r, g, b),
            decreases y - x + 2,
        {
            self.draw_hline(cx - x, cx + x, cy + y, r, g, b);
            self.draw_hline(cx - x, cx + x, cy - y, r, g, b);
            self.draw_hline(cx - y, cx + y, cy + x, r, g, b);
            self.draw_hline(cx - y, cx + y, cy - x, r, g, b);
            x = x + 1;
            if d < 0 {
                d = d + 2 * (x as i128) + 1;
            } else {
                y = y - 1;
                d = d + 2 * ((x - y) as i128) + 1;
            }
        }
    }

    /// Draws the line from (`x0`, `y0`) to (`x1`, `y1`) with Bresenham's
    /// algorithm; points with a negative coordinate are skipped. The walk
    /// takes at most `|x1 - x0| + |y1 - y0|` steps after the first point.
    pub fn draw_line(&mut self, x0: i32, y0: i32, x1: i32, y1: i32, r: u8, g: u8, b: u8)
        requires
            old(self).wf(),
        ensures
            final(self).wf(),
            final(self).spec_info() == old(self).spec_info(),
            ({
                let dx = if x1 >= x0 { x1 - x0 } else { x0 - x1 };
                let dy = if y1 >= y0 { y0 - y1 } else { y1 - y0 };
                final(self).bytes() == with_line(old(self).bytes(), old(self).spec_info(), x0 as int, y0 as int, x1 as int, y1 as int,
                    dx, dy, if x0 < x1 { 1 } else { -1 }, if y0 < y1 { 1 } else { -1 }, dx + dy, (dx - dy) as nat, r, g, b)
            }),
    {
        let xa = x0 as i64;
        let ya = y0 as i64;
        let xb = x1 as i64;
        let yb = y1 as i64;
        let dx: i64 = if xb >= xa { xb - xa } else { xa - xb };
        let dy: i64 = if yb >= ya { ya - yb } else { yb - ya };
        let sx: i64 = if xa < xb { 1 } else { -1 };
        let sy: i64 = if ya < yb { 1 } else { -1 };
        let mut x = xa;
        let mut y = ya;
        let mut err: i128 = dx as i128 + dy as i128;
        let mut fuel: i64 = dx - dy;
        let ghost total = dx - dy;
        loop
            invariant
                self.wf(),
                self.spec_info() == old(self).spec_info(),
                xa == x0 as i64,
                ya == y0 as i64,
                xb == x1 as i64,
                yb == y1 as i64,
                dx == (if xb >= xa { xb - xa } else { xa - xb }),
                dy == (if yb >= ya { ya - yb } else { yb - ya }),
                sx == (if xa < xb { 1i64 } else { -1i64 }),
                sy == (if ya < yb { 1i64 } else { -1i64 }),
                0 <= dx < 0x1_0000_0000,
                -0x1_0000_0000 < dy <= 0,
                sx == 1 || sx == -1,
                sy == 1 || sy == -1,
                total == dx - dy,
                0 <= fuel <= total,
                xa - (total - fuel) <= x <= xa + (total - fuel),
                ya - (total - fuel) <= y <= ya + (total - fuel),
                -0x8000_0000 <= xa < 0x8000_0000,
                -0x8000_0000 <= ya < 0x8000_0000,
                -(total - fuel + 1) * 0x2_0000_0000 <= err <= (total - fuel + 1) * 0x2_0000_0000,
                with_line(old(self).bytes(), old(self).spec_info(), x0 as int, y0 as int, x1 as int, y1 as int,
                    dx as int, dy as int, sx as int, sy as int, dx + dy, total as nat, r, g, b)
                    == with_line(self.bytes(), self.spec_info(), x as int, y as int, x1 as int, y1 as int,
                    dx as int, dy as int, sx as int, sy as int, err as int, fuel as nat, r, g, b),
            decreases fuel,
        {
            let ghost before = self.bytes();
            let ghost info = self.spec_info();
            if x >= 0 && y >= 0 && (x as i128) < (self.info.width as i128) && (y as i128) < (self.info.height as i128) {
                self.put_pixel(x as usize, y as usize, r, g, b);
            }
            assert(self.bytes() == (if x >= 0 && y >= 0 { with_pixel(before, info, x as int, y as int, r, g, b) } else { before }));
            if (x == xb && y == yb) || fuel == 0 {
                assert(with_line(before, info, x as int, y as int, x1 as int, y1 as int, dx as int, dy as int, sx as int, sy as int,
                    err as int, fuel as nat, r, g, b) == self.bytes());
                return;
            }
            let ghost gx = x as int;
            let ghost gy = y as int;
            let ghost gerr = err as int;
            let ghost gfuel = fuel as nat;
            let e2 = 2 * err;
            if e2 >= dy as i128 {
                err = err + dy as i128;
                x = x + sx;
            }
            if e2 <= dx as i128 {
                err = err + dx as i128;
                y = y + sy;
            }
            fuel = fuel - 1;
            assert(with_line(before, info, gx, gy, x1 as int, y1 as int, dx as int, dy as int, sx as int, sy as int, gerr, gfuel, r, g, b)
                == with_line(self.bytes(), info, x as int, y as int, x1 as int, y1 as int, dx as int, dy as int, sx as int, sy as int,
                    err as int, fuel as nat, r, g, b));
        }
    }
}

/// `buf` with the pixels of row `y` from column `x0` through `x1` set,
/// clipped to the screen; a negative `x1` reaches the right edge.
pub open spec fn with_hline(buf: Seq<u8>, info: FramebufferInfo, x0: int, x1: int, y: int, r: u8, g: u8, b: u8) -> Seq<u8> {
    if y < 0 || y >= info.height || info.width == 0 {
        buf
    } else {
        let start: int = if x0 < 0 { 0 } else if x0 > info.width { info.width as int } else { x0 };
        let end: int = if x1 < 0 || x1 >= info.width { info.width - 1 } else { x1 };
        if start > end { buf } else { with_row(buf, info, start, y, (end - start + 1) as nat, r, g, b) }
    }
}

/// The rest of a filled midpoint circle from step (`x`, `y`) with decision
/// value `d`: the four spans of the step, then the next step.
pub open spec fn with_circle(buf: Seq<u8>, info: FramebufferInfo, cx: int, cy: int, x: int, y: int, d: int, r: u8, g: u8, b: u8) -> Seq<u8>
    decreases (if x <= y { y - x + 1 } else { 0 }),
{
    if x > y {
        buf
    } else {
        let b1 = with_hline(buf, info, cx - x, cx + x, cy + y, r, g, b);
        let b2 = with_hline(b1, info, cx - x, cx + x, cy - y, r, g, b);
        let b3 = with_hline(b2, info, cx - y, cx + y, cy + x, r, g, b);
        let b4 = with_hline(b3, info, cx - y, cx + y, cy - x, r, g, b);
        let x2 = x + 1;
        if d < 0 {
            with_circle(b4, info, cx, cy, x2, y, d + 2 * x2 + 1, r, g, b)
        } else {
            with_circle(b4, info, cx, cy, x2, y - 1, d + 2 * (x2 - (y - 1)) + 1, r, g, b)
        }
    }
}

/// The rest of a Bresenham walk from (`x`, `y`) towards (`x1`, `y1`) with
/// error term `err`, plotting each point that has no negative coordinate,
/// for at most `fuel` more steps.
pub open spec fn with_line(buf: Seq<u8>, info: FramebufferInfo, x: int, y: int, x1: int, y1: int,
    dx: int, dy: int, sx: int, sy: int, err: int, fuel: nat, r: u8, g: u8, b: u8) -> Seq<u8>
    decreases fuel,
{
    let b1 = if x >= 0 && y >= 0 { with_pixel(buf, info, x, y, r, g, b) } else { buf };
    if (x == x1 && y == y1) || fuel == 0 {
        b1
    } else {
        let e2 = 2 * err;
        let x2 = if e2 >= dy { x + sx } else { x };
        let err2 = if e2 >= dy { err + dy } else { err };
        let y2 = if e2 <= dx { y + sy } else { y };
        let err3 = if e2 <= dx { err2 + dx } else { err2 };
        with_line(b1, info, x2, y2, x1, y1, dx, dy, sx, sy, err3, (fuel - 1) as nat, r, g, b)
    }
}

/// `buf` with bytes `from..to` moved to the start; the rest unchanged.
pub open spec fn shifted(buf: Seq<u8>, from: int, to: int) -> Seq<u8> {
    Seq::new(buf.len(), |i: int| if i < to - from { buf[i + from] } else { buf[i] })
}

impl Framebuffer {
    /// Moves the picture up by `rows` pixel rows and fills the rows freed at
    /// the bottom with the background color.
    pub fn scroll_up(&mut self, rows: usize, bg_r: u8, bg_g: u8, bg_b: u8)
        requires
            old(self).wf(),
            rows <= old(self).spec_info().height,
        ensures
            final(self).wf(),
            final(self).spec_info() == old(self).spec_info(),
            ({
                let info = old(self).spec_info();
                let line = info.stride * info.bytes_per_pixel;
                let total = info.height * line;
                let moved = if rows * line < total { shifted(old(self).bytes(), rows * line, total) } else { old(self).bytes() };
                final(self).bytes() == with_rect(moved, info, 0, info.height - rows, info.width as nat, rows as nat, bg_r, bg_g, bg_b)
            }),
    {
        let ghost info = self.info;
        let bpp = self.info.bytes_per_pixel;
        let h = self.info.height;
        let blen = self.buffer.len();
        proof {
            let st = info.stride as int;
            assert(st * bpp <= h * st * bpp || h == 0) by (nonlinear_arith)
                requires bpp >= 3, st >= 0, h >= 0;
            assert(rows * (st * bpp) <= h * (st * bpp)) by (nonlinear_arith)
                requires rows <= h, st >= 0, bpp >= 0;
            assert(h * (st * bpp) == h * st * bpp) by (nonlinear_arith);
            assert(h * st * bpp <= blen);
            if h == 0 {
                assert(rows == 0);
            }
        }
        let stride_bytes = if h == 0 { 0 } else { self.info.stride * bpp };
        let src_start = rows * stride_bytes;
        let total = h * stride_bytes;
        let ghost old_bytes = self.buffer@;
        if src_start < total {
            let n = total - src_start;
            let mut i: usize = 0;
            while i < n
                invariant
                    n == total - src_start,
                    src_start + n <= self.buffer@.len(),
                    self.buffer@.len() == old_bytes.len(),
                    0 <= i <= n,
                    self.info == info,
                    forall|j: int| 0 <= j < i ==> #[trigger] self.buffer@[j] == old_bytes[j + src_start],
                    forall|j: int| i <= j < self.buffer@.len() ==> #[trigger] self.buffer@[j] == old_bytes[j],
                decreases n - i,
            {
                let v = self.buffer[i + src_start];
                self.buffer.set(i, v);
                i = i + 1;
            }
            assert(self.buffer@ =~= shifted(old_bytes, src_start as int, total as int));
        }
        proof {
            if h == 0 {
                assert(rows == 0);
            }
        }
        let top = h - rows;
        let w = self.info.width;
        self.fill_rect(0, top, w, rows, bg_r, bg_g, bg_b);
    }
}

/// Sets up the framebuffer: its bytes and layout, cleared to black.
pub fn init(buffer: Vec<u8>, info: FramebufferInfo) -> (r: Framebuffer)
    requires
        fits(info, buffer@.len()),
    ensures
        r.wf(),
        r.spec_info() == info,
        r.bytes() == with_rect(buffer@, info, 0, 0, info.width as nat, info.height as nat, 0, 0, 0),
{
    let mut fb = Framebuffer::new(buffer, info);
    fb.clear(0, 0, 0);
    fb
}

} // verus!
