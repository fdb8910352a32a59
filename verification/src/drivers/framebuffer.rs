//! Text console on a 32-bit linear framebuffer with an 8x16 font.
use vstd::prelude::*;

verus! {

pub const FONT_WIDTH: u32 = 8;
pub const FONT_HEIGHT: u32 = 16;
pub const FONT_FIRST_CHAR: u8 = 32;
pub const FONT_LAST_CHAR: u8 = 126;

/// Bytes of font data: one 16-row glyph per printable character.
pub const FONT_BYTES: usize = 95 * 16;

/// Console state: the pixels (`pitch` pixels per row), the character grid and the
/// cursor, the colours, and the font.
pub struct FbConsole {
    pub pixels: Vec<u32>,
    pub pitch: u32,
    pub width: u32,
    pub height: u32,
    pub col: u32,
    pub row: u32,
    pub cols: u32,
    pub rows: u32,
    pub fg: u32,
    pub bg: u32,
    pub font: Vec<u8>,
    pub active: bool,
}

/// The glyph used for a byte: its own for printable ASCII, else the space.
pub open spec fn glyph_index(ch: u8) -> int {
    if FONT_FIRST_CHAR <= ch <= FONT_LAST_CHAR { (ch - FONT_FIRST_CHAR) as int } else { 0 }
}

/// The cursor after the bytes of `s`, one by one.
pub open spec fn cursor_after_all(col: u32, row: u32, cols: u32, rows: u32, s: Seq<u8>) -> (u32, u32)
    decreases s.len(),
{
    if s.len() == 0 {
        (col, row)
    } else {
        let (c, r) = cursor_after_all(col, row, cols, rows, s.drop_last());
        cursor_after(c, r, cols, rows, s.last())
    }
}

/// The cursor after a byte: newline, carriage return, tab to the next multiple of 8,
/// backspace, escape (ignored) and printable bytes; at the bottom the screen scrolls
/// and the cursor stays on the last row.
pub open spec fn cursor_after(col: u32, row: u32, cols: u32, rows: u32, byte: u8) -> (u32, u32) {
    if byte == 10 {
        if row + 1 >= rows { (0, (rows - 1) as u32) } else { (0, (row + 1) as u32) }
    } else if byte == 13 {
        (0, row)
    } else if byte == 9 {
        let next = ((col + 8) as u32) & !7u32;
        (if next < cols - 1 { next } else { (cols - 1) as u32 }, row)
    } else if byte == 8 {
        (if col > 0 { (col - 1) as u32 } else { col }, row)
    } else if byte == 0x1b {
        (col, row)
    } else if col + 1 >= cols {
        if row + 1 >= rows { (0, (rows - 1) as u32) } else { (0, (row + 1) as u32) }
    } else {
        ((col + 1) as u32, row)
    }
}

/// The byte makes the screen scroll.
pub open spec fn scrolls(col: u32, row: u32, cols: u32, rows: u32, byte: u8) -> bool {
    if byte == 10 {
        row + 1 >= rows
    } else if byte == 13 || byte == 9 || byte == 8 || byte == 0x1b {
        false
    } else {
        col + 1 >= cols && row + 1 >= rows
    }
}

/// Pixel `x` of glyph row bits `bits`: foreground where the bit is set.
pub open spec fn glyph_pixel(bits: u8, x: int, fg: u32, bg: u32) -> u32 {
    if bits & (0x80u8 >> (x as u8)) != 0 { fg } else { bg }
}

/// Pixel `k` after the screen scrolls by one text row: in the visible part of a
/// pixel row, the pixel FONT_HEIGHT rows below moves up, and the last FONT_HEIGHT
/// rows get `bg`; padding past `width` stays.
pub open spec fn scrolled_pixel(px: Seq<u32>, k: int, pitch: int, width: int, height: int, bg: u32) -> u32 {
    if k % pitch < width {
        if k / pitch < height - FONT_HEIGHT {
            px[k + FONT_HEIGHT * pitch]
        } else {
            bg
        }
    } else {
        px[k]
    }
}

proof fn lemma_row_below(k: int, p: int, h: int)
    requires
        p > 0,
        k >= 0,
    ensures
        (k / p < h) <==> (k < h * p),
{
    vstd::arithmetic::div_mod::lemma_fundamental_div_mod(k, p);
    vstd::arithmetic::div_mod::lemma_mod_pos_bound(k, p);
    let q = k / p;
    let r = k % p;
    assert((q < h) <==> (k < h * p)) by (nonlinear_arith)
        requires
            k == p * q + r,
            0 <= r < p,
            p > 0,
    ;
}

impl FbConsole {
    pub open spec fn wf(&self) -> bool {
        &&& self.cols == self.width / FONT_WIDTH
        &&& self.rows == self.height / FONT_HEIGHT
        &&& self.cols >= 1
        &&& self.rows >= 1
        &&& self.col < self.cols
        &&& self.row < self.rows
        &&& self.width <= self.pitch
        &&& self.pixels@.len() == self.pitch * self.height
        &&& self.pitch * self.height <= 0xFFFF_FFFF
        &&& self.font@.len() == FONT_BYTES
    }

    /// A console on a `width` x `height` framebuffer with `pitch` bytes per row; only 32
    /// bits per pixel is supported. Light grey on black, cursor at the top left.
    pub fn init(width: u32, height: u32, pitch: u32, bpp: u16, font: Vec<u8>) -> (r: Option<FbConsole>)
        ensures
            r matches Some(fb) ==> fb.wf() && fb.col == 0 && fb.row == 0 && fb.fg == 0x00CC_CCCC && fb.bg == 0
                && fb.pitch == pitch / 4 && fb.width == width && fb.height == height
                && fb.cols == width / FONT_WIDTH && fb.rows == height / FONT_HEIGHT
                && fb.font@ == font@ && !fb.active
                && forall|k: int| 0 <= k < fb.pixels@.len() ==> #[trigger] fb.pixels@[k] == 0,
            r is Some <==> bpp == 32 && width / FONT_WIDTH >= 1 && height / FONT_HEIGHT >= 1
                && width <= pitch / 4 && font@.len() == FONT_BYTES
                && (pitch / 4) as int * height as int <= 0xFFFF_FFFF,
    {
        if bpp != 32 {
            return None;
        }
        let cols = width / FONT_WIDTH;
        let rows = height / FONT_HEIGHT;
        let ppitch = pitch / 4;
        if cols == 0 || rows == 0 || width > ppitch || font.len() != FONT_BYTES {
            return None;
        }
        assert((ppitch as u64) * (height as u64) <= 0xFFFF_FFFF * 0xFFFF_FFFF) by (nonlinear_arith)
            requires
                ppitch <= 0xFFFF_FFFF,
                height <= 0xFFFF_FFFF,
        ;
        let total = (ppitch as u64) * (height as u64);
        if total > 0xFFFF_FFFF || total > usize::MAX as u64 {
            return None;
        }
        let n = total as usize;
        let mut pixels: Vec<u32> = Vec::new();
        while pixels.len() < n
            invariant
                pixels@.len() <= n,
                forall|k: int| 0 <= k < pixels@.len() ==> #[trigger] pixels@[k] == 0,
            decreases n - pixels@.len(),
        {
            pixels.push(0);
        }
        Some(FbConsole { pixels, pitch: ppitch, width, height, col: 0, row: 0, cols, rows, fg: 0x00CC_CCCC, bg: 0, font, active: false })
    }

    /// Draw the glyph of `ch` into character cell (`col`, `row`).
    pub fn draw_glyph(&mut self, col: u32, row: u32, ch: u8)
        requires
            old(self).wf(),
            col < old(self).cols,
            row < old(self).rows,
        ensures
            final(self).wf(),
            final(self).col == old(self).col && final(self).row == old(self).row,
            final(self).fg == old(self).fg && final(self).bg == old(self).bg,
            final(self).font@ == old(self).font@,
            final(self).pitch == old(self).pitch && final(self).width == old(self).width && final(self).height == old(self).height,
            final(self).active == old(self).active,
            forall|y: int, x: int| 0 <= y < FONT_HEIGHT && 0 <= x < FONT_WIDTH ==>
                #[trigger] final(self).pixels@[(row * FONT_HEIGHT + y) * old(self).pitch + col * FONT_WIDTH + x]
                    == glyph_pixel(old(self).font@[glyph_index(ch) * 16 + y], x, old(self).fg, old(self).bg),
    {
        let gi: usize = if FONT_FIRST_CHAR <= ch && ch <= FONT_LAST_CHAR { (ch - FONT_FIRST_CHAR) as usize } else { 0 };
        let px = col * FONT_WIDTH;
        let py = row * FONT_HEIGHT;
        proof {
            assert(px + FONT_WIDTH <= self.width) by (nonlinear_arith)
                requires
                    col < self.cols,
                    self.cols == self.width / 8,
                    px == col * 8,
            ;
            assert(py + FONT_HEIGHT <= self.height) by (nonlinear_arith)
                requires
                    row < self.rows,
                    self.rows == self.height / 16,
                    py == row * 16,
            ;
        }
        let ghost start = self.pixels@;
        let mut y: u32 = 0;
        while y < FONT_HEIGHT
            invariant
                self.active == old(self).active,
                y <= FONT_HEIGHT,
                self.wf(),
                self.col == old(self).col && self.row == old(self).row,
                self.fg == old(self).fg && self.bg == old(self).bg,
                self.font@ == old(self).font@,
                self.pitch == old(self).pitch,
                self.width == old(self).width,
                self.height == old(self).height,
                gi == glyph_index(ch),
                px == col * FONT_WIDTH,
                py == row * FONT_HEIGHT,
                px + FONT_WIDTH <= self.width,
                py + FONT_HEIGHT <= self.height,
                forall|yy: int, x: int| 0 <= yy < y && 0 <= x < FONT_WIDTH ==>
                    #[trigger] self.pixels@[(py + yy) * self.pitch + px + x]
                        == glyph_pixel(self.font@[gi * 16 + yy], x, self.fg, self.bg),
            decreases FONT_HEIGHT - y,
        {
            let bits = self.font[gi * 16 + y as usize];
            let mut x: u32 = 0;
            while x < FONT_WIDTH
                invariant
                    self.active == old(self).active,
                    x <= FONT_WIDTH,
                    y < FONT_HEIGHT,
                    self.wf(),
                    self.col == old(self).col && self.row == old(self).row,
                    self.fg == old(self).fg && self.bg == old(self).bg,
                    self.font@ == old(self).font@,
                    self.pitch == old(self).pitch,
                    self.width == old(self).width,
                    self.height == old(self).height,
                    gi == glyph_index(ch),
                    bits == self.font@[gi * 16 + y],
                    px + FONT_WIDTH <= self.width,
                    py + FONT_HEIGHT <= self.height,
                    forall|yy: int, xx: int| 0 <= yy < y && 0 <= xx < FONT_WIDTH ==>
                        #[trigger] self.pixels@[(py + yy) * self.pitch + px + xx]
                            == glyph_pixel(self.font@[gi * 16 + yy], xx, self.fg, self.bg),
                    forall|xx: int| 0 <= xx < x ==>
                        #[trigger] self.pixels@[(py + y) * self.pitch + px + xx]
                            == glyph_pixel(bits, xx, self.fg, self.bg),
                decreases FONT_WIDTH - x,
            {
                let pixel = if bits & (0x80u8 >> (x as u8)) != 0 { self.fg } else { self.bg };
                proof {
                    assert((py + y) * self.pitch + px + x < self.pitch * self.height) by (nonlinear_arith)
                        requires
                            py + y < self.height,
                            px + x < self.width,
                            self.width <= self.pitch,
                    ;
                }
                let offset = ((py + y) * self.pitch + (px + x)) as usize;
                assert(offset as int == (py + y) * self.pitch + px + x);
                let ghost before = self.pixels@;
                self.pixels.set(offset, pixel);
                proof {
                    assert(self.pixels@ == before.update(offset as int, pixel));
                    assert forall|yy: int, xx: int| 0 <= yy < y && 0 <= xx < FONT_WIDTH implies
                        #[trigger] self.pixels@[(py + yy) * self.pitch + px + xx]
                            == glyph_pixel(self.font@[gi * 16 + yy], xx, self.fg, self.bg) by {
                        lemma_cell_distinct(py as int, px as int, yy, xx, y as int, x as int, self.pitch as int);
                        assert(0 <= (py + yy) * self.pitch + px + xx) by (nonlinear_arith)
                            requires
                                py >= 0,
                                yy >= 0,
                                px >= 0,
                                xx >= 0,
                                self.pitch >= 0,
                        ;
                        let k = (py + yy) * self.pitch + px + xx;
                        assert(k < self.pitch * self.height) by (nonlinear_arith)
                            requires
                                py + yy < self.height,
                                px + xx < self.width,
                                self.width <= self.pitch,
                                k == (py + yy) * self.pitch + px + xx,
                        ;
                        assert(k != offset as int);
                        assert(self.pixels@[k] == before[k]);
                        assert(before[k] == glyph_pixel(self.font@[gi * 16 + yy], xx, self.fg, self.bg));
                    }
                    assert forall|xx: int| 0 <= xx < x + 1 implies
                        #[trigger] self.pixels@[(py + y) * self.pitch + px + xx]
                            == glyph_pixel(bits, xx, self.fg, self.bg) by {
                        if xx < x {
                            assert(before[(py + y) * self.pitch + px + xx] == glyph_pixel(bits, xx, self.fg, self.bg));
                        }
                    }
                }
                x = x + 1;
            }
            y = y + 1;
        }
    }

    /// Move every text row up by one and clear the last one: in the visible part of
    /// each pixel row, rows below the first text row move up by FONT_HEIGHT pixel rows
    /// and the last FONT_HEIGHT pixel rows get the background colour; the padding past
    /// `width` is left as it is.
    pub fn scroll_up(&mut self)
        requires
            old(self).wf(),
        ensures
            final(self).wf(),
            final(self).col == old(self).col && final(self).row == old(self).row,
            final(self).fg == old(self).fg && final(self).bg == old(self).bg,
            final(self).font@ == old(self).font@,
            final(self).pitch == old(self).pitch && final(self).width == old(self).width && final(self).height == old(self).height,
            final(self).active == old(self).active,
            final(self).pixels@.len() == old(self).pixels@.len(),
            forall|k: int| 0 <= k < old(self).pixels@.len() ==> #[trigger] final(self).pixels@[k] == scrolled_pixel(
                old(self).pixels@,
                k,
                old(self).pitch as int,
                old(self).width as int,
                old(self).height as int,
                old(self).bg,
            ),
    {
        let pitch = self.pitch;
        let h = self.height - FONT_HEIGHT;
        let ghost p = pitch as int;
        let ghost w = self.width as int;
        let ghost old_px = self.pixels@;
        let ghost bg = self.bg;
        let mut y: u32 = 0;
        while y < h
            invariant
                self.active == old(self).active,
                y <= h,
                h == self.height - FONT_HEIGHT,
                pitch == self.pitch,
                p == pitch,
                w == self.width,
                p > 0,
                self.wf(),
                self.col == old(self).col && self.row == old(self).row,
                self.fg == old(self).fg && self.bg == old(self).bg,
                self.font@ == old(self).font@,
                self.pitch == old(self).pitch && self.width == old(self).width && self.height == old(self).height,
                old_px == old(self).pixels@,
                self.pixels@.len() == old_px.len(),
                forall|k: int| 0 <= k < old_px.len() ==> #[trigger] self.pixels@[k] == if k < y * p && k % p < w {
                    old_px[k + FONT_HEIGHT * p]
                } else {
                    old_px[k]
                },
            decreases h - y,
        {
            let mut x: u32 = 0;
            while x < self.width
                invariant
                    self.active == old(self).active,
                    x <= self.width,
                    y < h,
                    h == self.height - FONT_HEIGHT,
                    pitch == self.pitch,
                    p == pitch,
                    w == self.width,
                    p > 0,
                    self.wf(),
                    self.col == old(self).col && self.row == old(self).row,
                    self.fg == old(self).fg && self.bg == old(self).bg,
                    self.font@ == old(self).font@,
                    self.pitch == old(self).pitch && self.width == old(self).width && self.height == old(self).height,
                    old_px == old(self).pixels@,
                    self.pixels@.len() == old_px.len(),
                    forall|k: int| 0 <= k < old_px.len() ==> #[trigger] self.pixels@[k] == if (k < y * p && k % p < w) || (y * p <= k < y * p + x) {
                        old_px[k + FONT_HEIGHT * p]
                    } else {
                        old_px[k]
                    },
                decreases self.width - x,
            {
                proof {
                    assert((y + FONT_HEIGHT) * pitch + x < pitch * self.height) by (nonlinear_arith)
                        requires
                            y + 16 < self.height,
                            x < self.width,
                            self.width <= pitch,
                    ;
                    assert(y * pitch + x < pitch * self.height) by (nonlinear_arith)
                        requires
                            y + 16 < self.height,
                            x < self.width,
                            self.width <= pitch,
                    ;
                    assert((y + FONT_HEIGHT) * p + x == (y * p + x) + FONT_HEIGHT * p) by (nonlinear_arith);
                    assert(y * p + p <= (y + FONT_HEIGHT) * p) by (nonlinear_arith)
                        requires
                            p > 0,
                    ;
                }
                let src = ((y + FONT_HEIGHT) * pitch + x) as usize;
                let dst = (y * pitch + x) as usize;
                let px = self.pixels[src];
                assert(px == old_px[src as int]);
                self.pixels.set(dst, px);
                x = x + 1;
            }
            proof {
                assert forall|k: int| 0 <= k < old_px.len() implies #[trigger] self.pixels@[k] == if k < y * p + p && k % p < w {
                    old_px[k + FONT_HEIGHT * p]
                } else {
                    old_px[k]
                } by {
                    if y * p <= k < y * p + p {
                        vstd::arithmetic::div_mod::lemma_fundamental_div_mod_converse(k, p, y as int, k - y * p);
                    }
                }
                assert((y as int + 1) * p == (y as int) * p + p) by (nonlinear_arith);
            }
            y = y + 1;
        }
        let mut y2: u32 = 0;
        while y2 < FONT_HEIGHT
            invariant
                self.active == old(self).active,
                y2 <= FONT_HEIGHT,
                h == self.height - FONT_HEIGHT,
                pitch == self.pitch,
                p == pitch,
                w == self.width,
                p > 0,
                bg == self.bg,
                self.wf(),
                self.col == old(self).col && self.row == old(self).row,
                self.fg == old(self).fg && self.bg == old(self).bg,
                self.font@ == old(self).font@,
                self.pitch == old(self).pitch && self.width == old(self).width && self.height == old(self).height,
                old_px == old(self).pixels@,
                self.pixels@.len() == old_px.len(),
                forall|k: int| 0 <= k < old_px.len() ==> #[trigger] self.pixels@[k] == if k < h * p && k % p < w {
                    old_px[k + FONT_HEIGHT * p]
                } else if h * p <= k < (h + y2) * p && k % p < w {
                    bg
                } else {
                    old_px[k]
                },
            decreases FONT_HEIGHT - y2,
        {
            let mut x: u32 = 0;
            while x < self.width
                invariant
                    self.active == old(self).active,
                    x <= self.width,
                    y2 < FONT_HEIGHT,
                    h == self.height - FONT_HEIGHT,
                    pitch == self.pitch,
                    p == pitch,
                    w == self.width,
                    p > 0,
                    bg == self.bg,
                    self.wf(),
                    self.col == old(self).col && self.row == old(self).row,
                    self.fg == old(self).fg && self.bg == old(self).bg,
                    self.font@ == old(self).font@,
                    self.pitch == old(self).pitch && self.width == old(self).width && self.height == old(self).height,
                    old_px == old(self).pixels@,
                    self.pixels@.len() == old_px.len(),
                    forall|k: int| 0 <= k < old_px.len() ==> #[trigger] self.pixels@[k] == if k < h * p && k % p < w {
                        old_px[k + FONT_HEIGHT * p]
                    } else if (h * p <= k < (h + y2) * p && k % p < w) || ((h + y2) * p <= k < (h + y2) * p + x) {
                        bg
                    } else {
                        old_px[k]
                    },
                decreases self.width - x,
            {
                proof {
                    assert((h + y2) * pitch + x < pitch * self.height) by (nonlinear_arith)
                        requires
                            h + y2 < self.height,
                            x < self.width,
                            self.width <= pitch,
                    ;
                    assert(h * p <= (h + y2) * p) by (nonlinear_arith)
                        requires
                            p > 0,
                    ;
                }
                let idx = ((h + y2) * pitch + x) as usize;
                let bgc = self.bg;
                self.pixels.set(idx, bgc);
                x = x + 1;
            }
            proof {
                let r = (h + y2) as int;
                assert forall|k: int| 0 <= k < old_px.len() implies #[trigger] self.pixels@[k] == if k < h * p && k % p < w {
                    old_px[k + FONT_HEIGHT * p]
                } else if h * p <= k < r * p + p && k % p < w {
                    bg
                } else {
                    old_px[k]
                } by {
                    if r * p <= k < r * p + p {
                        vstd::arithmetic::div_mod::lemma_fundamental_div_mod_converse(k, p, r, k - r * p);
                    }
                    assert(h * p <= r * p) by (nonlinear_arith)
                        requires
                            p > 0,
                            h <= r,
                    ;
                }
                assert((r + 1) * p == r * p + p) by (nonlinear_arith);
            }
            y2 = y2 + 1;
        }
        proof {
            assert((h + FONT_HEIGHT) as int * p == old_px.len()) by (nonlinear_arith)
                requires
                    old_px.len() == p * (self.height as int),
                    h + FONT_HEIGHT == self.height,
            ;
            assert forall|k: int| 0 <= k < old_px.len() implies #[trigger] self.pixels@[k] == scrolled_pixel(
                old_px,
                k,
                p,
                w,
                self.height as int,
                bg,
            ) by {
                lemma_row_below(k, p, h as int);
            }
        }
    }

    /// Write one byte to the console.
    pub fn put_char(&mut self, byte: u8)
        requires
            old(self).wf(),
        ensures
            final(self).wf(),
            (final(self).col, final(self).row) == cursor_after(old(self).col, old(self).row, old(self).cols, old(self).rows, byte),
            final(self).fg == old(self).fg && final(self).bg == old(self).bg,
            final(self).width == old(self).width && final(self).height == old(self).height,
            final(self).active == old(self).active,
    {
        if byte == 10 {
            self.col = 0;
            if self.row + 1 >= self.rows {
                self.scroll_up();
                self.row = self.rows - 1;
            } else {
                self.row = self.row + 1;
            }
        } else if byte == 13 {
            self.col = 0;
        } else if byte == 9 {
            let next = (self.col + 8) & !7u32;
            self.col = if next < self.cols - 1 { next } else { self.cols - 1 };
        } else if byte == 8 {
            if self.col > 0 {
                self.col = self.col - 1;
                let (c, r) = (self.col, self.row);
                self.draw_glyph(c, r, 32);
            }
        } else if byte == 0x1b {
        } else {
            let (c, r) = (self.col, self.row);
            self.draw_glyph(c, r, byte);
            if self.col + 1 >= self.cols {
                self.col = 0;
                if self.row + 1 >= self.rows {
                    self.scroll_up();
                    self.row = self.rows - 1;
                } else {
                    self.row = self.row + 1;
                }
            } else {
                self.col = self.col + 1;
            }
        }
    }

    /// Fill the visible part of every pixel row with the background colour (the
    /// padding past `width` is left as it is) and put the cursor at the top left.
    pub fn clear_screen(&mut self)
        requires
            old(self).wf(),
        ensures
            final(self).wf(),
            final(self).col == 0,
            final(self).row == 0,
            final(self).pixels@.len() == old(self).pixels@.len(),
            forall|k: int| 0 <= k < old(self).pixels@.len() ==> #[trigger] final(self).pixels@[k] == if k % (old(self).pitch as int) < old(self).width {
                old(self).bg
            } else {
                old(self).pixels@[k]
            },
            final(self).pitch == old(self).pitch,
            final(self).width == old(self).width,
            final(self).height == old(self).height,
            final(self).cols == old(self).cols,
            final(self).rows == old(self).rows,
            final(self).fg == old(self).fg,
            final(self).bg == old(self).bg,
            final(self).font == old(self).font,
            final(self).active == old(self).active,
    {
        let ghost p = self.pitch as int;
        let ghost w = self.width as int;
        let ghost old_px = self.pixels@;
        let ghost bg = self.bg;
        let mut y: u32 = 0;
        while y < self.height
            invariant
                0 <= y <= self.height,
                self.wf(),
                p == self.pitch,
                w == self.width,
                bg == self.bg,
                p > 0,
                self.pixels@.len() == old_px.len(),
                self.pitch == old(self).pitch,
                self.width == old(self).width,
                self.height == old(self).height,
                self.cols == old(self).cols,
                self.rows == old(self).rows,
                self.col == old(self).col,
                self.row == old(self).row,
                self.fg == old(self).fg,
                self.bg == old(self).bg,
                self.font == old(self).font,
                self.active == old(self).active,
                old_px == old(self).pixels@,
                forall|k: int| 0 <= k < old_px.len() ==> #[trigger] self.pixels@[k] == if k < y * p && k % p < w {
                    bg
                } else {
                    old_px[k]
                },
            decreases self.height - y,
        {
            let mut x: u32 = 0;
            assert((y as int) * p + p <= (self.height as int) * p) by (nonlinear_arith)
                requires
                    y < self.height,
                    p > 0,
            ;
            while x < self.width
                invariant
                    0 <= x <= self.width,
                    y < self.height,
                    self.wf(),
                    p == self.pitch,
                    w == self.width,
                    bg == self.bg,
                    p > 0,
                    (y as int) * p + p <= (self.height as int) * p,
                    self.pixels@.len() == old_px.len(),
                    self.pitch == old(self).pitch,
                    self.width == old(self).width,
                    self.height == old(self).height,
                    self.cols == old(self).cols,
                    self.rows == old(self).rows,
                    self.col == old(self).col,
                    self.row == old(self).row,
                    self.fg == old(self).fg,
                    self.bg == old(self).bg,
                    self.font == old(self).font,
                    self.active == old(self).active,
                    old_px == old(self).pixels@,
                    forall|k: int| 0 <= k < old_px.len() ==> #[trigger] self.pixels@[k] == if (k < y * p && k % p < w) || (y * p <= k < y * p + x) {
                        bg
                    } else {
                        old_px[k]
                    },
                decreases self.width - x,
            {
                let idx = y * self.pitch + x;
                proof {
                    vstd::arithmetic::div_mod::lemma_fundamental_div_mod_converse(idx as int, p, y as int, x as int);
                }
                self.pixels.set(idx as usize, self.bg);
                x = x + 1;
            }
            proof {
                assert forall|k: int| 0 <= k < old_px.len() implies #[trigger] self.pixels@[k] == if k < y * p + p && k % p < w {
                    bg
                } else {
                    old_px[k]
                } by {
                    if y * p <= k < y * p + p {
                        vstd::arithmetic::div_mod::lemma_fundamental_div_mod_converse(k, p, y as int, k - y * p);
                    } else if k < y * p {
                    }
                }
                assert((y as int + 1) * p == (y as int) * p + p) by (nonlinear_arith);
            }
            y = y + 1;
        }
        assert(old_px.len() == (y as int) * p) by (nonlinear_arith)
            requires
                old_px.len() == p * (self.height as int),
                y == self.height,
        ;
        self.col = 0;
        self.row = 0;
    }

    /// Turn output on (once start-up is done); until then `write_str` shows nothing.
    pub fn activate(&mut self)
        requires
            old(self).wf(),
        ensures
            final(self).wf(),
            final(self).active,
            final(self).col == old(self).col,
            final(self).row == old(self).row,
            final(self).pixels == old(self).pixels,
    {
        self.active = true;
    }

    /// Write a string to the console, byte by byte, once output is on.
    pub fn write_str(&mut self, s: &[u8])
        requires
            old(self).wf(),
        ensures
            final(self).wf(),
            final(self).active == old(self).active,
            !old(self).active ==> *final(self) == *old(self),
            old(self).active ==> (final(self).col, final(self).row)
                == cursor_after_all(old(self).col, old(self).row, old(self).cols, old(self).rows, s@),
    {
        if !self.active {
            return;
        }
        let mut i: usize = 0;
        while i < s.len()
            invariant
                self.wf(),
                self.active,
                self.cols == old(self).cols,
                self.rows == old(self).rows,
                i <= s@.len(),
                (self.col, self.row) == cursor_after_all(old(self).col, old(self).row, old(self).cols, old(self).rows, s@.take(i as int)),
            decreases s@.len() - i,
        {
            proof {
                assert(s@.take(i + 1).drop_last() =~= s@.take(i as int));
            }
            self.put_char(s[i]);
            i = i + 1;
        }
        assert(s@.take(s@.len() as int) =~= s@);
    }

    /// Write one byte to the console.
    pub fn write_byte_fb(&mut self, byte: u8)
        requires
            old(self).wf(),
        ensures
            final(self).wf(),
            (final(self).col, final(self).row) == cursor_after(old(self).col, old(self).row, old(self).cols, old(self).rows, byte),
    {
        self.put_char(byte);
    }
}

/// Pixels of two different glyph positions are different pixels.
proof fn lemma_cell_distinct(py: int, px: int, yy: int, xx: int, y: int, x: int, pitch: int)
    requires
        0 <= yy < y,
        0 <= xx < 8,
        0 <= x < 8,
        px + 8 <= pitch,
        0 <= px,
    ensures
        (py + yy) * pitch + px + xx != (py + y) * pitch + px + x,
{
    assert((py + y) * pitch - (py + yy) * pitch == (y - yy) * pitch) by (nonlinear_arith);
    assert((y - yy) * pitch >= pitch) by (nonlinear_arith)
        requires
            y - yy >= 1,
            pitch >= 8,
    ;
}

} // verus!
