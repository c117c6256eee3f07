//! Software rendering into a flat row-major pixel buffer of
//! `WIDTH * HEIGHT` packed color values.  Every write is clipped to the
//! buffer: out-of-bounds coordinates are never written.

use vstd::prelude::*;

use vstd::std_specs::iter::IteratorSpec;

use crate::{HEIGHT, WIDTH};

verus! {

/// The column a flat buffer index sits in.
pub open spec fn pixel_x(i: int) -> int {
    i % (WIDTH as int)
}

/// The row a flat buffer index sits in.
pub open spec fn pixel_y(i: int) -> int {
    i / (WIDTH as int)
}

/// A pixel write as a value: the buffer with the pixel at column `x`, row
/// `y` overwritten, or the buffer unchanged when the coordinates are
/// outside it.
pub open spec fn paint_at(buf: Seq<u32>, x: int, y: int, color: u32) -> Seq<u32> {
    if 0 <= x < WIDTH && 0 <= y < HEIGHT {
        buf.update(y * (WIDTH as int) + x, color)
    } else {
        buf
    }
}

/// Writes one pixel, leaving the buffer untouched when the coordinates are
/// outside it.
pub fn set_pixel(buffer: &mut Vec<u32>, x: u32, y: u32, color: u32)
    requires
        old(buffer).len() == WIDTH * HEIGHT,
    ensures
        final(buffer).len() == old(buffer).len(),
        final(buffer)@ == paint_at(old(buffer)@, x as int, y as int, color),
        forall|i: int|
            0 <= i < old(buffer).len() ==> final(buffer)[i] == (if pixel_x(i) == x && pixel_y(i)
                == y {
                color
            } else {
                old(buffer)[i]
            }),
{
    if x < WIDTH as u32 && y < HEIGHT as u32 {
        let idx: usize = (y as usize) * WIDTH + (x as usize);
        buffer[idx] = color;
        proof {
            vstd::arithmetic::div_mod::lemma_fundamental_div_mod_converse(
                idx as int,
                WIDTH as int,
                y as int,
                x as int,
            );
            assert forall|i: int|
                0 <= i < old(buffer).len() && i != idx implies !(pixel_x(i) == x && pixel_y(i)
                == y) by {
                vstd::arithmetic::div_mod::lemma_fundamental_div_mod(i, WIDTH as int);
            }
        }
    } else {
        proof {
            assert forall|i: int| 0 <= i < old(buffer).len() implies pixel_x(i) < WIDTH && pixel_y(
                i,
            ) < HEIGHT by {
                vstd::arithmetic::div_mod::lemma_div_is_ordered(
                    i,
                    (WIDTH * HEIGHT - 1) as int,
                    WIDTH as int,
                );
            }
        }
    }
}

/// Whether the pixel at column `x`, row `y` belongs to the rectangle from
/// `tl` (inclusive) to `br` (exclusive): all of it when filled, otherwise
/// only its border rows and columns.
pub open spec fn paints(filled: bool, tl: (u32, u32), br: (u32, u32), x: int, y: int) -> bool {
    &&& tl.0 <= x < br.0
    &&& tl.1 <= y < br.1
    &&& (filled || y == tl.1 || y == br.1 || x == tl.0 || x == br.0)
}

/// Rasterizes an axis-aligned rectangle, filled or outlined, overwriting
/// exactly the pixels `paints` describes and clipping to the buffer.
pub fn rectangle(
    buffer: &mut Vec<u32>,
    top_left: (u32, u32),
    bottom_right: (u32, u32),
    filled: bool,
    color: u32,
)
    requires
        old(buffer).len() == WIDTH * HEIGHT,
    ensures
        final(buffer).len() == old(buffer).len(),
        forall|i: int|
            0 <= i < old(buffer).len() ==> final(buffer)[i] == (if paints(
                filled,
                top_left,
                bottom_right,
                pixel_x(i),
                pixel_y(i),
            ) {
                color
            } else {
                old(buffer)[i]
            }),
{
    let mut x: u32 = top_left.0;
    while x < bottom_right.0
        invariant
            old(buffer).len() == WIDTH * HEIGHT,
            buffer.len() == old(buffer).len(),
            top_left.0 <= x,
            forall|i: int|
                0 <= i < old(buffer).len() ==> buffer[i] == (if paints(
                    filled,
                    top_left,
                    bottom_right,
                    pixel_x(i),
                    pixel_y(i),
                ) && pixel_x(i) < x {
                    color
                } else {
                    old(buffer)[i]
                }),
        decreases bottom_right.0 - x,
    {
        let mut y: u32 = top_left.1;
        while y < bottom_right.1
            invariant
                old(buffer).len() == WIDTH * HEIGHT,
                buffer.len() == old(buffer).len(),
                top_left.0 <= x < bottom_right.0,
                top_left.1 <= y,
                forall|i: int|
                    0 <= i < old(buffer).len() ==> buffer[i] == (if paints(
                        filled,
                        top_left,
                        bottom_right,
                        pixel_x(i),
                        pixel_y(i),
                    ) && (pixel_x(i) < x || (pixel_x(i) == x && pixel_y(i) < y)) {
                        color
                    } else {
                        old(buffer)[i]
                    }),
            decreases bottom_right.1 - y,
        {
            if filled {
                set_pixel(buffer, x, y, color);
            } else {
                if y == top_left.1 || y == bottom_right.1 || x == top_left.0 || x
                    == bottom_right.0 {
                    set_pixel(buffer, x, y, color);
                }
            }
            y = y + 1;
        }
        x = x + 1;
    }
}

/// The left edge of a lane's horizontal band.
pub open spec fn key_left(n: int) -> int {
    (WIDTH as int) / 2 - 160 + 80 * n
}

/// The right edge of a lane's horizontal band.
pub open spec fn key_right(n: int) -> int {
    key_left(n) + 80
}

/// The top row of a key rectangle drawn at `height`: 10 rows above it,
/// clamped at the top of the screen.
pub open spec fn key_top(height: u32) -> u32 {
    if height >= 10 {
        (height - 10) as u32
    } else {
        0
    }
}

/// The bottom row of a key rectangle drawn at `height`, clamped at the
/// bottom of the screen.
pub open spec fn key_bottom(height: u32) -> u32 {
    if height <= HEIGHT {
        height
    } else {
        HEIGHT as u32
    }
}

/// Fills lane `n`'s band with a 10-row-tall rectangle whose bottom edge is
/// at `height` (clamped to the screen).
pub fn draw_key(buffer: &mut Vec<u32>, n: usize, height: u32, color: u32)
    requires
        old(buffer).len() == WIDTH * HEIGHT,
        n < 4,
    ensures
        final(buffer).len() == old(buffer).len(),
        forall|i: int|
            0 <= i < old(buffer).len() ==> final(buffer)[i] == (if paints(
                true,
                (key_left(n as int) as u32, key_top(height)),
                (key_right(n as int) as u32, key_bottom(height)),
                pixel_x(i),
                pixel_y(i),
            ) {
                color
            } else {
                old(buffer)[i]
            }),
{
    let key_areas: [[usize; 2]; 4] = [
        [WIDTH / 2 - 160, WIDTH / 2 - 80],
        [WIDTH / 2 - 80, WIDTH / 2],
        [WIDTH / 2, WIDTH / 2 + 80],
        [WIDTH / 2 + 80, WIDTH / 2 + 160],
    ];

    let top: u32 = if height >= 10 {
        height - 10
    } else {
        0
    };
    let bottom: u32 = if height <= HEIGHT as u32 {
        height
    } else {
        HEIGHT as u32
    };
    rectangle(
        buffer,
        (key_areas[n][0] as u32, top),
        (key_areas[n][1] as u32, bottom),
        true,
        color,
    );
}

/// One rasterized character: its dimensions and the list of its set
/// pixels, as offsets from the glyph's top-left corner.
#[derive(Debug)]
pub struct Glyph {
    /// The character the glyph draws.
    pub codepoint: char,
    /// Horizontal advance to the next glyph, in pixels.
    pub width: u32,
    /// Glyph height, in pixels; 1.2 times the height of the `'a'` glyph is
    /// the vertical advance of a line break.
    pub height: u32,
    /// The set pixels, each `(column, row)` from the glyph's top-left.
    pub pixels: Vec<(u32, u32)>,
}

impl Glyph {
    /// Sane dimensions, so that offsets accumulated over a text stay far
    /// from the integer limits.
    pub open spec fn wf(self) -> bool {
        self.width <= 0xFFFF && self.height <= 0xFFFF
    }
}

/// A set of glyphs, looked up by character; the first glyph listed for a
/// character wins.
#[derive(Debug)]
pub struct Font {
    pub glyphs: Vec<Glyph>,
}

/// The first glyph in `gs` for character `c`, if any.
pub open spec fn find_glyph(gs: Seq<Glyph>, c: char) -> Option<Glyph>
    decreases gs.len(),
{
    if gs.len() == 0 {
        None
    } else if gs[0].codepoint == c {
        Some(gs[0])
    } else {
        find_glyph(gs.drop_first(), c)
    }
}

proof fn lemma_find_glyph_wf(gs: Seq<Glyph>, c: char)
    requires
        forall|i: int| 0 <= i < gs.len() ==> (#[trigger] gs[i]).wf(),
    ensures
        find_glyph(gs, c) matches Some(g) ==> g.wf(),
    decreases gs.len(),
{
    if gs.len() > 0 && gs[0].codepoint != c {
        let rest = gs.drop_first();
        assert forall|i: int| 0 <= i < rest.len() implies (#[trigger] rest[i]).wf() by {
            assert(rest[i] == gs[i + 1]);
        }
        lemma_find_glyph_wf(rest, c);
    }
}

impl Font {
    /// Every glyph has sane dimensions.
    pub open spec fn wf(self) -> bool {
        forall|i: int| 0 <= i < self.glyphs@.len() ==> (#[trigger] self.glyphs@[i]).wf()
    }

    /// The glyph this font draws for `c`, if it has one.
    pub open spec fn spec_glyph(self, c: char) -> Option<Glyph> {
        find_glyph(self.glyphs@, c)
    }

    /// Looks the glyph for `c` up.
    pub fn glyph_for(&self, c: char) -> (r: Option<&Glyph>)
        ensures
            match r {
                Some(g) => self.spec_glyph(c) == Some(*g),
                None => self.spec_glyph(c) is None,
            },
    {
        proof {
            assert(self.glyphs@.skip(0) =~= self.glyphs@);
        }
        let mut i: usize = 0;
        while i < self.glyphs.len()
            invariant
                i <= self.glyphs@.len(),
                find_glyph(self.glyphs@.skip(i as int), c) == find_glyph(self.glyphs@, c),
            decreases self.glyphs@.len() - i,
        {
            proof {
                assert(self.glyphs@.skip(i as int)[0] == self.glyphs@[i as int]);
                assert(self.glyphs@.skip(i as int).drop_first() =~= self.glyphs@.skip(i as int + 1));
            }
            if self.glyphs[i].codepoint == c {
                return Some(&self.glyphs[i]);
            }
            i = i + 1;
        }
        proof {
            assert(self.glyphs@.skip(self.glyphs@.len() as int) =~= Seq::<Glyph>::empty());
        }
        None
    }
}

/// A glyph's set pixels painted in order at base position `(bx, by)`, each
/// clipped to the buffer.
pub open spec fn render_pts(
    buf: Seq<u32>,
    pts: Seq<(u32, u32)>,
    bx: int,
    by: int,
    color: u32,
) -> Seq<u32>
    decreases pts.len(),
{
    if pts.len() == 0 {
        buf
    } else {
        render_pts(
            paint_at(buf, bx + pts[0].0, by + pts[0].1, color),
            pts.drop_first(),
            bx,
            by,
            color,
        )
    }
}

proof fn lemma_render_pts_snoc(buf: Seq<u32>, pts: Seq<(u32, u32)>, p: (u32, u32), bx: int, by: int, color: u32)
    ensures
        render_pts(buf, pts.push(p), bx, by, color) == paint_at(
            render_pts(buf, pts, bx, by, color),
            bx + p.0,
            by + p.1,
            color,
        ),
    decreases pts.len(),
{
    reveal_with_fuel(render_pts, 3);
    if pts.len() == 0 {
        assert(pts.push(p) =~= seq![p]);
        assert(seq![p].drop_first() =~= Seq::<(u32, u32)>::empty());
    } else {
        assert(pts.push(p).drop_first() =~= pts.drop_first().push(p));
        lemma_render_pts_snoc(
            paint_at(buf, bx + pts[0].0, by + pts[0].1, color),
            pts.drop_first(),
            p,
            bx,
            by,
            color,
        );
    }
}

proof fn lemma_render_pts_len(buf: Seq<u32>, pts: Seq<(u32, u32)>, bx: int, by: int, color: u32)
    requires
        buf.len() == WIDTH * HEIGHT,
    ensures
        render_pts(buf, pts, bx, by, color).len() == buf.len(),
    decreases pts.len(),
{
    if pts.len() > 0 {
        lemma_render_pts_len(paint_at(buf, bx + pts[0].0, by + pts[0].1, color), pts.drop_first(), bx, by, color);
    }
}

/// Paints every set pixel of a glyph whose top-left corner is at
/// `(bx, by)`, clipping to the buffer.
pub fn draw_glyph(buffer: &mut Vec<u32>, glyph: &Glyph, bx: u64, by: u64, color: u32)
    requires
        old(buffer).len() == WIDTH * HEIGHT,
        bx + 0x1_0000_0000 <= u64::MAX,
        by + 0x1_0000_0000 <= u64::MAX,
    ensures
        final(buffer).len() == old(buffer).len(),
        final(buffer)@ == render_pts(old(buffer)@, glyph.pixels@, bx as int, by as int, color),
{
    let mut j: usize = 0;
    while j < glyph.pixels.len()
        invariant
            buffer.len() == WIDTH * HEIGHT,
            old(buffer).len() == WIDTH * HEIGHT,
            j <= glyph.pixels@.len(),
            bx + 0x1_0000_0000 <= u64::MAX,
            by + 0x1_0000_0000 <= u64::MAX,
            buffer@ == render_pts(
                old(buffer)@,
                glyph.pixels@.take(j as int),
                bx as int,
                by as int,
                color,
            ),
        decreases glyph.pixels@.len() - j,
    {
        let p = glyph.pixels[j];
        let px: u64 = bx + p.0 as u64;
        let py: u64 = by + p.1 as u64;
        if px < WIDTH as u64 && py < HEIGHT as u64 {
            set_pixel(buffer, px as u32, py as u32, color);
        }
        proof {
            lemma_render_pts_snoc(
                old(buffer)@,
                glyph.pixels@.take(j as int),
                glyph.pixels@[j as int],
                bx as int,
                by as int,
                color,
            );
            assert(glyph.pixels@.take(j as int + 1) =~= glyph.pixels@.take(j as int).push(
                glyph.pixels@[j as int],
            ));
        }
        j = j + 1;
    }
    proof {
        assert(glyph.pixels@.take(glyph.pixels@.len() as int) =~= glyph.pixels@);
    }
}

/// How far a line break moves the pen down: 1.2 times the height of the
/// `'a'` glyph, rounded down (or nothing when the font has no `'a'`).
pub open spec fn line_advance(font: Font) -> int {
    match font.spec_glyph('a') {
        Some(g) => (12 * g.height) / 10,
        None => 0,
    }
}

/// One character's effect on the buffer and the pen offsets `(ox, oy)`
/// from the text's origin: a line break carries the pen back to the line
/// start and down one line; a character with a glyph paints it and
/// advances the pen by its width; a character without one is skipped.
pub open spec fn render_step(
    buf: Seq<u32>,
    font: Font,
    x: int,
    y: int,
    c: char,
    ox: int,
    oy: int,
    color: u32,
) -> (Seq<u32>, int, int) {
    if c == '\n' {
        (buf, 0, oy + line_advance(font))
    } else {
        match font.spec_glyph(c) {
            Some(g) => (render_pts(buf, g.pixels@, x + ox, y + oy, color), ox + g.width, oy),
            None => (buf, ox, oy),
        }
    }
}

/// A whole text rendered character by character from pen offsets
/// `(ox, oy)`: the buffer and the final pen offsets.
pub open spec fn render_run(
    buf: Seq<u32>,
    font: Font,
    x: int,
    y: int,
    chars: Seq<char>,
    ox: int,
    oy: int,
    color: u32,
) -> (Seq<u32>, int, int)
    decreases chars.len(),
{
    if chars.len() == 0 {
        (buf, ox, oy)
    } else {
        let (b1, ox1, oy1) = render_step(buf, font, x, y, chars[0], ox, oy, color);
        render_run(b1, font, x, y, chars.drop_first(), ox1, oy1, color)
    }
}

proof fn lemma_render_run_snoc(
    buf: Seq<u32>,
    font: Font,
    x: int,
    y: int,
    chars: Seq<char>,
    c: char,
    ox: int,
    oy: int,
    color: u32,
)
    ensures
        render_run(buf, font, x, y, chars.push(c), ox, oy, color) == ({
            let (b1, ox1, oy1) = render_run(buf, font, x, y, chars, ox, oy, color);
            render_step(b1, font, x, y, c, ox1, oy1, color)
        }),
    decreases chars.len(),
{
    reveal_with_fuel(render_run, 3);
    if chars.len() == 0 {
        assert(chars.push(c) =~= seq![c]);
        assert(seq![c].drop_first() =~= Seq::<char>::empty());
    } else {
        let (b1, ox1, oy1) = render_step(buf, font, x, y, chars[0], ox, oy, color);
        assert(chars.push(c).drop_first() =~= chars.drop_first().push(c));
        lemma_render_run_snoc(b1, font, x, y, chars.drop_first(), c, ox1, oy1, color);
    }
}

proof fn lemma_render_run_offsets(
    buf: Seq<u32>,
    font: Font,
    x: int,
    y: int,
    chars: Seq<char>,
    ox: int,
    oy: int,
    color: u32,
)
    requires
        font.wf(),
        buf.len() == WIDTH * HEIGHT,
        0 <= ox,
        0 <= oy,
    ensures
        ({
            let (b1, ox1, oy1) = render_run(buf, font, x, y, chars, ox, oy, color);
            &&& b1.len() == buf.len()
            &&& 0 <= ox1 <= ox + 0x10000 * chars.len()
            &&& 0 <= oy1 <= oy + 0x20000 * chars.len()
        }),
    decreases chars.len(),
{
    if chars.len() > 0 {
        let (b1, ox1, oy1) = render_step(buf, font, x, y, chars[0], ox, oy, color);
        lemma_find_glyph_wf(font.glyphs@, chars[0]);
        lemma_find_glyph_wf(font.glyphs@, 'a');
        if chars[0] != '\n' && font.spec_glyph(chars[0]) is Some {
            lemma_render_pts_len(
                buf,
                font.spec_glyph(chars[0]).unwrap().pixels@,
                x + ox,
                y + oy,
                color,
            );
        }
        lemma_render_run_offsets(b1, font, x, y, chars.drop_first(), ox1, oy1, color);
    }
}

/// Draws a text at `(x, y)`, glyph by glyph, advancing the pen by each
/// glyph's width and dropping to the start of the next line at each line
/// break; every pixel write is clipped to the buffer.  Characters without
/// a glyph are skipped.
pub fn draw_string(buffer: &mut Vec<u32>, font: &Font, x: u32, y: u32, color: u32, text: &str)
    requires
        old(buffer).len() == WIDTH * HEIGHT,
        font.wf(),
        text@.len() <= 0xFFFF,
    ensures
        final(buffer).len() == old(buffer).len(),
        final(buffer)@ == render_run(
            old(buffer)@,
            *font,
            x as int,
            y as int,
            text@,
            0,
            0,
            color,
        ).0,
{
    broadcast use vstd::string::next_postcondition;

    let mut it = text.chars();
    let mut offset_x: u64 = 0;
    let mut offset_y: u64 = 0;
    let ghost mut i: int = 0;
    loop
        invariant_except_break
            buffer.len() == WIDTH * HEIGHT,
            old(buffer).len() == WIDTH * HEIGHT,
            font.wf(),
            text@.len() <= 0xFFFF,
            0 <= i <= text@.len(),
            it.obeys_prophetic_iter_laws(),
            it.remaining() == text@.skip(i),
            (buffer@, offset_x as int, offset_y as int) == render_run(
                old(buffer)@,
                *font,
                x as int,
                y as int,
                text@.take(i),
                0,
                0,
                color,
            ),
        ensures
            buffer.len() == old(buffer).len(),
            buffer@ == render_run(old(buffer)@, *font, x as int, y as int, text@, 0, 0, color).0,
        decreases text@.len() - i,
    {
        proof {
            lemma_render_run_offsets(old(buffer)@, *font, x as int, y as int, text@.take(i), 0, 0, color);
        }
        let next = it.next();
        match next {
            None => {
                proof {
                    assert(text@.skip(i).len() == 0);
                    assert(text@.take(i) =~= text@);
                }
                break ;
            },
            Some(ch) => {
                proof {
                    assert(text@.skip(i)[0] == text@[i]);
                    assert(text@.skip(i).drop_first() =~= text@.skip(i + 1));
                    lemma_render_run_snoc(
                        old(buffer)@,
                        *font,
                        x as int,
                        y as int,
                        text@.take(i),
                        text@[i],
                        0,
                        0,
                        color,
                    );
                    assert(text@.take(i + 1) =~= text@.take(i).push(text@[i]));
                    lemma_find_glyph_wf(font.glyphs@, 'a');
                    lemma_find_glyph_wf(font.glyphs@, ch);
                }
                if ch == '\n' {
                    let adv: u64 = match font.glyph_for('a') {
                        Some(g) => (12 * (g.height as u64)) / 10,
                        None => 0,
                    };
                    offset_y = offset_y + adv;
                    offset_x = 0;
                } else {
                    match font.glyph_for(ch) {
                        Some(g) => {
                            let w = g.width;
                            draw_glyph(
                                buffer,
                                g,
                                x as u64 + offset_x,
                                y as u64 + offset_y,
                                color,
                            );
                            offset_x = offset_x + w as u64;
                        },
                        None => {},
                    }
                }
                proof {
                    i = i + 1;
                }
            },
        }
    }
}

/// Copies a tile of pixels (row-major, `tw` columns wide, `th` rows tall)
/// onto the buffer with its top-left corner at `(x, y)`, clipping at the
/// buffer edges.
pub fn blit(buffer: &mut Vec<u32>, tile: &Vec<u32>, tw: usize, th: usize, x: usize, y: usize)
    requires
        old(buffer).len() == WIDTH * HEIGHT,
        tile.len() == tw * th,
        x + tw <= usize::MAX,
        y + th <= usize::MAX,
    ensures
        final(buffer).len() == old(buffer).len(),
        forall|i: int|
            0 <= i < old(buffer).len() ==> final(buffer)[i] == (if x <= pixel_x(i) < x + tw && y
                <= pixel_y(i) < y + th {
                tile[(pixel_y(i) - y) * (tw as int) + (pixel_x(i) - x)]
            } else {
                old(buffer)[i]
            }),
{
    let mut r: usize = 0;
    while r < th
        invariant
            old(buffer).len() == WIDTH * HEIGHT,
            buffer.len() == old(buffer).len(),
            tile.len() == tw * th,
            x + tw <= usize::MAX,
            y + th <= usize::MAX,
            r <= th,
            forall|i: int|
                0 <= i < old(buffer).len() ==> buffer[i] == (if x <= pixel_x(i) < x + tw && y
                    <= pixel_y(i) < y + r {
                    tile[(pixel_y(i) - y) * (tw as int) + (pixel_x(i) - x)]
                } else {
                    old(buffer)[i]
                }),
        decreases th - r,
    {
        let mut c: usize = 0;
        while c < tw
            invariant
                old(buffer).len() == WIDTH * HEIGHT,
                buffer.len() == old(buffer).len(),
                tile.len() == tw * th,
                x + tw <= usize::MAX,
                y + th <= usize::MAX,
                r < th,
                c <= tw,
                forall|i: int|
                    0 <= i < old(buffer).len() ==> buffer[i] == (if x <= pixel_x(i) < x + tw && (y
                        <= pixel_y(i) < y + r || (pixel_y(i) == y + r && x <= pixel_x(i) < x + c)) {
                        tile[(pixel_y(i) - y) * (tw as int) + (pixel_x(i) - x)]
                    } else {
                        old(buffer)[i]
                    }),
            decreases tw - c,
        {
            proof {
                assert((r as int) * (tw as int) + c < (tw as int) * (th as int)) by (nonlinear_arith)
                    requires
                        r < th,
                        c < tw,
                ;
            }
            let px = x + c;
            let py = y + r;
            if px < WIDTH && py < HEIGHT {
                set_pixel(buffer, px as u32, py as u32, tile[r * tw + c]);
            }
            c = c + 1;
        }
        r = r + 1;
    }
}

/// What `image`'s PNG decoder yields for a byte stream: `None` for bytes
/// it rejects, and otherwise the image's RGBA pixels, each packed
/// big-endian into one `u32`, row-major, with the image's width and height
/// in pixels.  Both whether the bytes decode and what they decode to are
/// functions of the bytes alone.
pub uninterp spec fn png_rgba_of(bytes: Seq<u8>) -> Option<(Seq<u32>, nat, nat)>;

/// Relies on `image::load` with the PNG format: decoding is deterministic
/// in the bytes, it succeeds exactly on the byte streams the decoder
/// accepts, and a decoded image holds exactly width times height pixels.
#[verifier::external_body]
fn decode_png(bytes: &Vec<u8>) -> (r: Option<(Vec<u32>, usize, usize)>)
    ensures
        r is Some <==> png_rgba_of(bytes@) is Some,
        r matches Some(t) ==> {
            &&& Some((t.0@, t.1 as nat, t.2 as nat)) == png_rgba_of(bytes@)
            &&& t.0@.len() == t.1 * t.2
        },
{
    let img = match image::load(std::io::Cursor::new(bytes.as_slice()), image::ImageFormat::Png) {
        Ok(i) => i.into_rgba8(),
        Err(_) => return None,
    };
    let (w, h) = (img.width() as usize, img.height() as usize);
    let pixels: Vec<u32> = img.pixels().map(|p| u32::from_be_bytes(p.0)).collect();
    Some((pixels, w, h))
}

/// Decodes a PNG badge (the end screen's grade image) and copies it onto
/// the buffer with its top-left corner at `(x, y)`, clipping at the buffer
/// edges.  It succeeds exactly when the bytes decode and the decoded
/// dimensions leave `(x, y)` placeable without exceeding the machine's
/// index range; a byte stream that does not decode, or an image too large
/// to place at `(x, y)`, leaves the buffer unchanged and reports failure.
pub fn draw_badge(buffer: &mut Vec<u32>, png: &Vec<u8>, x: usize, y: usize) -> (ok: bool)
    requires
        old(buffer).len() == WIDTH * HEIGHT,
    ensures
        final(buffer).len() == old(buffer).len(),
        ok == (png_rgba_of(png@) matches Some(t) && t.1 <= usize::MAX - x && t.2 <= usize::MAX
            - y),
        !ok ==> final(buffer)@ == old(buffer)@,
        ok ==> ({
            let (pix, tw, th) = png_rgba_of(png@).unwrap();
            forall|i: int|
                0 <= i < old(buffer).len() ==> final(buffer)[i] == (if x <= pixel_x(i) < x + tw
                    && y <= pixel_y(i) < y + th {
                    pix[(pixel_y(i) - y) * (tw as int) + (pixel_x(i) - x)]
                } else {
                    old(buffer)[i]
                })
        }),
{
    match decode_png(png) {
        None => false,
        Some((pix, tw, th)) => {
            if tw <= usize::MAX - x && th <= usize::MAX - y {
                blit(buffer, &pix, tw, th, x, y);
                true
            } else {
                false
            }
        },
    }
}

} // verus!

