//! The display raster: a 64×32 monochrome grid packed eight pixels to a byte,
//! row-major, with the leftmost pixel of each byte in its most significant bit.

use vstd::prelude::*;

verus! {

pub const SCREEN_WIDTH: usize = 64;

pub const SCREEN_HEIGHT: usize = 32;

/// Bytes per display row.
pub const ROW_BYTES: usize = 8;

/// Bytes in the whole frame buffer.
pub const FRAME_BYTES: usize = 256;

/// Which part of a sprite byte lands in a display byte when the sprite is not
/// byte-aligned: the `Right` side is the byte that holds the sprite's start
/// column, the `Left` side the byte after it.
pub enum Direction {
    Left,
    Right,
}

/// The sprite bits that land in the byte holding the start column, for a
/// start `offset` pixels into that byte.
pub open spec fn head_bits(sprite: u8, offset: u8) -> u8 {
    sprite >> offset
}

/// The sprite bits that spill into the next byte of the row; none when the
/// sprite is byte-aligned.
pub open spec fn tail_bits(sprite: u8, offset: u8) -> u8 {
    if offset == 0 {
        0
    } else {
        sprite << ((8 - offset) as u8)
    }
}

/// Some pixel that was on in `before` is off in `after`.
pub open spec fn turned_off(before: u8, after: u8) -> bool {
    before & !after != 0
}

/// Index in the frame buffer of the byte holding pixel column `x` of row `y`.
pub open spec fn byte_index(x: int, y: int) -> int {
    y * ROW_BYTES + x / 8
}

/// Index of the byte after the one holding column `x`, wrapping to the start
/// of the same row.
pub open spec fn next_byte_index(x: int, y: int) -> int {
    y * ROW_BYTES + (x / 8 + 1) % 8
}

/// The frame buffer after XOR-ing one sprite byte onto row `y` starting at column `x`.
pub open spec fn draw_row(fb: Seq<u8>, x: int, y: int, sprite: u8) -> Seq<u8> {
    let offset = (x % 8) as u8;
    let i = byte_index(x, y);
    let j = next_byte_index(x, y);
    let fb1 = fb.update(i, fb[i] ^ head_bits(sprite, offset));
    if offset == 0 {
        fb1
    } else {
        fb1.update(j, fb1[j] ^ tail_bits(sprite, offset))
    }
}

/// Drawing one sprite byte onto row `y` at column `x` turns some pixel off.
pub open spec fn row_collides(fb: Seq<u8>, x: int, y: int, sprite: u8) -> bool {
    let after = draw_row(fb, x, y, sprite);
    let i = byte_index(x, y);
    let j = next_byte_index(x, y);
    turned_off(fb[i], after[i]) || turned_off(fb[j], after[j])
}

/// The display row that sprite row `k` lands on, for a sprite starting on row `y`.
pub open spec fn sprite_row(y: int, k: int) -> int {
    (y + k) % (SCREEN_HEIGHT as int)
}

/// The frame buffer after drawing `sprite` row by row from (`x`, `y`), each
/// row one further down, wrapping from the bottom of the display to the top.
pub open spec fn draw_frame(fb: Seq<u8>, x: int, y: int, sprite: Seq<u8>) -> Seq<u8>
    decreases sprite.len(),
{
    if sprite.len() == 0 {
        fb
    } else {
        let k = sprite.len() - 1;
        draw_row(draw_frame(fb, x, y, sprite.drop_last()), x, sprite_row(y, k), sprite.last())
    }
}

/// Drawing `sprite` at (`x`, `y`) turns some pixel off, in any of its rows.
pub open spec fn draw_collides(fb: Seq<u8>, x: int, y: int, sprite: Seq<u8>) -> bool
    decreases sprite.len(),
{
    if sprite.len() == 0 {
        false
    } else {
        let k = sprite.len() - 1;
        draw_collides(fb, x, y, sprite.drop_last()) || row_collides(
            draw_frame(fb, x, y, sprite.drop_last()),
            x,
            sprite_row(y, k),
            sprite.last(),
        )
    }
}

/// Pixel (`x`, `y`) of the frame buffer `fb` is on.
pub open spec fn pixel(fb: Seq<u8>, x: int, y: int) -> bool {
    (fb[byte_index(x, y)] >> ((7 - x % 8) as u8)) & 1 == 1
}

/// Whether pixel (`x`, `y`) is on in the packed frame buffer `frame`.
pub fn pixel_at(frame: &[u8], x: usize, y: usize) -> (r: bool)
    requires
        frame@.len() == FRAME_BYTES,
        x < SCREEN_WIDTH,
        y < SCREEN_HEIGHT,
    ensures
        r == pixel(frame@, x as int, y as int),
{
    let shift = (7 - x % 8) as u8;
    (frame[y * ROW_BYTES + x / 8] >> shift) & 1 == 1
}

/// The display row of the next sprite row is one further down, wrapping to the top.
proof fn lemma_next_sprite_row(y: int, k: int)
    requires
        0 <= y < SCREEN_HEIGHT,
        0 <= k,
    ensures
        sprite_row(y, k + 1) == if sprite_row(y, k) + 1 == SCREEN_HEIGHT {
            0
        } else {
            sprite_row(y, k) + 1
        },
{
}

/// XORs the part of `byte2` that falls on one side of `offset` onto `byte1`,
/// keeping the bits of `byte1` on the other side. `offset` is the sprite's
/// start column within its first byte.
pub fn xor_side_from_offset(byte1: u8, byte2: u8, offset: u8, side: Direction) -> (r: u8)
    requires
        0 < offset < 8,
    ensures
        r == match side {
            Direction::Right => byte1 ^ head_bits(byte2, offset),
            Direction::Left => byte1 ^ tail_bits(byte2, offset),
        },
{
    let save_mask: u8;
    let ret: u8;
    match side {
        Direction::Left => {
            save_mask = 0xFFu8 >> offset;
            ret = byte1 ^ (byte2 << (8 - offset));
        },
        Direction::Right => {
            save_mask = 0xFFu8 << (8 - offset);
            ret = byte1 ^ (byte2 >> offset);
        },
    }
    let save_bits: u8 = byte1 & save_mask;
    let r = (ret & !save_mask) | save_bits;
    proof {
        let s = (8 - offset) as u8;
        assert(0 < offset < 8 ==> ((byte1 ^ (byte2 << s)) & !(0xFFu8 >> offset)) | (byte1 & (0xFFu8
            >> offset)) == byte1 ^ (byte2 << s)) by (bit_vector)
            requires
                s == 8 - offset,
        ;
        assert(0 < offset < 8 ==> ((byte1 ^ (byte2 >> offset)) & !(0xFFu8 << s)) | (byte1 & (0xFFu8
            << s)) == byte1 ^ (byte2 >> offset)) by (bit_vector)
            requires
                s == 8 - offset,
        ;
    }
    r
}

/// Whether some bit set in `byte1` is clear in `byte2`.
pub fn bit_unset(byte1: u8, byte2: u8) -> (r: bool)
    ensures
        r == turned_off(byte1, byte2),
{
    byte1 & !byte2 != 0
}

/// XORs one sprite byte onto a pair of adjacent display bytes: `left` holds
/// the sprite's start column, `offset` pixels into it, and `right` receives
/// what spills over. Returns the new pair.
pub fn xor_sprite_pair(left: u8, right: u8, sprite: u8, offset: u8) -> (r: (u8, u8))
    requires
        offset < 8,
    ensures
        r.0 == left ^ head_bits(sprite, offset),
        r.1 == right ^ tail_bits(sprite, offset),
{
    if offset == 0 {
        proof {
            assert(right ^ 0u8 == right) by (bit_vector);
            assert(sprite >> 0u8 == sprite) by (bit_vector);
        }
        (left ^ sprite, right)
    } else {
        (
            xor_side_from_offset(left, sprite, offset, Direction::Right),
            xor_side_from_offset(right, sprite, offset, Direction::Left),
        )
    }
}

/// Owns the frame buffer.
pub struct DisplayController {
    frame_buffer: Vec<u8>,
}

impl View for DisplayController {
    type V = Seq<u8>;

    closed spec fn view(&self) -> Seq<u8> {
        self.frame_buffer@
    }
}

impl Default for DisplayController {
    fn default() -> (r: Self)
        ensures
            r.wf(),
            r@ == Seq::new(FRAME_BYTES as nat, |i: int| 0u8),
    {
        let mut frame_buffer: Vec<u8> = Vec::new();
        let mut k: usize = 0;
        while k < FRAME_BYTES
            invariant
                k <= FRAME_BYTES,
                frame_buffer@ == Seq::new(k as nat, |i: int| 0u8),
            decreases FRAME_BYTES - k,
        {
            frame_buffer.push(0);
            k = k + 1;
            assert(frame_buffer@ =~= Seq::new(k as nat, |i: int| 0u8));
        }
        DisplayController { frame_buffer }
    }
}

impl DisplayController {
    /// The frame buffer has the size of the display.
    pub open spec fn wf(&self) -> bool {
        self@.len() == FRAME_BYTES
    }

    /// Turns every pixel off.
    pub fn clear_screen(&mut self)
        requires
            old(self).wf(),
        ensures
            final(self).wf(),
            final(self)@ == Seq::new(FRAME_BYTES as nat, |i: int| 0u8),
    {
        let mut k: usize = 0;
        while k < FRAME_BYTES
            invariant
                k <= FRAME_BYTES,
                self.frame_buffer@.len() == FRAME_BYTES,
                forall|i: int| 0 <= i < k ==> self.frame_buffer@[i] == 0u8,
            decreases FRAME_BYTES - k,
        {
            self.frame_buffer.set(k, 0);
            k = k + 1;
        }
        assert(self.frame_buffer@ =~= Seq::new(FRAME_BYTES as nat, |i: int| 0u8));
    }

    /// The byte of the frame buffer at `idx`.
    pub fn frame_byte(&self, idx: usize) -> (r: u8)
        requires
            self.wf(),
            idx < FRAME_BYTES,
        ensures
            r == self@[idx as int],
    {
        self.frame_buffer[idx]
    }

    /// A copy of the whole frame buffer, as the display shows it.
    pub fn frame(&self) -> (r: Vec<u8>)
        ensures
            r@ == self@,
    {
        let mut r: Vec<u8> = Vec::new();
        let mut k: usize = 0;
        while k < self.frame_buffer.len()
            invariant
                k <= self.frame_buffer@.len(),
                r@ == self.frame_buffer@.subrange(0, k as int),
            decreases self.frame_buffer@.len() - k,
        {
            r.push(self.frame_buffer[k]);
            k = k + 1;
            assert(r@ =~= self.frame_buffer@.subrange(0, k as int));
        }
        assert(r@ =~= self.frame_buffer@);
        r
    }

    /// Index in the frame buffer of the byte holding column `x` of row `y`.
    pub fn get_idx(&self, x: usize, y: usize) -> (r: usize)
        requires
            x < SCREEN_WIDTH,
            y < SCREEN_HEIGHT,
        ensures
            r == byte_index(x as int, y as int),
            r < FRAME_BYTES,
    {
        y * ROW_BYTES + x / 8
    }

    /// XORs one sprite byte onto row `y` from column `x`; returns whether a pixel was turned off.
    fn draw_sprite_row(&mut self, x: usize, y: usize, sprite: u8) -> (collision: bool)
        requires
            old(self).wf(),
            x < SCREEN_WIDTH,
            y < SCREEN_HEIGHT,
        ensures
            final(self).wf(),
            final(self)@ == draw_row(old(self)@, x as int, y as int, sprite),
            collision == row_collides(old(self)@, x as int, y as int, sprite),
    {
        let offset = (x % 8) as u8;
        let i = self.get_idx(x, y);
        let j = y * ROW_BYTES + (x / 8 + 1) % 8;
        let left = self.frame_buffer[i];
        let right = self.frame_buffer[j];
        let (new_left, new_right) = xor_sprite_pair(left, right, sprite, offset);
        self.frame_buffer.set(i, new_left);
        if offset != 0 {
            self.frame_buffer.set(j, new_right);
        } else {
            proof {
                assert(right ^ 0u8 == right && right & !right == 0u8) by (bit_vector);
            }
        }
        bit_unset(left, new_left) || bit_unset(right, new_right)
    }

    /// Draws `sprite` from (`start_x`, `start_y`): each byte is XOR-ed onto the
    /// next row down, wrapping from the bottom row to the top, and a row that
    /// is not byte-aligned wraps from the right edge to the left within its
    /// own row. Returns 1 if any pixel was turned off, else 0.
    pub fn draw(&mut self, start_x: usize, start_y: usize, sprite: Vec<u8>) -> (r: u8)
        requires
            old(self).wf(),
            start_x < SCREEN_WIDTH,
            start_y < SCREEN_HEIGHT,
        ensures
            final(self).wf(),
            final(self)@ == draw_frame(old(self)@, start_x as int, start_y as int, sprite@),
            r == (if draw_collides(old(self)@, start_x as int, start_y as int, sprite@) {
                1u8
            } else {
                0u8
            }),
    {
        let ghost fb0 = self@;
        let mut collision = false;
        let mut y = start_y;
        let mut k: usize = 0;
        while k < sprite.len()
            invariant
                self.wf(),
                start_x < SCREEN_WIDTH,
                start_y < SCREEN_HEIGHT,
                k <= sprite@.len(),
                y == sprite_row(start_y as int, k as int),
                self@ == draw_frame(fb0, start_x as int, start_y as int, sprite@.take(k as int)),
                collision == draw_collides(fb0, start_x as int, start_y as int, sprite@.take(k as int)),
            decreases sprite@.len() - k,
        {
            proof {
                let next = sprite@.take(k + 1);
                assert(next.drop_last() =~= sprite@.take(k as int));
                assert(next.last() == sprite@[k as int]);
            }
            let row_hit = self.draw_sprite_row(start_x, y, sprite[k]);
            collision = collision || row_hit;
            k = k + 1;
            y = if y + 1 == SCREEN_HEIGHT {
                0
            } else {
                y + 1
            };
            proof {
                lemma_next_sprite_row(start_y as int, k - 1);
            }
        }
        assert(sprite@.take(k as int) =~= sprite@);
        if collision {
            1
        } else {
            0
        }
    }
}

/// Drawing keeps the frame buffer at the size of the display.
pub proof fn lemma_draw_frame_len(fb: Seq<u8>, x: int, y: int, sprite: Seq<u8>)
    requires
        fb.len() == FRAME_BYTES,
        0 <= x < SCREEN_WIDTH,
        0 <= y < SCREEN_HEIGHT,
    ensures
        draw_frame(fb, x, y, sprite).len() == FRAME_BYTES,
    decreases sprite.len(),
{
    if sprite.len() > 0 {
        lemma_draw_frame_len(fb, x, y, sprite.drop_last());
    }
}

/// Bit `7 - c` of sprite byte `b`: the pixel `c` columns right of the
/// sprite's left edge is lit.
pub open spec fn sprite_bit(b: u8, c: int) -> bool {
    0 <= c < 8 && (b >> ((7 - c) as u8)) & 1 == 1
}

/// A lit pixel of `sprite`, drawn from (`x`, `y`), lands on pixel (`px`, `py`),
/// counting columns and rows around the edges of the display.
pub open spec fn sprite_covers(sprite: Seq<u8>, x: int, y: int, px: int, py: int) -> bool {
    let k = (py - y) % (SCREEN_HEIGHT as int);
    k < sprite.len() && sprite_bit(sprite[k], (px - x) % (SCREEN_WIDTH as int))
}

/// XOR-ing into a byte flips the bits at the pixels that the sprite's head
/// or tail covers and keeps the others.
proof fn lemma_xor_byte_bits(v: u8, b: u8, off: u8, p: u8)
    requires
        off < 8,
        p < 8,
    ensures
        ((v ^ (b >> off)) >> (7 - p) as u8) & 1 == 1 <==> (((v >> (7 - p) as u8) & 1 == 1) != (p >= off
            && (b >> (7 - (p - off)) as u8) & 1 == 1)),
        off > 0 ==> (((v ^ (b << (8 - off) as u8)) >> (7 - p) as u8) & 1 == 1 <==> (((v >> (7 - p) as u8)
            & 1 == 1) != (p < off && (b >> (off - 1 - p) as u8) & 1 == 1))),
{
    assert(off < 8 && p < 8 ==> (((v ^ (b >> off)) >> (7 - p) as u8) & 1 == 1 <==> (((v >> (7 - p) as u8)
        & 1 == 1) != (p >= off && (b >> (7 - (p - off)) as u8) & 1 == 1)))) by (bit_vector);
    assert(0 < off < 8 && p < 8 ==> (((v ^ (b << (8 - off) as u8)) >> (7 - p) as u8) & 1 == 1 <==> (((v
        >> (7 - p) as u8) & 1 == 1) != (p < off && (b >> (off - 1 - p) as u8) & 1 == 1)))) by (bit_vector);
}

/// Drawing one sprite byte flips exactly the pixels of its row that its lit
/// pixels land on, wrapping from the right edge to the left.
pub proof fn lemma_draw_row_pixel(fb: Seq<u8>, x: int, row: int, b: u8, px: int, py: int)
    requires
        fb.len() == FRAME_BYTES,
        0 <= x < SCREEN_WIDTH,
        0 <= row < SCREEN_HEIGHT,
        0 <= px < SCREEN_WIDTH,
        0 <= py < SCREEN_HEIGHT,
    ensures
        pixel(draw_row(fb, x, row, b), px, py) == (pixel(fb, px, py) != (py == row && sprite_bit(
            b,
            (px - x) % (SCREEN_WIDTH as int),
        ))),
{
    let off = (x % 8) as u8;
    let p = (px % 8) as u8;
    let i = byte_index(x, row);
    let j = next_byte_index(x, row);
    let q = byte_index(px, py);
    let c = (px - x) % (SCREEN_WIDTH as int);
    let after = draw_row(fb, x, row, b);
    assert(i != j);
    if q == i {
        assert(py == row && px / 8 == x / 8);
        assert(c == if p >= off { p - off } else { p - off + 64 });
        lemma_xor_byte_bits(fb[q], b, off, p);
        assert(after[q] == fb[q] ^ head_bits(b, off));
    } else if q == j && off != 0 {
        assert(py == row && px / 8 == (x / 8 + 1) % 8);
        assert(c == 8 - off + p);
        lemma_xor_byte_bits(fb[q], b, off, p);
        assert(after[q] == fb[q] ^ tail_bits(b, off));
        assert((7 - c) as u8 == (off - 1 - p) as u8);
    } else {
        assert(after[q] == fb[q]);
        assert(py == row ==> c >= 8);
    }
}

/// Display row `py` is the one that sprite row `k` lands on exactly when
/// `k` is the distance from the sprite's top down to `py`, around the bottom edge.
proof fn lemma_row_offset(y: int, k: int, py: int)
    requires
        0 <= y < SCREEN_HEIGHT,
        0 <= k < SCREEN_HEIGHT,
        0 <= py < SCREEN_HEIGHT,
    ensures
        py == sprite_row(y, k) <==> (py - y) % (SCREEN_HEIGHT as int) == k,
        0 <= (py - y) % (SCREEN_HEIGHT as int) < SCREEN_HEIGHT,
{
}

/// Drawing a sprite of at most 32 rows flips exactly the pixels that its lit
/// pixels land on, wrapping at the right and bottom edges, and keeps all others.
pub proof fn lemma_draw_flips_covered_pixels(
    fb: Seq<u8>,
    x: int,
    y: int,
    sprite: Seq<u8>,
    px: int,
    py: int,
)
    requires
        fb.len() == FRAME_BYTES,
        0 <= x < SCREEN_WIDTH,
        0 <= y < SCREEN_HEIGHT,
        sprite.len() <= SCREEN_HEIGHT,
        0 <= px < SCREEN_WIDTH,
        0 <= py < SCREEN_HEIGHT,
    ensures
        pixel(draw_frame(fb, x, y, sprite), px, py) == (pixel(fb, px, py) != sprite_covers(
            sprite,
            x,
            y,
            px,
            py,
        )),
    decreases sprite.len(),
{
    if sprite.len() > 0 {
        let n = sprite.len() - 1;
        let rest = sprite.drop_last();
        let prev = draw_frame(fb, x, y, rest);
        let row = sprite_row(y, n);
        lemma_draw_frame_len(fb, x, y, rest);
        lemma_draw_flips_covered_pixels(fb, x, y, rest, px, py);
        lemma_draw_row_pixel(prev, x, row, sprite.last(), px, py);
        let k = (py - y) % (SCREEN_HEIGHT as int);
        lemma_row_offset(y, n, py);
        if k < n {
            assert(rest[k] == sprite[k]);
        }
    }
}

/// Bit `s` of `v` is set and that of `w` is clear.
pub open spec fn bit_turned_off(v: u8, w: u8, s: u8) -> bool {
    (v >> s) & 1 == 1 && (w >> s) & 1 != 1
}

/// A pixel was turned off between two bytes exactly when some bit was.
proof fn lemma_turned_off_bits(v: u8, w: u8)
    ensures
        turned_off(v, w) <==> exists|s: u8| s < 8 && #[trigger] bit_turned_off(v, w, s),
        !turned_off(v, v),
{
    assert(v & !v == 0) by (bit_vector);
    assert forall|s: u8| s < 8 && #[trigger] bit_turned_off(v, w, s) implies turned_off(v, w) by {
        assert(s < 8 && bit_turned_off(v, w, s) ==> v & !w != 0) by (bit_vector);
    }
    if turned_off(v, w) {
        assert(v & !w != 0 ==> bit_turned_off(v, w, 0) || bit_turned_off(v, w, 1) || bit_turned_off(v, w, 2)
            || bit_turned_off(v, w, 3) || bit_turned_off(v, w, 4) || bit_turned_off(v, w, 5)
            || bit_turned_off(v, w, 6) || bit_turned_off(v, w, 7)) by (bit_vector);
    }
}

/// Drawing one sprite byte turns a pixel off exactly when one of its lit
/// pixels lands on a pixel that is on.
pub proof fn lemma_row_collides_pixels(fb: Seq<u8>, x: int, row: int, b: u8)
    requires
        fb.len() == FRAME_BYTES,
        0 <= x < SCREEN_WIDTH,
        0 <= row < SCREEN_HEIGHT,
    ensures
        row_collides(fb, x, row, b) <==> exists|px: int|
            0 <= px < SCREEN_WIDTH && #[trigger] pixel(fb, px, row) && sprite_bit(
                b,
                (px - x) % (SCREEN_WIDTH as int),
            ),
{
    let off = (x % 8) as u8;
    let i = byte_index(x, row);
    let j = next_byte_index(x, row);
    let after = draw_row(fb, x, row, b);
    lemma_turned_off_bits(fb[i], after[i]);
    lemma_turned_off_bits(fb[j], after[j]);
    if exists|px: int|
        0 <= px < SCREEN_WIDTH && #[trigger] pixel(fb, px, row) && sprite_bit(
            b,
            (px - x) % (SCREEN_WIDTH as int),
        ) {
        let px = choose|px: int|
            0 <= px < SCREEN_WIDTH && #[trigger] pixel(fb, px, row) && sprite_bit(
                b,
                (px - x) % (SCREEN_WIDTH as int),
            );
        lemma_draw_row_pixel(fb, x, row, b, px, row);
        let q = byte_index(px, row);
        let sh = (7 - px % 8) as u8;
        assert(bit_turned_off(fb[q], after[q], sh));
        assert(q == i || (q == j && off != 0));
    }
    if row_collides(fb, x, row, b) {
        let q = if turned_off(fb[i], after[i]) {
            i
        } else {
            j
        };
        assert(turned_off(fb[q], after[q]));
        let sh = choose|sh: u8| sh < 8 && #[trigger] bit_turned_off(fb[q], after[q], sh);
        let px = (q - row * 8) * 8 + (7 - sh);
        assert(q == i ==> q - row * 8 == x / 8);
        assert(q == j ==> q - row * 8 == (x / 8 + 1) % 8);
        assert(byte_index(px, row) == q && px % 8 == 7 - sh);
        assert((7 - px % 8) as u8 == sh);
        lemma_draw_row_pixel(fb, x, row, b, px, row);
        assert(pixel(fb, px, row));
    }
}

/// The rows of a sprite before its last one leave the last one's display row as it was.
proof fn lemma_last_row_untouched(fb: Seq<u8>, x: int, y: int, sprite: Seq<u8>)
    requires
        fb.len() == FRAME_BYTES,
        0 <= x < SCREEN_WIDTH,
        0 <= y < SCREEN_HEIGHT,
        0 < sprite.len() <= SCREEN_HEIGHT,
    ensures
        forall|px: int|
            0 <= px < SCREEN_WIDTH ==> #[trigger] pixel(
                draw_frame(fb, x, y, sprite.drop_last()),
                px,
                sprite_row(y, sprite.len() - 1),
            ) == pixel(fb, px, sprite_row(y, sprite.len() - 1)),
{
    let n = sprite.len() - 1;
    let row = sprite_row(y, n);
    assert forall|px: int| 0 <= px < SCREEN_WIDTH implies #[trigger] pixel(
        draw_frame(fb, x, y, sprite.drop_last()),
        px,
        row,
    ) == pixel(fb, px, row) by {
        lemma_draw_flips_covered_pixels(fb, x, y, sprite.drop_last(), px, row);
        lemma_row_offset(y, n, row);
    }
}

/// A sprite covers what its rows before the last one cover, and what its last row covers.
proof fn lemma_covers_split(sprite: Seq<u8>, x: int, y: int)
    requires
        0 <= y < SCREEN_HEIGHT,
        0 < sprite.len() <= SCREEN_HEIGHT,
    ensures
        forall|px: int, py: int|
            0 <= py < SCREEN_HEIGHT ==> #[trigger] sprite_covers(sprite, x, y, px, py) == (
            sprite_covers(sprite.drop_last(), x, y, px, py) || (py == sprite_row(y, sprite.len() - 1)
                && sprite_bit(sprite.last(), (px - x) % (SCREEN_WIDTH as int)))),
{
    let n = sprite.len() - 1;
    assert forall|px: int, py: int| 0 <= py < SCREEN_HEIGHT implies #[trigger] sprite_covers(
        sprite,
        x,
        y,
        px,
        py,
    ) == (sprite_covers(sprite.drop_last(), x, y, px, py) || (py == sprite_row(y, n) && sprite_bit(
        sprite.last(),
        (px - x) % (SCREEN_WIDTH as int),
    ))) by {
        let k = (py - y) % (SCREEN_HEIGHT as int);
        lemma_row_offset(y, n, py);
        if k < n {
            assert(sprite.drop_last()[k] == sprite[k]);
        }
    }
}

/// Drawing a sprite of at most 32 rows reports a collision exactly when one
/// of its lit pixels lands on a pixel that is on.
pub proof fn lemma_draw_collides_pixels(fb: Seq<u8>, x: int, y: int, sprite: Seq<u8>)
    requires
        fb.len() == FRAME_BYTES,
        0 <= x < SCREEN_WIDTH,
        0 <= y < SCREEN_HEIGHT,
        sprite.len() <= SCREEN_HEIGHT,
    ensures
        draw_collides(fb, x, y, sprite) <==> exists|px: int, py: int|
            0 <= px < SCREEN_WIDTH && 0 <= py < SCREEN_HEIGHT && #[trigger] pixel(fb, px, py)
                && sprite_covers(sprite, x, y, px, py),
    decreases sprite.len(),
{
    if sprite.len() > 0 {
        let n = sprite.len() - 1;
        let rest = sprite.drop_last();
        let prev = draw_frame(fb, x, y, rest);
        let row = sprite_row(y, n);
        let last = sprite.last();
        lemma_draw_frame_len(fb, x, y, rest);
        lemma_draw_collides_pixels(fb, x, y, rest);
        lemma_row_collides_pixels(prev, x, row, last);
        lemma_last_row_untouched(fb, x, y, sprite);
        lemma_covers_split(sprite, x, y);
        assert(draw_collides(fb, x, y, sprite) == (draw_collides(fb, x, y, rest) || row_collides(
            prev,
            x,
            row,
            last,
        )));
        if draw_collides(fb, x, y, sprite) {
            if draw_collides(fb, x, y, rest) {
                let (px, py) = choose|px: int, py: int|
                    0 <= px < SCREEN_WIDTH && 0 <= py < SCREEN_HEIGHT && #[trigger] pixel(fb, px, py)
                        && sprite_covers(rest, x, y, px, py);
                assert(sprite_covers(sprite, x, y, px, py));
            } else {
                let px = choose|px: int|
                    0 <= px < SCREEN_WIDTH && #[trigger] pixel(prev, px, row) && sprite_bit(
                        last,
                        (px - x) % (SCREEN_WIDTH as int),
                    );
                assert(pixel(fb, px, row) && sprite_covers(sprite, x, y, px, row));
            }
        }
        if exists|px: int, py: int|
            0 <= px < SCREEN_WIDTH && 0 <= py < SCREEN_HEIGHT && #[trigger] pixel(fb, px, py)
                && sprite_covers(sprite, x, y, px, py) {
            let (px, py) = choose|px: int, py: int|
                0 <= px < SCREEN_WIDTH && 0 <= py < SCREEN_HEIGHT && #[trigger] pixel(fb, px, py)
                    && sprite_covers(sprite, x, y, px, py);
            if sprite_covers(rest, x, y, px, py) {
                assert(draw_collides(fb, x, y, rest));
            } else {
                assert(pixel(prev, px, row));
                assert(row_collides(prev, x, row, last));
            }
        }
    }
}

/// Drawing a sprite with a lit pixel twice at the same place: if the first
/// draw turned no pixel off, the second does.
pub proof fn lemma_redraw_collides(fb: Seq<u8>, x: int, y: int, sprite: Seq<u8>, px: int, py: int)
    requires
        fb.len() == FRAME_BYTES,
        0 <= x < SCREEN_WIDTH,
        0 <= y < SCREEN_HEIGHT,
        sprite.len() <= SCREEN_HEIGHT,
        0 <= px < SCREEN_WIDTH,
        0 <= py < SCREEN_HEIGHT,
        sprite_covers(sprite, x, y, px, py),
    ensures
        draw_collides(fb, x, y, sprite) || draw_collides(draw_frame(fb, x, y, sprite), x, y, sprite),
{
    let once = draw_frame(fb, x, y, sprite);
    lemma_draw_frame_len(fb, x, y, sprite);
    lemma_draw_collides_pixels(fb, x, y, sprite);
    lemma_draw_collides_pixels(once, x, y, sprite);
    lemma_draw_flips_covered_pixels(fb, x, y, sprite, px, py);
    if !pixel(fb, px, py) {
        assert(pixel(once, px, py));
    }
}

} // verus!
