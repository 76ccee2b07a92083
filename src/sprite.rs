use vstd::prelude::*;

use crate::machine::{cell, Chip8, Machine, HEIGHT, MEM_SIZE, SCREEN_SIZE, WIDTH};

verus! {

/// Bit `i` of `b`, counting from the most significant bit: the pixel at
/// offset `i` of a sprite row.
pub open spec fn bit(b: u8, i: u8) -> bool {
    b & (0x80u8 >> i) != 0
}

/// The `n` sprite rows stored from address `i` on, addresses wrapping at the
/// end of memory.
pub open spec fn sprite_rows(memory: Seq<u8>, i: u16, n: int) -> Seq<u8> {
    Seq::new(n as nat, |r: int| memory[(i + r) % MEM_SIZE as int])
}

/// How many columns right of column `ox` column `x` lies, around the right
/// edge.
pub open spec fn offset(ox: int, x: int) -> int {
    (x - ox) % (WIDTH as int)
}

/// Whether the sprite `rows`, drawn with its top-left corner at column `ox`
/// and row `oy`, covers the cell at column `x` and row `y` with a set bit.
/// Columns wrap around the right edge; rows do not wrap.
pub open spec fn sprite_bit(rows: Seq<u8>, ox: int, oy: int, x: int, y: int) -> bool {
    let dy = y - oy;
    let dx = offset(ox, x);
    0 <= dy < rows.len() && dx < 8 && bit(rows[dy], dx as u8)
}

/// Whether the sprite covers framebuffer cell `k` with a set bit.
pub open spec fn covers(rows: Seq<u8>, ox: int, oy: int, k: int) -> bool {
    sprite_bit(rows, ox, oy, k % WIDTH as int, k / WIDTH as int)
}

/// The framebuffer `g` with the sprite XORed onto it; rows below the bottom
/// edge are dropped.
pub open spec fn drawn(g: Seq<bool>, rows: Seq<u8>, ox: int, oy: int) -> Seq<bool> {
    Seq::new(g.len(), |k: int| g[k] != covers(rows, ox, oy, k))
}

/// Whether drawing the sprite onto `g` turns some lit cell dark.
pub open spec fn collides(g: Seq<bool>, rows: Seq<u8>, ox: int, oy: int) -> bool {
    exists|k: int| 0 <= k < g.len() && g[k] && #[trigger] covers(rows, ox, oy, k)
}

/// `g` with the cells of row `y` from column `ox` rightwards, around the
/// right edge, set to `pixels`.
pub open spec fn row_written(g: Seq<bool>, ox: int, y: int, pixels: Seq<bool>) -> Seq<bool> {
    Seq::new(
        g.len(),
        |k: int|
            if k / WIDTH as int == y && offset(ox, k % WIDTH as int) < 8 {
                pixels[offset(ox, k % WIDTH as int)]
            } else {
                g[k]
            },
    )
}

proof fn lemma_bit_set(r: u8, i: u8)
    requires
        i < 8,
    ensures
        forall|j: u8| j < 8 ==> #[trigger] bit(r | (0x80u8 >> i), j) == (bit(r, j) || j == i),
{
    assert forall|j: u8| j < 8 implies #[trigger] bit(r | (0x80u8 >> i), j) == (bit(r, j) || j
        == i) by {
        assert(bit(r | (0x80u8 >> i), j) == (bit(r, j) || j == i)) by (bit_vector)
            requires
                i < 8,
                j < 8,
        ;
    }
}

proof fn lemma_bit_xor(a: u8, b: u8)
    ensures
        forall|j: u8| j < 8 ==> #[trigger] bit(a ^ b, j) == (bit(a, j) != bit(b, j)),
{
    assert forall|j: u8| j < 8 implies #[trigger] bit(a ^ b, j) == (bit(a, j) != bit(b, j)) by {
        assert(bit(a ^ b, j) == (bit(a, j) != bit(b, j))) by (bit_vector)
            requires
                j < 8,
        ;
    }
}

proof fn lemma_bit_and(a: u8, b: u8)
    ensures
        (a & b != 0) == exists|j: u8| j < 8 && #[trigger] bit(a, j) && bit(b, j),
{
    assert((a & b != 0) == ((bit(a, 0) && bit(b, 0)) || (bit(a, 1) && bit(b, 1)) || (bit(a, 2)
        && bit(b, 2)) || (bit(a, 3) && bit(b, 3)) || (bit(a, 4) && bit(b, 4)) || (bit(a, 5)
        && bit(b, 5)) || (bit(a, 6) && bit(b, 6)) || (bit(a, 7) && bit(b, 7)))) by (bit_vector);
    if a & b != 0 {
        if bit(a, 0) && bit(b, 0) {
            assert(bit(a, 0));
        } else if bit(a, 1) && bit(b, 1) {
            assert(bit(a, 1));
        } else if bit(a, 2) && bit(b, 2) {
            assert(bit(a, 2));
        } else if bit(a, 3) && bit(b, 3) {
            assert(bit(a, 3));
        } else if bit(a, 4) && bit(b, 4) {
            assert(bit(a, 4));
        } else if bit(a, 5) && bit(b, 5) {
            assert(bit(a, 5));
        } else if bit(a, 6) && bit(b, 6) {
            assert(bit(a, 6));
        } else {
            assert(bit(a, 7));
        }
    }
}

proof fn lemma_bit_zero()
    ensures
        forall|j: u8| j < 8 ==> !#[trigger] bit(0, j),
{
    assert forall|j: u8| j < 8 implies !#[trigger] bit(0, j) by {
        assert(!bit(0, j)) by (bit_vector);
    }
}

/// The cell at column `x` and row `y` has column `x` and row `y`.
proof fn lemma_cell(x: int, y: int)
    requires
        0 <= x < WIDTH,
        0 <= y < HEIGHT,
    ensures
        cell(x, y) % WIDTH as int == x,
        cell(x, y) / WIDTH as int == y,
        0 <= cell(x, y) < SCREEN_SIZE,
{
    vstd::arithmetic::div_mod::lemma_fundamental_div_mod_converse(
        cell(x, y),
        WIDTH as int,
        y,
        x,
    );
}

/// Column `x` is `b` columns right of `ox`, around the right edge, exactly
/// when it is the column that offset `b` from `ox` lands on.
proof fn lemma_offset(ox: int, b: int, x: int)
    requires
        0 <= b < WIDTH,
        0 <= x < WIDTH,
    ensures
        (x == (ox + b) % WIDTH as int) == (offset(ox, x) == b),
{
}

/// What one more sprite row adds: the first `i + 1` rows cover a cell when
/// the first `i` do, or row `i` does, and the two never both do.
proof fn lemma_next_row(rows: Seq<u8>, ox: int, oy: int, i: int)
    requires
        0 <= i < rows.len(),
    ensures
        forall|k: int|
            0 <= k < SCREEN_SIZE ==> {
                let dx = offset(ox, k % WIDTH as int);
                &&& #[trigger] covers(rows.take(i + 1), ox, oy, k) == (covers(rows.take(i), ox, oy, k)
                    || (k / WIDTH as int == oy + i && dx < 8 && bit(rows[i], dx as u8)))
                &&& k / WIDTH as int == oy + i ==> !covers(rows.take(i), ox, oy, k)
            },
{
}

impl Chip8 {
    /// Sets the pixel at column `x` and row `y`.
    fn update_pixel_at(&mut self, x: usize, y: usize, pixel: bool)
        requires
            x < WIDTH,
            y < HEIGHT,
        ensures
            final(self)@ == (Machine {
                graphics: old(self)@.graphics.update(cell(x as int, y as int), pixel),
                ..old(self)@
            }),
    {
        self.graphics[x + y * WIDTH] = pixel;
    }

    /// Sets the eight pixels of row `y` from column `x` rightwards, the
    /// columns wrapping around the right edge.
    fn update_pixels_at(&mut self, x: usize, y: usize, pixels: [bool; 8])
        requires
            y < HEIGHT,
        ensures
            final(self)@ == (Machine {
                graphics: row_written(old(self)@.graphics, x as int, y as int, pixels@),
                ..old(self)@
            }),
    {
        for b in 0..8
            invariant
                y < HEIGHT,
                self@ == (Machine { graphics: self.graphics@, ..old(self)@ }),
                forall|k: int|
                    0 <= k < SCREEN_SIZE ==> #[trigger] self.graphics@[k] == if k / WIDTH as int
                        == y && offset(x as int, k % WIDTH as int) < b {
                        pixels@[offset(x as int, k % WIDTH as int)]
                    } else {
                        old(self).graphics@[k]
                    },
        {
            let column = (x % WIDTH + b) % WIDTH;
            assert(column == (x + b) % WIDTH as int) by {
                vstd::arithmetic::div_mod::lemma_add_mod_noop(x as int, b as int, WIDTH as int);
                vstd::arithmetic::div_mod::lemma_mod_twice(b as int, WIDTH as int);
            }
            let ghost before = self.graphics@;
            self.update_pixel_at(column, y, pixels[b]);
            proof {
                lemma_cell(column as int, y as int);
                assert forall|k: int| 0 <= k < SCREEN_SIZE implies #[trigger] self.graphics@[k]
                    == if k / WIDTH as int == y && offset(x as int, k % WIDTH as int) < b + 1 {
                    pixels@[offset(x as int, k % WIDTH as int)]
                } else {
                    old(self).graphics@[k]
                } by {
                    lemma_offset(x as int, b as int, k % WIDTH as int);
                    if k != cell(column as int, y as int) {
                        assert(self.graphics@[k] == before[k]);
                        if k / WIDTH as int == y {
                            vstd::arithmetic::div_mod::lemma_fundamental_div_mod(k, WIDTH as int);
                        }
                    }
                }
            }
        }
        assert(self.graphics@ =~= row_written(old(self)@.graphics, x as int, y as int, pixels@));
    }

    /// Draws the `n`-row sprite stored at `I` with its top-left corner at
    /// column `V[x]` and row `V[y]`, and sets `VF` to whether a lit pixel
    /// went dark.
    pub(crate) fn draw_sprite(&mut self, x: usize, y: usize, n: usize)
        requires
            x < 16,
            y < 16,
            n < 16,
        ensures
            ({
                let m = old(self)@;
                let rows = sprite_rows(m.memory, m.i, n as int);
                let ox = m.v[x as int] as int;
                let oy = m.v[y as int] as int;
                final(self)@ == Machine {
                    graphics: drawn(m.graphics, rows, ox, oy),
                    v: m.v.update(15, if collides(m.graphics, rows, ox, oy) { 1u8 } else { 0u8 }),
                    ..m
                }
            }),
    {
        let ghost m = self@;
        let ghost rows = sprite_rows(m.memory, m.i, n as int);
        let ox = self.V[x] as usize;
        let oy = self.V[y] as usize;
        let mut collision = false;
        for i in 0..n
            invariant
                x < 16,
                y < 16,
                n < 16,
                m == old(self)@,
                rows == sprite_rows(m.memory, m.i, n as int),
                ox == m.v[x as int],
                oy == m.v[y as int],
                self@ == (Machine { graphics: self.graphics@, ..m }),
                self.graphics@ == drawn(m.graphics, rows.take(i as int), ox as int, oy as int),
                collision == collides(m.graphics, rows.take(i as int), ox as int, oy as int),
        {
            let row = oy + i;
            let ghost g = self.graphics@;
            proof {
                lemma_next_row(rows, ox as int, oy as int, i as int);
            }
            if row < HEIGHT {
                let sprite = self.memory[(self.I as usize + i) % MEM_SIZE];
                let current = self.pixel_byte_at(ox, row);
                let pixels = Chip8::byte_from_bool_array(current);
                if pixels & sprite != 0 {
                    collision = true;
                }
                let new_pixels = pixels ^ sprite;
                proof {
                    lemma_bit_xor(pixels, sprite);
                    lemma_bit_and(pixels, sprite);
                }
                let new_row = Chip8::bool_array_from_byte(new_pixels);
                self.update_pixels_at(ox, row, new_row);
                proof {
                    assert forall|k: int| 0 <= k < SCREEN_SIZE implies #[trigger] self.graphics@[k]
                        == (m.graphics[k] != covers(rows.take(i + 1), ox as int, oy as int, k)) by {
                        let dx = offset(ox as int, k % WIDTH as int);
                        if k / WIDTH as int == row && dx < 8 {
                            let column = (ox + dx) % WIDTH as int;
                            lemma_offset(ox as int, dx, k % WIDTH as int);
                            vstd::arithmetic::div_mod::lemma_fundamental_div_mod(k, WIDTH as int);
                            assert(column == k % WIDTH as int);
                            assert(cell(column, row as int) == k);
                            assert(self.graphics@[k] == new_row@[dx]);
                            assert(new_row@[dx] == bit(new_pixels, dx as u8));
                            assert(bit(pixels, dx as u8) == current@[dx]);
                            assert(current@[dx] == g[k]);
                            assert(!covers(rows.take(i as int), ox as int, oy as int, k));
                            assert(rows[i as int] == sprite);
                        } else {
                            assert(self.graphics@[k] == g[k]);
                        }
                    }
                    assert(self.graphics@ =~= drawn(
                        m.graphics,
                        rows.take(i + 1),
                        ox as int,
                        oy as int,
                    ));
                    let before = rows.take(i as int);
                    let after = rows.take(i + 1);
                    if collides(m.graphics, after, ox as int, oy as int) {
                        let k = choose|k: int|
                            0 <= k < SCREEN_SIZE && m.graphics[k] && #[trigger] covers(
                                after,
                                ox as int,
                                oy as int,
                                k,
                            );
                        if !covers(before, ox as int, oy as int, k) {
                            let dx = offset(ox as int, k % WIDTH as int);
                            let column = (ox + dx) % WIDTH as int;
                            lemma_offset(ox as int, dx, k % WIDTH as int);
                            vstd::arithmetic::div_mod::lemma_fundamental_div_mod(k, WIDTH as int);
                            assert(cell(column, row as int) == k);
                            assert(bit(pixels, dx as u8) == current@[dx]);
                            assert(rows[i as int] == sprite);
                            assert(bit(pixels, dx as u8) && bit(sprite, dx as u8));
                        }
                    }
                    if pixels & sprite != 0 {
                        let j = choose|j: u8| j < 8 && #[trigger] bit(pixels, j) && bit(sprite, j);
                        let column = (ox + j) % WIDTH as int;
                        let k = cell(column, row as int);
                        lemma_cell(column, row as int);
                        lemma_offset(ox as int, j as int, column);
                        assert(current@[j as int] == g[k]);
                        assert(rows[i as int] == sprite);
                        assert(covers(after, ox as int, oy as int, k));
                    }
                    if collides(m.graphics, before, ox as int, oy as int) {
                        let k = choose|k: int|
                            0 <= k < SCREEN_SIZE && m.graphics[k] && #[trigger] covers(
                                before,
                                ox as int,
                                oy as int,
                                k,
                            );
                        assert(covers(after, ox as int, oy as int, k));
                    }
                }
            } else {
                proof {
                    assert(self.graphics@ =~= drawn(
                        m.graphics,
                        rows.take(i + 1),
                        ox as int,
                        oy as int,
                    ));
                    let before = rows.take(i as int);
                    let after = rows.take(i + 1);
                    if collides(m.graphics, after, ox as int, oy as int) {
                        let k = choose|k: int|
                            0 <= k < SCREEN_SIZE && m.graphics[k] && #[trigger] covers(
                                after,
                                ox as int,
                                oy as int,
                                k,
                            );
                        assert(covers(before, ox as int, oy as int, k));
                    }
                    if collides(m.graphics, before, ox as int, oy as int) {
                        let k = choose|k: int|
                            0 <= k < SCREEN_SIZE && m.graphics[k] && #[trigger] covers(
                                before,
                                ox as int,
                                oy as int,
                                k,
                            );
                        assert(covers(after, ox as int, oy as int, k));
                    }
                }
            }
        }
        assert(rows.take(n as int) =~= rows);
        self.V[15] = if collision { 1 } else { 0 };
    }

    /// The byte whose bit `i`, from the most significant one, is `array[i]`.
    pub fn byte_from_bool_array(array: [bool; 8]) -> (r: u8)
        ensures
            forall|i: u8| i < 8 ==> #[trigger] bit(r, i) == array@[i as int],
    {
        let mut result: u8 = 0;
        proof {
            lemma_bit_zero();
        }
        for i in 0..8
            invariant
                forall|j: u8| j < 8 ==> #[trigger] bit(result, j) == (j < i && array@[j as int]),
        {
            if array[i] {
                proof {
                    lemma_bit_set(result, i as u8);
                }
                result = result | (0x80u8 >> i as u8);
            }
        }
        result
    }

    /// The eight bits of `byte`, the most significant first.
    pub fn bool_array_from_byte(byte: u8) -> (r: [bool; 8])
        ensures
            forall|i: u8| i < 8 ==> r@[i as int] == #[trigger] bit(byte, i),
    {
        let mut array: [bool; 8] = [false; 8];
        for i in 0..8
            invariant
                forall|j: u8| j < i ==> array@[j as int] == #[trigger] bit(byte, j),
        {
            array[i] = byte & (0x80u8 >> i as u8) != 0;
        }
        array
    }
}

} // verus!
