use vstd::prelude::*;

verus! {

/// Number of pixel columns.
pub const CHIP8_WIDTH: usize = 64;

/// Number of pixel rows.
pub const CHIP8_HEIGHT: usize = 32;

/// The pixels by row, then column; each is 0 (dark) or 1 (lit).
pub type FrameBuffer = [[u8; 64]; 32];

/// The monochrome screen.
#[derive(Debug, PartialEq, Eq)]
pub struct Display {
    buffer: FrameBuffer,
}

/// A grid has the screen's size and holds nothing but 0 and 1.
pub open spec fn is_frame(p: Seq<Seq<u8>>) -> bool {
    &&& p.len() == CHIP8_HEIGHT
    &&& forall|r: int| 0 <= r < CHIP8_HEIGHT ==> (#[trigger] p[r]).len() == CHIP8_WIDTH
    &&& forall|r: int, c: int|
        0 <= r < CHIP8_HEIGHT && 0 <= c < CHIP8_WIDTH ==> #[trigger] p[r][c] <= 1
}

/// A screen on which every pixel has the value `pixel`.
pub open spec fn uniform_frame(pixel: u8) -> Seq<Seq<u8>> {
    Seq::new(CHIP8_HEIGHT as nat, |r: int| Seq::new(CHIP8_WIDTH as nat, |c: int| pixel))
}

/// Exclusive or of two pixel values.
pub open spec fn toggled(pixel: u8, bit: u8) -> u8 {
    if pixel == bit {
        0
    } else {
        1
    }
}

/// Bit `i` of a sprite row, counted from the most significant bit.
pub open spec fn sprite_bit(byte: u8, i: int) -> u8 {
    if 0 <= i < 8 {
        (byte >> ((7 - i) as u8)) & 1
    } else {
        0
    }
}

/// Whether a sprite row that starts at column `col` covers column `c` of
/// the screen: it spans eight columns and is cut off at the right edge.
pub open spec fn covers(col: int, c: int) -> bool {
    col <= c < col + 8 && c < CHIP8_WIDTH
}

/// The screen after the first `count` bits of a sprite row were drawn with
/// exclusive or, from column `col` of row `row` rightwards.
pub open spec fn with_sprite_bits(p: Seq<Seq<u8>>, byte: u8, col: int, row: int, count: int) -> Seq<
    Seq<u8>,
> {
    Seq::new(
        CHIP8_HEIGHT as nat,
        |r: int|
            Seq::new(
                CHIP8_WIDTH as nat,
                |c: int|
                    if r == row && covers(col, c) && c < col + count {
                        toggled(p[r][c], sprite_bit(byte, c - col))
                    } else {
                        p[r][c]
                    },
            ),
    )
}

/// The screen after a whole sprite row was drawn.
pub open spec fn with_sprite_row(p: Seq<Seq<u8>>, byte: u8, col: int, row: int) -> Seq<Seq<u8>> {
    with_sprite_bits(p, byte, col, row, 8)
}

/// Whether drawing the first `count` bits of a sprite row turns a lit pixel
/// dark.
pub open spec fn bits_collide(p: Seq<Seq<u8>>, byte: u8, col: int, row: int, count: int) -> bool {
    exists|c: int|
        covers(col, c) && c < col + count && p[row][c] == 1 && #[trigger] sprite_bit(
            byte,
            c - col,
        ) == 1
}

/// Whether drawing a sprite row turns a lit pixel dark.
pub open spec fn row_collides(p: Seq<Seq<u8>>, byte: u8, col: int, row: int) -> bool {
    bits_collide(p, byte, col, row, 8)
}

/// The screen after a sprite was drawn with its first row at column `col`,
/// row `row`; each further row goes one row lower, continuing at the top
/// after the bottom row.
pub open spec fn sprite_drawn(p: Seq<Seq<u8>>, sprite: Seq<u8>, col: int, row: int) -> Seq<Seq<u8>>
    decreases sprite.len(),
{
    if sprite.len() == 0 {
        p
    } else {
        with_sprite_row(
            sprite_drawn(p, sprite.drop_last(), col, row),
            sprite.last(),
            col,
            (row + sprite.len() - 1) % 32,
        )
    }
}

/// Whether drawing a sprite turns a lit pixel dark in any of its rows.
pub open spec fn sprite_collides(p: Seq<Seq<u8>>, sprite: Seq<u8>, col: int, row: int) -> bool
    decreases sprite.len(),
{
    if sprite.len() == 0 {
        false
    } else {
        sprite_collides(p, sprite.drop_last(), col, row) || row_collides(
            sprite_drawn(p, sprite.drop_last(), col, row),
            sprite.last(),
            col,
            (row + sprite.len() - 1) % 32,
        )
    }
}

impl Display {
    /// The pixels by row, then column.
    pub closed spec fn view(&self) -> Seq<Seq<u8>> {
        Seq::new(CHIP8_HEIGHT as nat, |r: int| self.buffer[r]@)
    }

    /// The screen has its full size and every pixel is 0 or 1.
    #[verifier::type_invariant]
    spec fn inv(&self) -> bool {
        forall|r: int, c: int|
            0 <= r < CHIP8_HEIGHT && 0 <= c < CHIP8_WIDTH ==> #[trigger] self.buffer[r][c] <= 1
    }

    /// A dark screen.
    pub fn new() -> (d: Self)
        ensures
            is_frame(d@),
            d@ == uniform_frame(0),
    {
        let d = Self { buffer: [[0; 64]; 32] };
        assert(d@ =~~= uniform_frame(0));
        d
    }

    /// Turns every pixel dark.
    pub fn clear(&mut self)
        ensures
            is_frame(final(self)@),
            final(self)@ == uniform_frame(0),
    {
        *self = Self::new();
    }

    /// Combines the pixel at column `x`, row `y`, both taken modulo the
    /// screen's size, with `pixel` by exclusive or, and says whether that
    /// turned a lit pixel dark.
    pub fn draw_pixel(&mut self, x: usize, y: usize, pixel: u8) -> (erased: bool)
        requires
            pixel <= 1,
        ensures
            is_frame(old(self)@),
            is_frame(final(self)@),
            erased == (old(self)@[y as int % 32][x as int % 64] == 1 && pixel == 1),
            final(self)@ == old(self)@.update(
                y as int % 32,
                old(self)@[y as int % 32].update(
                    x as int % 64,
                    toggled(old(self)@[y as int % 32][x as int % 64], pixel),
                ),
            ),
    {
        proof {
            use_type_invariant(&*self);
        }
        let x: usize = x % CHIP8_WIDTH;
        let y: usize = y % CHIP8_HEIGHT;
        let before: u8 = self.buffer[y][x];
        assert(before == old(self)@[y as int][x as int]);
        assert(before <= 1);
        assert((before & pixel == 1) == (before == 1 && pixel == 1) && (before ^ pixel) == (if before
            == pixel {
            0u8
        } else {
            1u8
        })) by (bit_vector)
            requires
                before <= 1,
                pixel <= 1,
        ;
        let erased = (before & pixel) == 1;
        self.buffer[y][x] = before ^ pixel;
        assert(self@ =~~= old(self)@.update(
            y as int,
            old(self)@[y as int].update(x as int, toggled(before, pixel)),
        ));
        erased
    }

    /// Draws one sprite row of eight pixels, most significant bit first,
    /// from column `x`, row `y` (both taken modulo the screen's size)
    /// rightwards, each bit combined with the pixel by exclusive or. Bits
    /// that would fall beyond the right edge are dropped. Says whether a lit
    /// pixel turned dark.
    pub fn draw_byte(&mut self, byte: u8, x: usize, y: usize) -> (collided: bool)
        ensures
            is_frame(old(self)@),
            is_frame(final(self)@),
            final(self)@ == with_sprite_row(old(self)@, byte, x as int % 64, y as int % 32),
            collided == row_collides(old(self)@, byte, x as int % 64, y as int % 32),
    {
        proof {
            use_type_invariant(&*self);
        }
        let col: usize = x % CHIP8_WIDTH;
        let row: usize = y % CHIP8_HEIGHT;
        let mut collided = false;
        let mut i: u8 = 0;
        assert(self@ =~~= with_sprite_bits(old(self)@, byte, col as int, row as int, 0));
        while i < 8 && col + (i as usize) < CHIP8_WIDTH
            invariant
                i <= 8,
                col < CHIP8_WIDTH,
                row < CHIP8_HEIGHT,
                is_frame(old(self)@),
                is_frame(self@),
                self@ == with_sprite_bits(old(self)@, byte, col as int, row as int, i as int),
                collided == bits_collide(old(self)@, byte, col as int, row as int, i as int),
            decreases 8 - i,
        {
            let shift: u8 = 7 - i;
            let pixel: u8 = (byte >> shift) & 1;
            assert((byte >> shift) & 1 <= 1) by (bit_vector);
            assert(pixel == sprite_bit(byte, i as int));
            let erased = self.draw_pixel(col + (i as usize), row, pixel);
            assert(self@ =~~= with_sprite_bits(
                old(self)@,
                byte,
                col as int,
                row as int,
                i as int + 1,
            ));
            proof {
                let c: int = col as int + i as int;
                if erased {
                    assert(covers(col as int, c) && sprite_bit(byte, c - col as int) == 1);
                }
                if bits_collide(old(self)@, byte, col as int, row as int, i as int + 1)
                    && !collided {
                    let w = choose|w: int|
                        covers(col as int, w) && w < col as int + i as int + 1 && old(
                            self,
                        )@[row as int][w] == 1 && #[trigger] sprite_bit(byte, w - col as int) == 1;
                    assert(w == c);
                }
            }
            collided = collided || erased;
            i += 1;
        }
        proof {
            let done: int = i as int;
            assert(with_sprite_bits(old(self)@, byte, col as int, row as int, done)
                =~~= with_sprite_row(old(self)@, byte, col as int, row as int));
            assert(bits_collide(old(self)@, byte, col as int, row as int, done) == row_collides(
                old(self)@,
                byte,
                col as int,
                row as int,
            ));
        }
        collided
    }

    /// The pixels, for a renderer to read.
    pub fn get_frame_buffer(&self) -> (buffer: &FrameBuffer)
        ensures
            is_frame(self@),
            buffer@.len() == CHIP8_HEIGHT,
            forall|r: int| 0 <= r < CHIP8_HEIGHT ==> (#[trigger] buffer@[r])@ == self@[r],
    {
        proof {
            use_type_invariant(self);
        }
        &self.buffer
    }

    /// Lights every pixel.
    pub fn fill_buffer(&mut self)
        ensures
            is_frame(final(self)@),
            final(self)@ == uniform_frame(1),
    {
        self.buffer = [[1; 64]; 32];
        assert(self@ =~~= uniform_frame(1));
    }
}

} // verus!
