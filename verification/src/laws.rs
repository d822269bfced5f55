use vstd::prelude::*;
use vstd::arithmetic::div_mod::lemma_div_denominator;
use vstd::arithmetic::power2::{lemma2_to64, lemma_pow2_pos, lemma_pow2_unfold, pow2};
use crate::chip::{executed, sprite_at, MachineState};
use crate::display::{
    covers, is_frame, row_collides, sprite_bit, sprite_collides, sprite_drawn, toggled,
    with_sprite_row,
};
use crate::opcode::OpCode;
use crate::register::FLAG_REGISTER;

verus! {

/// Whether two register files agree everywhere but in register `x` and the
/// flag register.
pub open spec fn same_other_registers(before: Seq<u8>, after: Seq<u8>, x: u8) -> bool {
    &&& after.len() == before.len()
    &&& forall|i: int|
        0 <= i < before.len() && i != x && i != FLAG_REGISTER ==> after[i] == before[i]
}

/// Whether two states agree in everything but the general registers.
pub open spec fn same_but_registers(before: MachineState, after: MachineState) -> bool {
    after == (MachineState { v: after.v, ..before })
}

/// Adding register `y` to register `x` leaves the sum modulo 256 in `x` and
/// sets the flag exactly when the sum is above 255. The destination must not
/// be the flag register itself, which would end up holding the sum.
pub proof fn lemma_add_register(s: MachineState, x: u8, y: u8, random: u8)
    requires
        s.wf(),
        x < 16,
        y < 16,
        x != FLAG_REGISTER,
    ensures
        ({
            let (after, result) = executed(s, OpCode::AddRegister(x, y), random);
            let a = s.v[x as int];
            let b = s.v[y as int];
            &&& result is Ok
            &&& after.v[x as int] == (a + b) % 256
            &&& after.v[FLAG_REGISTER as int] == if a + b > 255 { 1u8 } else { 0u8 }
            &&& same_other_registers(s.v, after.v, x)
            &&& same_but_registers(s, after)
        }),
{
}

/// Subtracting register `y` from register `x` leaves the difference modulo
/// 256 in `x` and sets the flag exactly when nothing was borrowed, that is
/// when `x` held at least what `y` held. The destination must not be the
/// flag register itself.
pub proof fn lemma_sub_register(s: MachineState, x: u8, y: u8, random: u8)
    requires
        s.wf(),
        x < 16,
        y < 16,
        x != FLAG_REGISTER,
    ensures
        ({
            let (after, result) = executed(s, OpCode::SubRegister(x, y), random);
            let a = s.v[x as int];
            let b = s.v[y as int];
            &&& result is Ok
            &&& after.v[x as int] == (a - b) % 256
            &&& after.v[FLAG_REGISTER as int] == if a >= b { 1u8 } else { 0u8 }
            &&& same_other_registers(s.v, after.v, x)
            &&& same_but_registers(s, after)
        }),
{
}

/// The reverse subtraction leaves what `y` held minus what `x` held, modulo
/// 256, in `x` and sets the flag exactly when `y` held at least what `x`
/// held. The destination must not be the flag register itself.
pub proof fn lemma_sub_reverse_register(s: MachineState, x: u8, y: u8, random: u8)
    requires
        s.wf(),
        x < 16,
        y < 16,
        x != FLAG_REGISTER,
    ensures
        ({
            let (after, result) = executed(s, OpCode::SubReverseRegister(x, y), random);
            let a = s.v[x as int];
            let b = s.v[y as int];
            &&& result is Ok
            &&& after.v[x as int] == (b - a) % 256
            &&& after.v[FLAG_REGISTER as int] == if b >= a { 1u8 } else { 0u8 }
            &&& same_other_registers(s.v, after.v, x)
            &&& same_but_registers(s, after)
        }),
{
}

/// A shift to the right halves the operand into register `x` and sets the
/// flag to the lowest bit of the operand, the bit that was shifted out. The
/// destination must not be the flag register itself.
pub proof fn lemma_shift_right(s: MachineState, x: u8, y: u8, random: u8)
    requires
        s.wf(),
        x < 16,
        y < 16,
        x != FLAG_REGISTER,
    ensures
        ({
            let (after, result) = executed(s, OpCode::ShiftRightRegister(x, y), random);
            let a = s.shift_operand(x, y);
            &&& result is Ok
            &&& after.v[x as int] == a >> 1
            &&& after.v[x as int] == a / 2
            &&& after.v[FLAG_REGISTER as int] == a & 1
            &&& same_other_registers(s.v, after.v, x)
            &&& same_but_registers(s, after)
        }),
{
    let a = s.shift_operand(x, y);
    assert(a >> 1 == a / 2 && a & 1 == a % 2) by (bit_vector);
}

/// A shift to the left doubles the operand modulo 256 into register `x` and
/// sets the flag to the highest bit of the operand, the bit that was
/// shifted out. The destination must not be the flag register itself.
pub proof fn lemma_shift_left(s: MachineState, x: u8, y: u8, random: u8)
    requires
        s.wf(),
        x < 16,
        y < 16,
        x != FLAG_REGISTER,
    ensures
        ({
            let (after, result) = executed(s, OpCode::ShiftLeftRegister(x, y), random);
            let a = s.shift_operand(x, y);
            &&& result is Ok
            &&& after.v[x as int] == a << 1
            &&& after.v[x as int] == (a * 2) % 256
            &&& after.v[FLAG_REGISTER as int] == a >> 7
            &&& same_other_registers(s.v, after.v, x)
            &&& same_but_registers(s, after)
        }),
{
    let a = s.shift_operand(x, y);
    assert(a << 1 == (a * 2) % 256 && a >> 7 == (if a >= 0x80 { 1u8 } else { 0u8 })) by (bit_vector);
}

/// The state after the same instruction ran `times` times in a row; a run
/// that fails still leaves its state to the next.
pub open spec fn executed_times(s: MachineState, op: OpCode, times: nat) -> MachineState
    decreases times,
{
    if times == 0 {
        s
    } else {
        executed(executed_times(s, op, (times - 1) as nat), op, 0).0
    }
}

/// Shifting a register in place to the left over and over multiplies it by
/// two each time, modulo 256: after `times` shifts it holds the first value
/// times the power of two, modulo 256, and so zero from the eighth shift on.
/// The destination must not be the flag register itself.
pub proof fn lemma_shift_left_repeated(s: MachineState, x: u8, y: u8, times: nat)
    requires
        s.wf(),
        x < 16,
        y < 16,
        x != FLAG_REGISTER,
        s.settings.shift_quirk,
    ensures
        ({
            let after = executed_times(s, OpCode::ShiftLeftRegister(x, y), times);
            &&& after.wf()
            &&& after.settings == s.settings
            &&& after.v[x as int] == (s.v[x as int] * pow2(times)) % 256
            &&& times >= 8 ==> after.v[x as int] == 0
        }),
    decreases times,
{
    let a = s.v[x as int] as int;
    if times == 0 {
        lemma2_to64();
    } else {
        let earlier = (times - 1) as nat;
        let op = OpCode::ShiftLeftRegister(x, y);
        lemma_shift_left_repeated(s, x, y, earlier);
        lemma_shift_left(executed_times(s, op, earlier), x, y, 0);
        lemma_pow2_unfold(times);
        let p = pow2(earlier) as int;
        lemma_double_modulo(a * p);
        assert(a * (2 * p) == (a * p) * 2) by (nonlinear_arith);
        if times >= 8 {
            lemma_pow2_multiple_of_256(times);
            let q = pow2(times) as int / 256;
            assert(a * (256 * q) == 256 * (a * q)) by (nonlinear_arith);
            lemma_multiple_modulo(a * q);
        }
    }
}

/// Doubling modulo 256 does not care whether the number was reduced before.
proof fn lemma_double_modulo(m: int)
    ensures
        ((m % 256) * 2) % 256 == (m * 2) % 256,
{
}

/// A multiple of 256 is zero modulo 256.
proof fn lemma_multiple_modulo(k: int)
    ensures
        (256 * k) % 256 == 0,
{
}

/// From the eighth on, every power of two is a multiple of 256.
proof fn lemma_pow2_multiple_of_256(e: nat)
    requires
        e >= 8,
    ensures
        pow2(e) % 256 == 0,
        pow2(e) == 256 * (pow2(e) / 256),
    decreases e,
{
    if e == 8 {
        lemma2_to64();
    } else {
        lemma_pow2_multiple_of_256((e - 1) as nat);
        lemma_pow2_unfold(e);
    }
}

/// Shifting a register in place to the right over and over halves it each
/// time: after `times` shifts it holds the first value divided by the power
/// of two, and so zero from the eighth shift on. The destination must not
/// be the flag register itself.
pub proof fn lemma_shift_right_repeated(s: MachineState, x: u8, y: u8, times: nat)
    requires
        s.wf(),
        x < 16,
        y < 16,
        x != FLAG_REGISTER,
        s.settings.shift_quirk,
    ensures
        ({
            let after = executed_times(s, OpCode::ShiftRightRegister(x, y), times);
            &&& after.wf()
            &&& after.settings == s.settings
            &&& after.v[x as int] == s.v[x as int] as int / pow2(times) as int
            &&& times >= 8 ==> after.v[x as int] == 0
        }),
    decreases times,
{
    let a = s.v[x as int] as int;
    lemma_pow2_pos(times);
    if times == 0 {
        lemma2_to64();
    } else {
        let earlier = (times - 1) as nat;
        lemma_shift_right_repeated(s, x, y, earlier);
        lemma_pow2_unfold(times);
        lemma_pow2_pos(earlier);
        let p = pow2(earlier) as int;
        lemma_div_denominator(a, p, 2);
        assert(p * 2 == 2 * p);
        if times >= 8 {
            lemma_pow2_multiple_of_256(times);
            let big = pow2(times) as int;
            assert(a / big == 0) by (nonlinear_arith)
                requires
                    0 <= a < 256,
                    big >= 256,
            ;
        }
    }
}

/// A sprite bit is 0 or 1.
pub proof fn lemma_sprite_bit_range(byte: u8, i: int)
    ensures
        sprite_bit(byte, i) <= 1,
{
    if 0 <= i < 8 {
        let shift = (7 - i) as u8;
        assert((byte >> shift) & 1 <= 1) by (bit_vector);
    }
}

/// Drawing a sprite row leaves a screen of the same size that still holds
/// nothing but 0 and 1.
pub proof fn lemma_sprite_row_frame(p: Seq<Seq<u8>>, byte: u8, col: int, row: int)
    requires
        is_frame(p),
    ensures
        is_frame(with_sprite_row(p, byte, col, row)),
{
}

/// Drawing the same sprite row twice at the same place gives the screen
/// back; the second drawing turns a pixel dark exactly if the row has a
/// visible bit set on a pixel that was dark at first.
pub proof fn lemma_sprite_row_twice(p: Seq<Seq<u8>>, byte: u8, col: int, row: int)
    requires
        is_frame(p),
        0 <= col < 64,
        0 <= row < 32,
    ensures
        with_sprite_row(with_sprite_row(p, byte, col, row), byte, col, row) == p,
        row_collides(with_sprite_row(p, byte, col, row), byte, col, row) <==> exists|c: int|
            covers(col, c) && p[row][c] == 0 && #[trigger] sprite_bit(byte, c - col) == 1,
{
    let once = with_sprite_row(p, byte, col, row);
    let twice = with_sprite_row(once, byte, col, row);
    assert forall|r: int, c: int| 0 <= r < 32 && 0 <= c < 64 implies twice[r][c] == p[r][c] by {
        lemma_sprite_bit_range(byte, c - col);
    }
    assert(twice =~~= p);
    if row_collides(once, byte, col, row) {
        let c = choose|c: int|
            covers(col, c) && c < col + 8 && once[row][c] == 1 && #[trigger] sprite_bit(
                byte,
                c - col,
            ) == 1;
        assert(covers(col, c) && p[row][c] == 0 && sprite_bit(byte, c - col) == 1);
    }
    if exists|c: int| covers(col, c) && p[row][c] == 0 && #[trigger] sprite_bit(byte, c - col) == 1 {
        let c = choose|c: int|
            covers(col, c) && p[row][c] == 0 && #[trigger] sprite_bit(byte, c - col) == 1;
        assert(covers(col, c) && c < col + 8 && once[row][c] == 1 && sprite_bit(byte, c - col)
            == 1);
    }
}

/// The pixel at row `r`, column `c` after a sprite was drawn: the sprite row
/// that lands on screen row `r`, if there is one, toggles the pixel with
/// its bit for column `c`.
pub open spec fn sprite_pixel(
    p: Seq<Seq<u8>>,
    sprite: Seq<u8>,
    col: int,
    row: int,
    r: int,
    c: int,
) -> u8 {
    let j = (r - row + 32) % 32;
    if j < sprite.len() && covers(col, c) {
        toggled(p[r][c], sprite_bit(sprite[j], c - col))
    } else {
        p[r][c]
    }
}

/// Bit `c - col` of sprite row `j` is set and lands on a pixel that has the
/// value `on`.
pub open spec fn sprite_bit_lands(
    p: Seq<Seq<u8>>,
    sprite: Seq<u8>,
    col: int,
    row: int,
    on: u8,
    j: int,
    c: int,
) -> bool {
    0 <= j < sprite.len() && covers(col, c) && p[(row + j) % 32][c] == on && sprite_bit(
        sprite[j],
        c - col,
    ) == 1
}

/// Some set bit of the sprite lands on a pixel that has the value `on`.
pub open spec fn sprite_lands(p: Seq<Seq<u8>>, sprite: Seq<u8>, col: int, row: int, on: u8) -> bool {
    exists|j: int, c: int| #[trigger] sprite_bit_lands(p, sprite, col, row, on, j, c)
}

/// Sprite row `j` of a sprite that starts at screen row `row` lands on
/// screen row `r` exactly if `j` is the distance from `row` down to `r`,
/// counted around the bottom edge.
pub proof fn lemma_landing_row(row: int, j: int, r: int)
    requires
        0 <= row < 32,
        0 <= r < 32,
        0 <= j < 32,
    ensures
        r == (row + j) % 32 <==> (r - row + 32) % 32 == j,
{
}

/// A sprite of at most 32 rows touches each screen row at most once, so
/// every pixel after the drawing is the pixel before it, toggled by the one
/// sprite bit that lands on it, if any.
pub proof fn lemma_sprite_drawn(p: Seq<Seq<u8>>, sprite: Seq<u8>, col: int, row: int)
    requires
        is_frame(p),
        sprite.len() <= 32,
        0 <= col < 64,
        0 <= row < 32,
    ensures
        is_frame(sprite_drawn(p, sprite, col, row)),
        forall|r: int, c: int|
            0 <= r < 32 && 0 <= c < 64 ==> #[trigger] sprite_drawn(p, sprite, col, row)[r][c]
                == sprite_pixel(p, sprite, col, row, r, c),
    decreases sprite.len(),
{
    if sprite.len() > 0 {
        let init = sprite.drop_last();
        let n = init.len() as int;
        let target = (row + n) % 32;
        lemma_sprite_drawn(p, init, col, row);
        let before = sprite_drawn(p, init, col, row);
        let after = with_sprite_row(before, sprite.last(), col, target);
        assert(after == sprite_drawn(p, sprite, col, row));
        assert forall|r: int, c: int| 0 <= r < 32 && 0 <= c < 64 implies #[trigger] after[r][c]
            == sprite_pixel(p, sprite, col, row, r, c) && after[r][c] <= 1 by {
            lemma_sprite_bit_range(sprite.last(), c - col);
            lemma_landing_row(row, n, r);
            assert(before[r][c] == sprite_pixel(p, init, col, row, r, c));
        }
    }
}

/// Drawing a sprite of at most 32 rows turns a pixel dark exactly if one of
/// its set bits lands on a lit pixel.
pub proof fn lemma_sprite_collides(p: Seq<Seq<u8>>, sprite: Seq<u8>, col: int, row: int)
    requires
        is_frame(p),
        sprite.len() <= 32,
        0 <= col < 64,
        0 <= row < 32,
    ensures
        sprite_collides(p, sprite, col, row) == sprite_lands(p, sprite, col, row, 1),
    decreases sprite.len(),
{
    if sprite.len() == 0 {
        assert(!sprite_lands(p, sprite, col, row, 1));
    } else {
        let init = sprite.drop_last();
        let n = init.len() as int;
        let target = (row + n) % 32;
        lemma_sprite_collides(p, init, col, row);
        lemma_sprite_drawn(p, init, col, row);
        let before = sprite_drawn(p, init, col, row);
        // The last row lands on a screen row that no earlier row touched.
        assert forall|c: int| 0 <= c < 64 implies #[trigger] before[target][c] == p[target][c] by {
            lemma_landing_row(row, n, target);
            assert(before[target][c] == sprite_pixel(p, init, col, row, target, c));
        }
        if sprite_collides(p, sprite, col, row) {
            if sprite_collides(p, init, col, row) {
                let (j, c) = choose|j: int, c: int| #[trigger]
                    sprite_bit_lands(p, init, col, row, 1, j, c);
                assert(sprite_bit_lands(p, sprite, col, row, 1, j, c));
            } else {
                let c = choose|c: int|
                    covers(col, c) && c < col + 8 && before[target][c] == 1 && #[trigger] sprite_bit(
                        sprite.last(),
                        c - col,
                    ) == 1;
                assert(sprite_bit_lands(p, sprite, col, row, 1, n, c));
            }
        }
        if sprite_lands(p, sprite, col, row, 1) {
            let (j, c) = choose|j: int, c: int| #[trigger]
                sprite_bit_lands(p, sprite, col, row, 1, j, c);
            if j < n {
                assert(sprite_bit_lands(p, init, col, row, 1, j, c));
            } else {
                assert(covers(col, c) && c < col + 8 && before[target][c] == 1 && sprite_bit(
                    sprite.last(),
                    c - col,
                ) == 1);
            }
        }
    }
}

/// Drawing the same sprite twice at the same place gives the screen back,
/// exclusive or being its own inverse.
pub proof fn lemma_sprite_twice(p: Seq<Seq<u8>>, sprite: Seq<u8>, col: int, row: int)
    requires
        is_frame(p),
        sprite.len() <= 32,
        0 <= col < 64,
        0 <= row < 32,
    ensures
        sprite_drawn(sprite_drawn(p, sprite, col, row), sprite, col, row) == p,
{
    let once = sprite_drawn(p, sprite, col, row);
    let twice = sprite_drawn(once, sprite, col, row);
    lemma_sprite_drawn(p, sprite, col, row);
    lemma_sprite_drawn(once, sprite, col, row);
    assert forall|r: int, c: int| 0 <= r < 32 && 0 <= c < 64 implies #[trigger] twice[r][c]
        == p[r][c] by {
        let j = (r - row + 32) % 32;
        assert(twice[r][c] == sprite_pixel(once, sprite, col, row, r, c));
        assert(once[r][c] == sprite_pixel(p, sprite, col, row, r, c));
        if j < sprite.len() {
            lemma_sprite_bit_range(sprite[j], c - col);
        }
    }
    assert(twice =~~= p);
}

/// The second of two drawings of the same sprite at the same place turns a
/// pixel dark exactly if the sprite has a visible bit set on a pixel that
/// was dark at first.
pub proof fn lemma_sprite_twice_collides(p: Seq<Seq<u8>>, sprite: Seq<u8>, col: int, row: int)
    requires
        is_frame(p),
        sprite.len() <= 32,
        0 <= col < 64,
        0 <= row < 32,
    ensures
        sprite_collides(sprite_drawn(p, sprite, col, row), sprite, col, row) == sprite_lands(
            p,
            sprite,
            col,
            row,
            0,
        ),
{
    let once = sprite_drawn(p, sprite, col, row);
    lemma_sprite_drawn(p, sprite, col, row);
    lemma_sprite_collides(once, sprite, col, row);
    if sprite_lands(once, sprite, col, row, 1) {
        let (j, c) = choose|j: int, c: int| #[trigger]
            sprite_bit_lands(once, sprite, col, row, 1, j, c);
        let r = (row + j) % 32;
        lemma_landing_row(row, j, r);
        lemma_sprite_bit_range(sprite[j], c - col);
        assert(once[r][c] == sprite_pixel(p, sprite, col, row, r, c));
        assert(sprite_bit_lands(p, sprite, col, row, 0, j, c));
    }
    if sprite_lands(p, sprite, col, row, 0) {
        let (j, c) = choose|j: int, c: int| #[trigger]
            sprite_bit_lands(p, sprite, col, row, 0, j, c);
        let r = (row + j) % 32;
        lemma_landing_row(row, j, r);
        assert(once[r][c] == sprite_pixel(p, sprite, col, row, r, c));
        assert(sprite_bit_lands(once, sprite, col, row, 1, j, c));
    }
}

/// The draw instruction run twice in a row on a sprite that lies inside
/// memory gives the screen back, and the second run sets the flag exactly
/// if the sprite has a visible bit set on a pixel that was dark at first.
/// Neither coordinate may come from the flag register, which the first run
/// overwrites.
pub proof fn lemma_draw_twice(s: MachineState, x: u8, y: u8, n: u8, random: u8)
    requires
        s.wf(),
        x < 16,
        y < 16,
        n < 16,
        x != FLAG_REGISTER,
        y != FLAG_REGISTER,
        s.index + n <= 4096,
    ensures
        ({
            let (once, first) = executed(s, OpCode::Draw(x, y, n), random);
            let (twice, second) = executed(once, OpCode::Draw(x, y, n), random);
            let sprite = sprite_at(s.memory, s.index, n as int);
            let col = s.v[x as int] as int % 64;
            let row = s.v[y as int] as int % 32;
            &&& first is Ok
            &&& second is Ok
            &&& twice.display == s.display
            &&& twice.v[FLAG_REGISTER as int] == if sprite_lands(s.display, sprite, col, row, 0) {
                1u8
            } else {
                0u8
            }
            &&& twice == (MachineState { v: twice.v, ..s })
        }),
{
    let sprite = sprite_at(s.memory, s.index, n as int);
    let col = s.v[x as int] as int % 64;
    let row = s.v[y as int] as int % 32;
    lemma_sprite_twice(s.display, sprite, col, row);
    lemma_sprite_twice_collides(s.display, sprite, col, row);
    lemma_sprite_drawn(s.display, sprite, col, row);
}

} // verus!
