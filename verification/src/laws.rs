//! Laws of the instruction set, stated over the specification step
//! function and proved once and for all. Each law speaks about
//! `spec_tick`, the state after one whole fetch-and-execute step, or about
//! `draw_result`, the effect of one draw; `tick`'s postcondition ties the
//! running machine to these.

use vstd::prelude::*;

use crate::decode::imm_nn;
use crate::decode::lemma_field_bounds;
use crate::decode::nib1;
use crate::decode::nib2;
use crate::decode::nib3;
use crate::decode::nib4;
use crate::stack::STACK_SIZE;
use crate::state::coll_at;
use crate::state::draw_collision;
use crate::state::draw_result;
use crate::state::draw_screen;
use crate::state::exec_step;
use crate::state::fetched_word;
use crate::state::hit_on;
use crate::state::hits_upto;
use crate::state::lemma_first_key_at;
use crate::state::lemma_first_key_none;
use crate::state::pix_index;
use crate::state::spec_tick;
use crate::state::wsub8;
use crate::state::EmuView;
use crate::state::RAM_SIZE;
use crate::state::SCREEN_HEIGHT;
use crate::state::SCREEN_WIDTH;

verus! {

/// Apart from the random-number instruction, a step does not depend on the
/// drawn byte.
pub proof fn lemma_step_ignores_random(s: EmuView, op: u16, r1: u8, r2: u8)
    requires
        nib1(op) != 0xC,
    ensures
        exec_step(s, op, r1) == exec_step(s, op, r2),
{
    assert(exec_step(s, op, r1) =~= exec_step(s, op, r2));
}

/// Adding an immediate (`7,X,_,_` with byte `NN`): for every register `X`
/// and all byte values, the register becomes the old value plus `NN`,
/// modulo 256, and no flag is written.
pub proof fn lemma_add_immediate_wraps(s: EmuView, op: u16, r: u8)
    requires
        s.wf(),
        fetched_word(s) == op,
        nib1(op) == 7,
    ensures
        spec_tick(s, r).v[nib2(op) as int] == ((s.v[nib2(op) as int] + imm_nn(op)) % 256) as u8,
        forall|j: int| 0 <= j < 16 && j != nib2(op) as int ==> spec_tick(s, r).v[j] == s.v[j],
{
    lemma_field_bounds(op);
}

/// Register addition (`8,X,Y,4`): `VF` is 1 exactly when the unsigned sum
/// reaches 256, and (for `X` other than the flag register itself) `V[X]`
/// becomes the sum modulo 256, independent of the carry.
pub proof fn lemma_add_with_carry(s: EmuView, op: u16, r: u8)
    requires
        s.wf(),
        fetched_word(s) == op,
        nib1(op) == 8,
        nib4(op) == 4,
    ensures
        spec_tick(s, r).v[15] == (if s.v[nib2(op) as int] + s.v[nib3(op) as int] >= 256 {
            1u8
        } else {
            0u8
        }),
        nib2(op) != 15 ==> spec_tick(s, r).v[nib2(op) as int] == ((s.v[nib2(op) as int]
            + s.v[nib3(op) as int]) % 256) as u8,
{
    lemma_field_bounds(op);
}

/// Register subtraction (`8,X,Y,5`): `VF` is 0 exactly when a borrow
/// occurs (`V[X] < V[Y]`), and (for `X` other than the flag register)
/// `V[X]` becomes the difference modulo 256.
pub proof fn lemma_sub_with_borrow(s: EmuView, op: u16, r: u8)
    requires
        s.wf(),
        fetched_word(s) == op,
        nib1(op) == 8,
        nib4(op) == 5,
    ensures
        spec_tick(s, r).v[15] == (if s.v[nib2(op) as int] < s.v[nib3(op) as int] {
            0u8
        } else {
            1u8
        }),
        nib2(op) != 15 ==> spec_tick(s, r).v[nib2(op) as int] == wsub8(
            s.v[nib2(op) as int],
            s.v[nib3(op) as int],
        ),
{
    lemma_field_bounds(op);
}

/// Right shift (`8,X,Y,6`): `VF` receives the bit shifted out (the old
/// low bit of `V[X]`), and `V[X]` is halved. Neither depends on `V[Y]`:
/// the register named by the third nibble is not read at all.
pub proof fn lemma_shift_right_flag(s: EmuView, op: u16, r: u8)
    requires
        s.wf(),
        fetched_word(s) == op,
        nib1(op) == 8,
        nib4(op) == 6,
    ensures
        spec_tick(s, r).v[15] == (s.v[nib2(op) as int] % 2) as u8,
        nib2(op) != 15 ==> spec_tick(s, r).v[nib2(op) as int] == (s.v[nib2(op) as int] / 2) as u8,
{
    lemma_field_bounds(op);
}

/// Left shift (`8,X,Y,E`): `VF` receives the bit shifted out (the old
/// high bit of `V[X]`), and `V[X]` is doubled modulo 256. Neither depends
/// on `V[Y]`.
pub proof fn lemma_shift_left_flag(s: EmuView, op: u16, r: u8)
    requires
        s.wf(),
        fetched_word(s) == op,
        nib1(op) == 8,
        nib4(op) == 0xE,
    ensures
        spec_tick(s, r).v[15] == (s.v[nib2(op) as int] / 128) as u8,
        nib2(op) != 15 ==> spec_tick(s, r).v[nib2(op) as int] == ((s.v[nib2(op) as int] * 2)
            % 256) as u8,
{
    lemma_field_bounds(op);
}

/// Subroutine round trip: a call (`2,NNN`) followed by a return
/// (`0,0,E,E`) leaves the program counter at the instruction immediately
/// after the call, with the stack pointer back where it was.
pub proof fn lemma_call_then_return(s: EmuView, op: u16, r1: u8, r2: u8)
    requires
        s.wf(),
        fetched_word(s) == op,
        nib1(op) == 2,
        s.sp < STACK_SIZE,
        s.pc + 1 < RAM_SIZE,
        fetched_word(spec_tick(s, r1)) == 0x00EE,
    ensures
        spec_tick(spec_tick(s, r1), r2).pc == s.pc + 2,
        spec_tick(spec_tick(s, r1), r2).sp == s.sp,
{
    lemma_field_bounds(op);
    assert(nib1(0x00EEu16) == 0 && nib2(0x00EEu16) == 0 && nib3(0x00EEu16) == 0xE && nib4(
        0x00EEu16,
    ) == 0xE) by (bit_vector);
}

/// Skip on immediate equality (`3,X,NN`): the program counter advances by
/// exactly 4 across the tick when `V[X] == NN` (fetch plus skip), by 2
/// when it does not.
pub proof fn lemma_skip_eq_immediate(s: EmuView, op: u16, r: u8)
    requires
        s.wf(),
        fetched_word(s) == op,
        nib1(op) == 3,
        s.pc + 1 < RAM_SIZE,
    ensures
        s.v[nib2(op) as int] == imm_nn(op) ==> spec_tick(s, r).pc == s.pc + 4,
        s.v[nib2(op) as int] != imm_nn(op) ==> spec_tick(s, r).pc == s.pc + 2,
{
    lemma_field_bounds(op);
}

/// Skip on immediate inequality (`4,X,NN`): 4 when `V[X] != NN`, else 2.
pub proof fn lemma_skip_ne_immediate(s: EmuView, op: u16, r: u8)
    requires
        s.wf(),
        fetched_word(s) == op,
        nib1(op) == 4,
        s.pc + 1 < RAM_SIZE,
    ensures
        s.v[nib2(op) as int] != imm_nn(op) ==> spec_tick(s, r).pc == s.pc + 4,
        s.v[nib2(op) as int] == imm_nn(op) ==> spec_tick(s, r).pc == s.pc + 2,
{
    lemma_field_bounds(op);
}

/// Skip on register equality (`5,X,Y,0`): 4 when `V[X] == V[Y]`, else 2.
pub proof fn lemma_skip_eq_register(s: EmuView, op: u16, r: u8)
    requires
        s.wf(),
        fetched_word(s) == op,
        nib1(op) == 5,
        nib4(op) == 0,
        s.pc + 1 < RAM_SIZE,
    ensures
        s.v[nib2(op) as int] == s.v[nib3(op) as int] ==> spec_tick(s, r).pc == s.pc + 4,
        s.v[nib2(op) as int] != s.v[nib3(op) as int] ==> spec_tick(s, r).pc == s.pc + 2,
{
    lemma_field_bounds(op);
}

/// Skip on register inequality (`9,X,Y,0`): 4 when `V[X] != V[Y]`, else 2.
pub proof fn lemma_skip_ne_register(s: EmuView, op: u16, r: u8)
    requires
        s.wf(),
        fetched_word(s) == op,
        nib1(op) == 9,
        nib4(op) == 0,
        s.pc + 1 < RAM_SIZE,
    ensures
        s.v[nib2(op) as int] != s.v[nib3(op) as int] ==> spec_tick(s, r).pc == s.pc + 4,
        s.v[nib2(op) as int] == s.v[nib3(op) as int] ==> spec_tick(s, r).pc == s.pc + 2,
{
    lemma_field_bounds(op);
}

/// Key wait (`F,X,0,A`) with no key pressed: the tick is a net no-op on
/// the program counter (the instruction will be refetched), and the
/// registers are untouched.
pub proof fn lemma_key_wait_blocks(s: EmuView, op: u16, r: u8)
    requires
        s.wf(),
        fetched_word(s) == op,
        nib1(op) == 0xF,
        nib3(op) == 0,
        nib4(op) == 0xA,
        s.pc + 1 < RAM_SIZE,
        forall|t: int| 0 <= t < 16 ==> !s.keys[t],
    ensures
        spec_tick(s, r).pc == s.pc,
        spec_tick(s, r).v == s.v,
{
    lemma_field_bounds(op);
    lemma_first_key_none(s.keys, 0);
}

/// Key wait (`F,X,0,A`) with key `k` pressed and none below it: `V[X]`
/// receives `k`, the lowest-indexed pressed key, and the program counter
/// advances normally.
pub proof fn lemma_key_wait_takes_lowest(s: EmuView, op: u16, r: u8, k: int)
    requires
        s.wf(),
        fetched_word(s) == op,
        nib1(op) == 0xF,
        nib3(op) == 0,
        nib4(op) == 0xA,
        s.pc + 1 < RAM_SIZE,
        0 <= k < 16,
        s.keys[k],
        forall|t: int| 0 <= t < k ==> !s.keys[t],
    ensures
        spec_tick(s, r).v[nib2(op) as int] == k,
        spec_tick(s, r).pc == s.pc + 2,
{
    lemma_field_bounds(op);
    lemma_first_key_at(s.keys, 0, k);
}

/// Every sprite pixel lands inside the display buffer.
proof fn lemma_pix_index_bounds(x0: u8, y0: u8, row: int, col: int)
    requires
        0 <= row,
        0 <= col,
    ensures
        0 <= pix_index(x0, y0, row, col) < SCREEN_WIDTH * SCREEN_HEIGHT,
{
    vstd::arithmetic::div_mod::lemma_mod_bound(x0 + col, SCREEN_WIDTH as int);
    vstd::arithmetic::div_mod::lemma_mod_bound(y0 + row, SCREEN_HEIGHT as int);
}

/// `hits_upto` depends only on memory and the address register, which a
/// draw never changes.
proof fn lemma_hits_agree(a: EmuView, b: EmuView, x0: u8, y0: u8, k: int, idx: int)
    requires
        a.ram == b.ram,
        a.i == b.i,
    ensures
        hits_upto(a, x0, y0, k, idx) == hits_upto(b, x0, y0, k, idx),
{
    if hits_upto(a, x0, y0, k, idx) {
        let (row, col) = choose|row: int, col: int|
            0 <= row && 0 <= col < 8 && 8 * row + col < k && hit_on(a, row, col)
                && #[trigger] pix_index(x0, y0, row, col) == idx;
        assert(hit_on(b, row, col));
        assert(hits_upto(b, x0, y0, k, idx));
    }
    if hits_upto(b, x0, y0, k, idx) {
        let (row, col) = choose|row: int, col: int|
            0 <= row && 0 <= col < 8 && 8 * row + col < k && hit_on(b, row, col)
                && #[trigger] pix_index(x0, y0, row, col) == idx;
        assert(hit_on(a, row, col));
        assert(hits_upto(a, x0, y0, k, idx));
    }
}

/// Drawing the same sprite at the same location twice in succession
/// restores the display buffer: each pixel the sprite lands on is toggled
/// exactly twice.
pub proof fn lemma_draw_twice_restores(s: EmuView, x0: u8, y0: u8, n: int)
    requires
        s.wf(),
        0 <= n <= 15,
    ensures
        draw_result(draw_result(s, x0, y0, n), x0, y0, n).screen == s.screen,
{
    let s1 = draw_result(s, x0, y0, n);
    assert forall|idx: int| 0 <= idx < s.screen.len() implies draw_screen(s1, x0, y0, n)[idx]
        == s.screen[idx] by {
        lemma_hits_agree(s, s1, x0, y0, 8 * n, idx);
    }
    assert(draw_result(s1, x0, y0, n).screen =~= s.screen);
}

/// When the first draw had no collision, the second identical draw
/// collides exactly when the sprite has any set pixel at all: the first
/// draw turned every one of its pixels on.
pub proof fn lemma_draw_second_collides(s: EmuView, x0: u8, y0: u8, n: int)
    requires
        s.wf(),
        0 <= n <= 15,
        !draw_collision(s, x0, y0, n),
    ensures
        draw_collision(draw_result(s, x0, y0, n), x0, y0, n) <==> (exists|row: int, col: int|
            0 <= row < n && 0 <= col < 8 && #[trigger] hit_on(s, row, col)),
{
    let s1 = draw_result(s, x0, y0, n);
    if draw_collision(s1, x0, y0, n) {
        let (row, col) = choose|row: int, col: int|
            0 <= row && 0 <= col < 8 && 8 * row + col < 8 * n && #[trigger] coll_at(
                s1,
                x0,
                y0,
                row,
                col,
            );
        assert(hit_on(s, row, col));
        assert(0 <= row < n);
    }
    if exists|row: int, col: int| 0 <= row < n && 0 <= col < 8 && #[trigger] hit_on(s, row, col) {
        let (row, col) = choose|row: int, col: int|
            0 <= row < n && 0 <= col < 8 && #[trigger] hit_on(s, row, col);
        let idx = pix_index(x0, y0, row, col);
        lemma_pix_index_bounds(x0, y0, row, col);
        assert(8 * row + col < 8 * n);
        if s.screen[idx] {
            assert(coll_at(s, x0, y0, row, col));
            assert(draw_collision(s, x0, y0, n));
            assert(false);
        }
        assert(hits_upto(s, x0, y0, 8 * n, idx));
        assert(s1.screen[idx]);
        assert(coll_at(s1, x0, y0, row, col));
        assert(draw_collision(s1, x0, y0, n));
    }
}

/// Drawing onto an all-off display buffer never reports a collision.
pub proof fn lemma_draw_on_clear_no_collision(s: EmuView, x0: u8, y0: u8, n: int)
    requires
        s.wf(),
        0 <= n,
        forall|p: int| 0 <= p < SCREEN_WIDTH * SCREEN_HEIGHT ==> !s.screen[p],
    ensures
        !draw_collision(s, x0, y0, n),
{
    if draw_collision(s, x0, y0, n) {
        let (row, col) = choose|row: int, col: int|
            0 <= row && 0 <= col < 8 && 8 * row + col < 8 * n && #[trigger] coll_at(
                s,
                x0,
                y0,
                row,
                col,
            );
        lemma_pix_index_bounds(x0, y0, row, col);
        assert(false);
    }
}

} // verus!
