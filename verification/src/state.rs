//! Specification-level model of the machine: a ghost record of every
//! component of the state, and a total step function `exec_step` that gives
//! each recognized instruction its exact effect. The executable interpreter
//! in [`crate::emu`] is proved to follow this function step by step.

use vstd::arithmetic::div_mod::lemma_fundamental_div_mod;
use vstd::arithmetic::div_mod::lemma_mod_bound;
use vstd::prelude::*;

use crate::decode::imm_nn;
use crate::decode::imm_nnn;
use crate::decode::nib1;
use crate::decode::nib2;
use crate::decode::nib3;
use crate::decode::nib4;
use crate::stack::STACK_SIZE;

verus! {

pub const SCREEN_WIDTH: usize = 64;

pub const SCREEN_HEIGHT: usize = 32;

pub const RAM_SIZE: usize = 4096;

pub const NUM_REGS: usize = 16;

pub const NUM_KEYS: usize = 16;

/// Programs are loaded, and execution starts, at this address.
pub const START_ADDR: u16 = 0x200;

/// Size in bytes of the built-in glyph font table (16 glyphs of 5 bytes).
pub const FONTSET_SIZE: usize = 80;

/// The machine state as contracts speak of it: plain values and sequences.
#[verifier::ext_equal]
pub ghost struct EmuView {
    pub pc: u16,
    pub ram: Seq<u8>,
    pub screen: Seq<bool>,
    pub v: Seq<u8>,
    pub i: u16,
    pub keys: Seq<bool>,
    pub dt: u8,
    pub st: u8,
    pub sp: u16,
    pub stack: Seq<u16>,
}

/// The five-byte glyphs for the hex digits 0 through F, in order.
pub open spec fn font_seq() -> Seq<u8> {
    seq![
        0xF0u8, 0x90, 0x90, 0x90, 0xF0,
        0x20, 0x60, 0x20, 0x20, 0x70,
        0xF0, 0x10, 0xF0, 0x80, 0xF0,
        0xF0, 0x10, 0xF0, 0x10, 0xF0,
        0x90, 0x90, 0xF0, 0x10, 0x10,
        0xF0, 0x80, 0xF0, 0x10, 0xF0,
        0xF0, 0x80, 0xF0, 0x90, 0xF0,
        0xF0, 0x10, 0x20, 0x40, 0x40,
        0xF0, 0x90, 0xF0, 0x90, 0xF0,
        0xF0, 0x90, 0xF0, 0x10, 0xF0,
        0xF0, 0x90, 0xF0, 0x90, 0x90,
        0xE0, 0x90, 0xE0, 0x90, 0xE0,
        0xF0, 0x80, 0x80, 0x80, 0xF0,
        0xE0, 0x90, 0x90, 0x90, 0xE0,
        0xF0, 0x80, 0xF0, 0x80, 0xF0,
        0xF0, 0x80, 0xF0, 0x80, 0x80,
    ]
}

/// Memory right after construction or reset: the font table at the bottom,
/// zero everywhere else.
pub open spec fn initial_ram() -> Seq<u8> {
    Seq::new(RAM_SIZE as nat, |a: int| if a < FONTSET_SIZE { font_seq()[a] } else { 0u8 })
}

/// An all-off display buffer.
pub open spec fn blank_screen() -> Seq<bool> {
    Seq::new((SCREEN_WIDTH * SCREEN_HEIGHT) as nat, |p: int| false)
}

/// 8-bit wrapping addition.
pub open spec fn wadd8(a: u8, b: u8) -> u8 {
    ((a + b) % 256) as u8
}

/// 8-bit wrapping subtraction.
pub open spec fn wsub8(a: u8, b: u8) -> u8 {
    if a >= b {
        (a - b) as u8
    } else {
        (a - b + 256) as u8
    }
}

/// 16-bit wrapping addition.
pub open spec fn wadd16(a: u16, b: u16) -> u16 {
    ((a + b) % 0x10000) as u16
}

/// The lowest index at or after `j` (scanning up to 15) whose key is
/// pressed; 16 when none is.
pub open spec fn first_key(keys: Seq<bool>, j: int) -> int
    decreases 16 - j,
{
    if j < 0 || j >= 16 {
        16
    } else if keys[j] {
        j
    } else {
        first_key(keys, j + 1)
    }
}

impl EmuView {
    /// Every container has its fixed capacity and the stack pointer is in
    /// bounds.
    pub open spec fn wf(self) -> bool {
        &&& self.ram.len() == RAM_SIZE
        &&& self.screen.len() == SCREEN_WIDTH * SCREEN_HEIGHT
        &&& self.v.len() == NUM_REGS
        &&& self.keys.len() == NUM_KEYS
        &&& self.stack.len() == STACK_SIZE
        &&& self.sp <= STACK_SIZE
    }

    /// The just-created state: font installed, everything else zeroed,
    /// program counter at `START_ADDR`.
    pub open spec fn initial() -> EmuView {
        EmuView {
            pc: START_ADDR,
            ram: initial_ram(),
            screen: blank_screen(),
            v: Seq::new(NUM_REGS as nat, |j: int| 0u8),
            i: 0,
            keys: Seq::new(NUM_KEYS as nat, |j: int| false),
            dt: 0,
            st: 0,
            sp: 0,
            stack: Seq::new(STACK_SIZE as nat, |j: int| 0u16),
        }
    }

    /// The same state with one general-purpose register replaced.
    pub open spec fn set_v(self, x: int, val: u8) -> EmuView {
        EmuView { v: self.v.update(x, val), ..self }
    }

    /// The same state with the program counter replaced.
    pub open spec fn with_pc(self, pc: u16) -> EmuView {
        EmuView { pc, ..self }
    }
}

/// Whether bit `col` (counted from the most significant end) of a sprite
/// row byte is set.
pub open spec fn sprite_bit(b: u8, col: int) -> bool {
    b & (0x80u8 >> (col as usize)) != 0
}

/// The display-buffer index that sprite pixel (`row`, `col`) lands on when
/// the sprite's base coordinates are (`x0`, `y0`): both axes wrap
/// independently, after the offsets are added to the unwrapped bases.
pub open spec fn pix_index(x0: u8, y0: u8, row: int, col: int) -> int {
    (x0 + col) % (SCREEN_WIDTH as int) + (SCREEN_WIDTH as int) * ((y0 + row) % (
    SCREEN_HEIGHT as int))
}

/// Whether sprite pixel (`row`, `col`) is set, reading the sprite from
/// memory at the address register.
pub open spec fn hit_on(s: EmuView, row: int, col: int) -> bool {
    sprite_bit(s.ram[s.i + row], col)
}

/// Whether sprite pixel (`row`, `col`) is set and lands on a pixel that is
/// already on in `s` (a collision).
pub open spec fn coll_at(s: EmuView, x0: u8, y0: u8, row: int, col: int) -> bool {
    hit_on(s, row, col) && s.screen[pix_index(x0, y0, row, col)]
}

/// Whether one of the first `k` sprite pixels, in row-major order, is set
/// and lands on display index `idx`.
pub open spec fn hits_upto(s: EmuView, x0: u8, y0: u8, k: int, idx: int) -> bool {
    exists|row: int, col: int|
        0 <= row && 0 <= col < 8 && 8 * row + col < k && hit_on(s, row, col) && #[trigger] pix_index(
            x0,
            y0,
            row,
            col,
        ) == idx
}

/// Whether one of the first `k` sprite pixels collides with a set pixel of
/// `s`.
pub open spec fn coll_upto(s: EmuView, x0: u8, y0: u8, k: int) -> bool {
    exists|row: int, col: int|
        0 <= row && 0 <= col < 8 && 8 * row + col < k && #[trigger] coll_at(s, x0, y0, row, col)
}

/// Whether some pixel of the full `n`-row sprite lands on display index
/// `idx`.
pub open spec fn draw_hits(s: EmuView, x0: u8, y0: u8, n: int, idx: int) -> bool {
    hits_upto(s, x0, y0, 8 * n, idx)
}

/// Whether the full `n`-row sprite collides anywhere: some set sprite pixel
/// is drawn onto a pixel that was already on.
pub open spec fn draw_collision(s: EmuView, x0: u8, y0: u8, n: int) -> bool {
    coll_upto(s, x0, y0, 8 * n)
}

/// The display buffer after the draw: every pixel some sprite pixel lands
/// on is toggled, every other pixel keeps its value.
pub open spec fn draw_screen(s: EmuView, x0: u8, y0: u8, n: int) -> Seq<bool> {
    Seq::new(
        s.screen.len(),
        |idx: int|
            if draw_hits(s, x0, y0, n, idx) {
                !s.screen[idx]
            } else {
                s.screen[idx]
            },
    )
}

/// The whole effect of the draw instruction: the screen is XORed with the
/// sprite and `VF` reports whether any collision occurred.
pub open spec fn draw_result(s: EmuView, x0: u8, y0: u8, n: int) -> EmuView {
    EmuView {
        screen: draw_screen(s, x0, y0, n),
        v: s.v.update(
            15,
            if draw_collision(s, x0, y0, n) {
                1u8
            } else {
                0u8
            },
        ),
        ..s
    }
}

/// Memory after the register-store instruction: `V0..=VX` written at the
/// address register, everything else kept.
pub open spec fn regs_stored(s: EmuView, x: int) -> Seq<u8> {
    Seq::new(
        s.ram.len(),
        |a: int|
            if s.i <= a <= s.i + x {
                s.v[a - s.i]
            } else {
                s.ram[a]
            },
    )
}

/// Registers after the register-load instruction: `V0..=VX` read from the
/// address register, the higher registers kept.
pub open spec fn regs_loaded(s: EmuView, x: int) -> Seq<u8> {
    Seq::new(
        s.v.len(),
        |j: int|
            if j <= x {
                s.ram[s.i + j]
            } else {
                s.v[j]
            },
    )
}

/// Whether the instruction word is recognized and its effect is defined in
/// state `s` (no stack overflow or underflow, no out-of-bounds memory or
/// key access, no program-counter wrap). `s` is the state after the fetch
/// already advanced the program counter.
pub open spec fn exec_enabled(s: EmuView, op: u16) -> bool {
    let d1 = nib1(op);
    let d3 = nib3(op);
    let d4 = nib4(op);
    let x = nib2(op) as int;
    if d1 == 0 && nib2(op) == 0 && d3 == 0 && d4 == 0 {
        true
    } else if d1 == 0 && nib2(op) == 0 && d3 == 0xE && d4 == 0 {
        true
    } else if d1 == 0 && nib2(op) == 0 && d3 == 0xE && d4 == 0xE {
        s.sp > 0
    } else if d1 == 1 {
        true
    } else if d1 == 2 {
        s.sp < STACK_SIZE
    } else if d1 == 3 || d1 == 4 {
        s.pc + 2 <= 0xFFFF
    } else if d1 == 5 && d4 == 0 {
        s.pc + 2 <= 0xFFFF
    } else if d1 == 6 || d1 == 7 {
        true
    } else if d1 == 8 && (d4 <= 7 || d4 == 0xE) {
        true
    } else if d1 == 9 && d4 == 0 {
        s.pc + 2 <= 0xFFFF
    } else if d1 == 0xA || d1 == 0xB || d1 == 0xC {
        true
    } else if d1 == 0xD {
        d4 == 0 || s.i + d4 <= RAM_SIZE
    } else if d1 == 0xE && d3 == 9 && d4 == 0xE {
        s.v[x] < NUM_KEYS && s.pc + 2 <= 0xFFFF
    } else if d1 == 0xE && d3 == 0xA && d4 == 1 {
        s.v[x] < NUM_KEYS && s.pc + 2 <= 0xFFFF
    } else if d1 == 0xF && d3 == 0 && d4 == 7 {
        true
    } else if d1 == 0xF && d3 == 0 && d4 == 0xA {
        s.pc >= 2
    } else if d1 == 0xF && d3 == 1 && (d4 == 5 || d4 == 8 || d4 == 0xE) {
        true
    } else if d1 == 0xF && d3 == 2 && d4 == 9 {
        true
    } else if d1 == 0xF && d3 == 3 && d4 == 3 {
        s.i + 2 < RAM_SIZE
    } else if d1 == 0xF && d3 == 5 && d4 == 5 {
        s.i + x < RAM_SIZE
    } else if d1 == 0xF && d3 == 6 && d4 == 5 {
        s.i + x < RAM_SIZE
    } else {
        false
    }
}

/// The effect of one recognized instruction on state `s` (the state after
/// the fetch already advanced the program counter). `rnd` is the byte the
/// random-number instruction draws; every other instruction ignores it.
pub open spec fn exec_step(s: EmuView, op: u16, rnd: u8) -> EmuView {
    let d1 = nib1(op);
    let d3 = nib3(op);
    let d4 = nib4(op);
    let x = nib2(op) as int;
    let y = nib3(op) as int;
    let nn = imm_nn(op);
    let nnn = imm_nnn(op);
    if d1 == 0 && nib2(op) == 0 && d3 == 0 && d4 == 0 {
        s
    } else if d1 == 0 && nib2(op) == 0 && d3 == 0xE && d4 == 0 {
        EmuView { screen: blank_screen(), ..s }
    } else if d1 == 0 && nib2(op) == 0 && d3 == 0xE && d4 == 0xE {
        EmuView { pc: s.stack[s.sp - 1], sp: (s.sp - 1) as u16, ..s }
    } else if d1 == 1 {
        s.with_pc(nnn)
    } else if d1 == 2 {
        EmuView {
            stack: s.stack.update(s.sp as int, s.pc),
            sp: (s.sp + 1) as u16,
            pc: nnn,
            ..s
        }
    } else if d1 == 3 {
        if s.v[x] == nn {
            s.with_pc((s.pc + 2) as u16)
        } else {
            s
        }
    } else if d1 == 4 {
        if s.v[x] != nn {
            s.with_pc((s.pc + 2) as u16)
        } else {
            s
        }
    } else if d1 == 5 && d4 == 0 {
        if s.v[x] == s.v[y] {
            s.with_pc((s.pc + 2) as u16)
        } else {
            s
        }
    } else if d1 == 6 {
        s.set_v(x, nn)
    } else if d1 == 7 {
        s.set_v(x, wadd8(s.v[x], nn))
    } else if d1 == 8 && d4 == 0 {
        s.set_v(x, s.v[y])
    } else if d1 == 8 && d4 == 1 {
        s.set_v(x, s.v[x] | s.v[y])
    } else if d1 == 8 && d4 == 2 {
        s.set_v(x, s.v[x] & s.v[y])
    } else if d1 == 8 && d4 == 3 {
        s.set_v(x, s.v[x] ^ s.v[y])
    } else if d1 == 8 && d4 == 4 {
        s.set_v(x, wadd8(s.v[x], s.v[y])).set_v(
            15,
            if s.v[x] + s.v[y] >= 256 {
                1u8
            } else {
                0u8
            },
        )
    } else if d1 == 8 && d4 == 5 {
        s.set_v(x, wsub8(s.v[x], s.v[y])).set_v(
            15,
            if s.v[x] < s.v[y] {
                0u8
            } else {
                1u8
            },
        )
    } else if d1 == 8 && d4 == 6 {
        s.set_v(x, (s.v[x] / 2) as u8).set_v(15, (s.v[x] % 2) as u8)
    } else if d1 == 8 && d4 == 7 {
        s.set_v(x, wsub8(s.v[y], s.v[x])).set_v(
            15,
            if s.v[y] < s.v[x] {
                0u8
            } else {
                1u8
            },
        )
    } else if d1 == 8 && d4 == 0xE {
        s.set_v(x, ((s.v[x] * 2) % 256) as u8).set_v(15, (s.v[x] / 128) as u8)
    } else if d1 == 9 && d4 == 0 {
        if s.v[x] != s.v[y] {
            s.with_pc((s.pc + 2) as u16)
        } else {
            s
        }
    } else if d1 == 0xA {
        EmuView { i: nnn, ..s }
    } else if d1 == 0xB {
        s.with_pc((s.v[0] + nnn) as u16)
    } else if d1 == 0xC {
        s.set_v(x, rnd & nn)
    } else if d1 == 0xD {
        draw_result(s, s.v[x], s.v[y], d4 as int)
    } else if d1 == 0xE && d3 == 9 && d4 == 0xE {
        if s.keys[s.v[x] as int] {
            s.with_pc((s.pc + 2) as u16)
        } else {
            s
        }
    } else if d1 == 0xE && d3 == 0xA && d4 == 1 {
        if !s.keys[s.v[x] as int] {
            s.with_pc((s.pc + 2) as u16)
        } else {
            s
        }
    } else if d1 == 0xF && d3 == 0 && d4 == 7 {
        s.set_v(x, s.dt)
    } else if d1 == 0xF && d3 == 0 && d4 == 0xA {
        if first_key(s.keys, 0) < 16 {
            s.set_v(x, first_key(s.keys, 0) as u8)
        } else {
            s.with_pc((s.pc - 2) as u16)
        }
    } else if d1 == 0xF && d3 == 1 && d4 == 5 {
        EmuView { dt: s.v[x], ..s }
    } else if d1 == 0xF && d3 == 1 && d4 == 8 {
        EmuView { st: s.v[x], ..s }
    } else if d1 == 0xF && d3 == 1 && d4 == 0xE {
        EmuView { i: wadd16(s.i, s.v[x] as u16), ..s }
    } else if d1 == 0xF && d3 == 2 && d4 == 9 {
        EmuView { i: (s.v[x] * 5) as u16, ..s }
    } else if d1 == 0xF && d3 == 3 && d4 == 3 {
        EmuView {
            ram: s.ram.update(s.i as int, (s.v[x] / 100) as u8).update(
                s.i + 1,
                ((s.v[x] / 10) % 10) as u8,
            ).update(s.i + 2, (s.v[x] % 10) as u8),
            ..s
        }
    } else if d1 == 0xF && d3 == 5 && d4 == 5 {
        EmuView { ram: regs_stored(s, x), ..s }
    } else if d1 == 0xF && d3 == 6 && d4 == 5 {
        EmuView { v: regs_loaded(s, x), ..s }
    } else {
        s
    }
}

/// The instruction word fetched at the program counter: two consecutive
/// memory bytes composed big-endian.
pub open spec fn fetched_word(s: EmuView) -> u16 {
    (s.ram[s.pc as int] * 256 + s.ram[s.pc as int + 1]) as u16
}

/// The state right after the fetch: the program counter has advanced past
/// the two instruction bytes.
pub open spec fn after_fetch(s: EmuView) -> EmuView {
    s.with_pc((s.pc + 2) as u16)
}

/// Whether one whole `tick` is defined in state `s`: the fetch is in
/// bounds, and the fetched word is recognized and executable.
pub open spec fn tick_enabled(s: EmuView) -> bool {
    &&& s.wf()
    &&& s.pc + 1 < RAM_SIZE
    &&& exec_enabled(after_fetch(s), fetched_word(s))
}

/// The state after one whole `tick` (fetch, then execute) when the drawn
/// random byte is `rnd`.
pub open spec fn spec_tick(s: EmuView, rnd: u8) -> EmuView {
    exec_step(after_fetch(s), fetched_word(s), rnd)
}

/// Two numerators that differ by less than the modulus, by at least one,
/// leave different remainders.
proof fn lemma_mod_distinct(a: int, b: int, m: int)
    requires
        0 <= a < b,
        b - a < m,
        0 < m,
    ensures
        a % m != b % m,
{
    lemma_fundamental_div_mod(a, m);
    lemma_fundamental_div_mod(b, m);
    if a % m == b % m {
        let qa = a / m;
        let qb = b / m;
        assert(m * qb - m * qa == m * (qb - qa)) by (nonlinear_arith);
        let d = qb - qa;
        assert(b - a == m * d);
        if d <= 0 {
            assert(m * d <= 0) by (nonlinear_arith)
                requires
                    m > 0,
                    d <= 0,
            ;
        }
        if d >= 1 {
            assert(m * d >= m) by (nonlinear_arith)
                requires
                    m > 0,
                    d >= 1,
            ;
        }
        assert(false);
    }
}

/// Distinct sprite pixels land on distinct display indices: the eight
/// columns of a row stay distinct modulo the screen width, and up to 32
/// rows stay distinct modulo the screen height.
pub proof fn lemma_pix_index_injective(x0: u8, y0: u8, r1: int, c1: int, r2: int, c2: int)
    requires
        0 <= r1 < 32,
        0 <= c1 < 8,
        0 <= r2 < 32,
        0 <= c2 < 8,
        !(r1 == r2 && c1 == c2),
    ensures
        pix_index(x0, y0, r1, c1) != pix_index(x0, y0, r2, c2),
{
    let w = SCREEN_WIDTH as int;
    let h = SCREEN_HEIGHT as int;
    lemma_mod_bound(x0 + c1, w);
    lemma_mod_bound(x0 + c2, w);
    lemma_mod_bound(y0 + r1, h);
    lemma_mod_bound(y0 + r2, h);
    if c1 != c2 {
        if c1 < c2 {
            lemma_mod_distinct(x0 + c1, x0 + c2, w);
        } else {
            lemma_mod_distinct(x0 + c2, x0 + c1, w);
        }
    } else {
        if r1 < r2 {
            lemma_mod_distinct(y0 + r1, y0 + r2, h);
        } else {
            lemma_mod_distinct(y0 + r2, y0 + r1, h);
        }
    }
}

/// Extending the processed prefix of the sprite by one pixel adds exactly
/// that pixel's contribution to `hits_upto`.
pub proof fn lemma_hits_upto_step(s: EmuView, x0: u8, y0: u8, r: int, c: int, idx: int)
    requires
        0 <= r,
        0 <= c < 8,
    ensures
        hits_upto(s, x0, y0, 8 * r + c + 1, idx) <==> (hits_upto(s, x0, y0, 8 * r + c, idx) || (
        hit_on(s, r, c) && pix_index(x0, y0, r, c) == idx)),
{
    let k = 8 * r + c;
    if hits_upto(s, x0, y0, k + 1, idx) {
        let (row, col) = choose|row: int, col: int|
            0 <= row && 0 <= col < 8 && 8 * row + col < k + 1 && hit_on(s, row, col)
                && #[trigger] pix_index(x0, y0, row, col) == idx;
        if 8 * row + col < k {
            assert(hits_upto(s, x0, y0, k, idx));
        } else {
            assert(8 * row + col == k);
            assert(row == r && col == c);
        }
    }
    if hits_upto(s, x0, y0, k, idx) {
        let (row, col) = choose|row: int, col: int|
            0 <= row && 0 <= col < 8 && 8 * row + col < k && hit_on(s, row, col)
                && #[trigger] pix_index(x0, y0, row, col) == idx;
        assert(hits_upto(s, x0, y0, k + 1, idx));
    }
    if hit_on(s, r, c) && pix_index(x0, y0, r, c) == idx {
        assert(hits_upto(s, x0, y0, k + 1, idx));
    }
}

/// The same prefix-extension fact for the collision flag.
pub proof fn lemma_coll_upto_step(s: EmuView, x0: u8, y0: u8, r: int, c: int)
    requires
        0 <= r,
        0 <= c < 8,
    ensures
        coll_upto(s, x0, y0, 8 * r + c + 1) <==> (coll_upto(s, x0, y0, 8 * r + c) || coll_at(
            s,
            x0,
            y0,
            r,
            c,
        )),
{
    let k = 8 * r + c;
    if coll_upto(s, x0, y0, k + 1) {
        let (row, col) = choose|row: int, col: int|
            0 <= row && 0 <= col < 8 && 8 * row + col < k + 1 && #[trigger] coll_at(
                s,
                x0,
                y0,
                row,
                col,
            );
        if 8 * row + col < k {
            assert(coll_upto(s, x0, y0, k));
        } else {
            assert(row == r && col == c);
        }
    }
    if coll_upto(s, x0, y0, k) {
        let (row, col) = choose|row: int, col: int|
            0 <= row && 0 <= col < 8 && 8 * row + col < k && #[trigger] coll_at(s, x0, y0, row, col);
        assert(coll_upto(s, x0, y0, k + 1));
    }
}

/// No sprite pixel processed before (`r`, `c`) lands on the index that
/// (`r`, `c`) itself lands on: the toggle at that index happens at most
/// once during a draw.
pub proof fn lemma_no_earlier_hit(s: EmuView, x0: u8, y0: u8, r: int, c: int, n: int)
    requires
        0 <= r < n,
        n <= 15,
        0 <= c < 8,
    ensures
        !hits_upto(s, x0, y0, 8 * r + c, pix_index(x0, y0, r, c)),
{
    let idx = pix_index(x0, y0, r, c);
    if hits_upto(s, x0, y0, 8 * r + c, idx) {
        let (row, col) = choose|row: int, col: int|
            0 <= row && 0 <= col < 8 && 8 * row + col < 8 * r + c && hit_on(s, row, col)
                && #[trigger] pix_index(x0, y0, row, col) == idx;
        assert(row < 32);
        lemma_pix_index_injective(x0, y0, row, col, r, c);
        assert(false);
    }
}

/// The first pressed key, found by an ascending scan that stopped at `i`:
/// `i` is pressed and everything below it is not.
pub proof fn lemma_first_key_at(keys: Seq<bool>, j: int, i: int)
    requires
        0 <= j <= i < 16,
        keys[i],
        forall|t: int| j <= t < i ==> !keys[t],
    ensures
        first_key(keys, j) == i,
    decreases i - j,
{
    if j < i {
        lemma_first_key_at(keys, j + 1, i);
    }
}

/// When no key at or above `j` is pressed, the scan runs off the end.
pub proof fn lemma_first_key_none(keys: Seq<bool>, j: int)
    requires
        0 <= j <= 16,
        forall|t: int| j <= t < 16 ==> !keys[t],
    ensures
        first_key(keys, j) == 16,
    decreases 16 - j,
{
    if j < 16 {
        lemma_first_key_none(keys, j + 1);
    }
}

} // verus!
