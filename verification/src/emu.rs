//! The executable machine: memory, registers, call stack, timers, display
//! buffer and key pad, driven by `tick` (fetch and execute one instruction)
//! and `tick_timers`. Every instruction's effect is proved equal to the
//! specification step function [`crate::state::exec_step`].

use vstd::prelude::*;

use crate::decode::lemma_field_bounds;
use crate::decode::Op;
use crate::stack::Stack;
use crate::state::after_fetch;
use crate::state::blank_screen;
use crate::state::coll_upto;
use crate::state::draw_result;
use crate::state::draw_screen;
use crate::state::exec_enabled;
use crate::state::exec_step;
use crate::state::fetched_word;
use crate::state::first_key;
use crate::state::font_seq;
use crate::state::hit_on;
use crate::state::hits_upto;
use crate::state::initial_ram;
use crate::state::lemma_coll_upto_step;
use crate::state::lemma_first_key_at;
use crate::state::lemma_first_key_none;
use crate::state::lemma_hits_upto_step;
use crate::state::lemma_no_earlier_hit;
use crate::state::pix_index;
use crate::state::regs_loaded;
use crate::state::regs_stored;
use crate::state::spec_tick;
use crate::state::tick_enabled;
use crate::state::EmuView;
use crate::state::FONTSET_SIZE;
use crate::state::NUM_KEYS;
use crate::state::NUM_REGS;
use crate::state::RAM_SIZE;
use crate::state::SCREEN_HEIGHT;
use crate::state::SCREEN_WIDTH;
use crate::state::START_ADDR;

verus! {

/// Relies on `rand::random`: draws one byte from the thread-local
/// generator. The value depends on the generator's state, so nothing is
/// assumed about it.
#[verifier::external_body]
fn random_byte() -> u8 {
    rand::random()
}

/// A vector holding `n` copies of `val`.
fn repeat_u8(n: usize, val: u8) -> (r: Vec<u8>)
    ensures
        r@ == Seq::new(n as nat, |j: int| val),
{
    let mut r: Vec<u8> = Vec::new();
    let mut k: usize = 0;
    while k < n
        invariant
            k <= n,
            r@.len() == k,
            forall|j: int| 0 <= j < k ==> r@[j] == val,
        decreases n - k,
    {
        r.push(val);
        k = k + 1;
    }
    proof {
        assert(r@ =~= Seq::new(n as nat, |j: int| val));
    }
    r
}

/// A vector holding `n` copies of `val`.
fn repeat_bool(n: usize, val: bool) -> (r: Vec<bool>)
    ensures
        r@ == Seq::new(n as nat, |j: int| val),
{
    let mut r: Vec<bool> = Vec::new();
    let mut k: usize = 0;
    while k < n
        invariant
            k <= n,
            r@.len() == k,
            forall|j: int| 0 <= j < k ==> r@[j] == val,
        decreases n - k,
    {
        r.push(val);
        k = k + 1;
    }
    proof {
        assert(r@ =~= Seq::new(n as nat, |j: int| val));
    }
    r
}

/// The built-in font table as a vector.
fn font_vec() -> (r: Vec<u8>)
    ensures
        r@ == font_seq(),
{
    let r: Vec<u8> = vec![
        0xF0u8, 0x90, 0x90, 0x90, 0xF0,
        0x20, 0x60, 0x20, 0x20, 0x70,
        0xF0, 0x10, 0xF0, 0x80, 0xF0,
        0xF0, 0x10, 0xF0, 0x10, 0xF0,
        0x90, 0x90, 0xF0, 0x10, 0x10,
        0xF0, 0x80, 0xF0, 0x10, 0xF0,
        0xF0, 0x80, 0xF0, 0x90, 0xF0,
        0xF0, 0x10, 0x20, 0x40, 0x40,
        0xF0, 0x90, 0xF0, 0x90, 0xF0,
        0xF0, 0x90, 0xF0, 0x10, 0xF0,
        0xF0, 0x90, 0xF0, 0x90, 0x90,
        0xE0, 0x90, 0xE0, 0x90, 0xE0,
        0xF0, 0x80, 0x80, 0x80, 0xF0,
        0xE0, 0x90, 0x90, 0x90, 0xE0,
        0xF0, 0x80, 0xF0, 0x80, 0xF0,
        0xF0, 0x80, 0xF0, 0x80, 0x80,
    ];
    proof {
        assert(r@ =~= font_seq());
    }
    r
}

/// Memory as construction and reset leave it: zeroed, with the font table
/// written at the bottom.
fn initial_ram_vec() -> (r: Vec<u8>)
    ensures
        r@ == initial_ram(),
{
    let mut ram = repeat_u8(RAM_SIZE, 0);
    let font = font_vec();
    let mut k: usize = 0;
    while k < FONTSET_SIZE
        invariant
            k <= FONTSET_SIZE,
            ram@.len() == RAM_SIZE,
            font@ == font_seq(),
            forall|j: int| 0 <= j < k ==> ram@[j] == font_seq()[j],
            forall|j: int| k <= j < RAM_SIZE ==> ram@[j] == 0u8,
        decreases FONTSET_SIZE - k,
    {
        let b = font[k];
        ram.set(k, b);
        k = k + 1;
    }
    proof {
        assert(ram@ =~= initial_ram());
    }
    ram
}

/// The machine state. The external collaborator loads a program into `ram`
/// from `START_ADDR` up, writes `keys` between ticks, and reads `screen`
/// and the timers; the core itself only ever changes state through `tick`,
/// `tick_timers` and `reset`.
pub struct Emu {
    pub pc: u16,
    pub ram: Vec<u8>,
    pub screen: Vec<bool>,
    pub v_reg: Vec<u8>,
    pub i_reg: u16,
    pub keys: Vec<bool>,
    pub dt: u8,
    pub st: u8,
    pub stack: Stack,
}

impl View for Emu {
    type V = EmuView;

    open spec fn view(&self) -> EmuView {
        EmuView {
            pc: self.pc,
            ram: self.ram@,
            screen: self.screen@,
            v: self.v_reg@,
            i: self.i_reg,
            keys: self.keys@,
            dt: self.dt,
            st: self.st,
            sp: self.stack.sp,
            stack: self.stack.slots@,
        }
    }
}

/// Find the lowest-indexed pressed key, scanning 0 through 15 in ascending
/// order.
fn scan_keys(keys: &Vec<bool>) -> (r: Option<u8>)
    requires
        keys@.len() == NUM_KEYS,
    ensures
        match r {
            Some(k) => k < 16 && first_key(keys@, 0) == k as int,
            None => first_key(keys@, 0) == 16,
        },
{
    let mut j: usize = 0;
    while j < NUM_KEYS
        invariant
            j <= NUM_KEYS,
            keys@.len() == NUM_KEYS,
            forall|t: int| 0 <= t < j ==> !keys@[t],
        decreases NUM_KEYS - j,
    {
        if keys[j] {
            proof {
                lemma_first_key_at(keys@, 0, j as int);
            }
            return Some(j as u8);
        }
        j = j + 1;
    }
    proof {
        lemma_first_key_none(keys@, 0);
    }
    None
}

/// Write registers `V0..=VX` into memory starting at address `i`.
fn store_regs(ram: &mut Vec<u8>, v: &Vec<u8>, i: usize, x: usize)
    requires
        old(ram)@.len() == RAM_SIZE,
        v@.len() == NUM_REGS,
        x < NUM_REGS,
        i + x < RAM_SIZE,
    ensures
        final(ram)@.len() == RAM_SIZE,
        forall|a: int|
            0 <= a < RAM_SIZE ==> final(ram)@[a] == (if i <= a <= i + x {
                v@[a - i]
            } else {
                old(ram)@[a]
            }),
{
    let mut idx: usize = 0;
    while idx <= x
        invariant
            idx <= x + 1,
            x < NUM_REGS,
            i + x < RAM_SIZE,
            ram@.len() == RAM_SIZE,
            v@.len() == NUM_REGS,
            forall|a: int|
                0 <= a < RAM_SIZE ==> ram@[a] == (if i <= a < i + idx {
                    v@[a - i]
                } else {
                    old(ram)@[a]
                }),
        decreases x + 1 - idx,
    {
        let b = v[idx];
        ram.set(i + idx, b);
        idx = idx + 1;
    }
}

/// Load registers `V0..=VX` from memory starting at address `i`.
fn load_regs(v: &mut Vec<u8>, ram: &Vec<u8>, i: usize, x: usize)
    requires
        old(v)@.len() == NUM_REGS,
        ram@.len() == RAM_SIZE,
        x < NUM_REGS,
        i + x < RAM_SIZE,
    ensures
        final(v)@.len() == NUM_REGS,
        forall|j: int|
            0 <= j < NUM_REGS ==> final(v)@[j] == (if j <= x {
                ram@[i + j]
            } else {
                old(v)@[j]
            }),
{
    let mut idx: usize = 0;
    while idx <= x
        invariant
            idx <= x + 1,
            x < NUM_REGS,
            i + x < RAM_SIZE,
            v@.len() == NUM_REGS,
            ram@.len() == RAM_SIZE,
            forall|j: int|
                0 <= j < NUM_REGS ==> v@[j] == (if j < idx {
                    ram@[i + j]
                } else {
                    old(v)@[j]
                }),
        decreases x + 1 - idx,
    {
        let b = ram[i + idx];
        v.set(idx, b);
        idx = idx + 1;
    }
}

impl Emu {
    /// All containers have their fixed capacities.
    pub open spec fn wf(&self) -> bool {
        self@.wf()
    }

    /// A fresh machine: font installed, program counter at `START_ADDR`,
    /// everything else zeroed.
    pub fn new() -> (r: Self)
        ensures
            r.wf(),
            r@ == EmuView::initial(),
    {
        let r = Emu {
            pc: START_ADDR,
            ram: initial_ram_vec(),
            screen: repeat_bool(SCREEN_WIDTH * SCREEN_HEIGHT, false),
            v_reg: repeat_u8(NUM_REGS, 0),
            i_reg: 0,
            keys: repeat_bool(NUM_KEYS, false),
            dt: 0,
            st: 0,
            stack: Stack::new(),
        };
        proof {
            assert(r@ =~= EmuView::initial());
        }
        r
    }

    /// Return to the just-created state: every array fully overwritten with
    /// zero, the font table reinstalled, the program counter back at
    /// `START_ADDR` — regardless of prior state.
    pub fn reset(&mut self)
        ensures
            final(self).wf(),
            final(self)@ == EmuView::initial(),
    {
        self.pc = START_ADDR;
        self.ram = initial_ram_vec();
        self.screen = repeat_bool(SCREEN_WIDTH * SCREEN_HEIGHT, false);
        self.v_reg = repeat_u8(NUM_REGS, 0);
        self.i_reg = 0;
        self.keys = repeat_bool(NUM_KEYS, false);
        self.dt = 0;
        self.st = 0;
        self.stack.clear();
        proof {
            assert(self@ =~= EmuView::initial());
        }
    }

    /// One tick of the 60 Hz timer clock: each counter decrements by one,
    /// floored at zero; the timer tick never increments either counter.
    pub fn tick_timers(&mut self)
        ensures
            final(self)@ == (EmuView {
                dt: if old(self)@.dt > 0 {
                    (old(self)@.dt - 1) as u8
                } else {
                    0u8
                },
                st: if old(self)@.st > 0 {
                    (old(self)@.st - 1) as u8
                } else {
                    0u8
                },
                ..old(self)@
            }),
    {
        if self.dt > 0 {
            self.dt = self.dt - 1;
        }
        if self.st > 0 {
            self.st = self.st - 1;
        }
    }

    /// Read the two bytes at the program counter, compose them big-endian,
    /// advance the program counter past them, and decode.
    fn fetch(&mut self) -> (r: Op)
        requires
            old(self).wf(),
            old(self)@.pc + 1 < RAM_SIZE,
        ensures
            final(self).wf(),
            r.wf(),
            r.op == fetched_word(old(self)@),
            final(self)@ == after_fetch(old(self)@),
    {
        let hi = self.ram[self.pc as usize] as u16;
        let lo = self.ram[(self.pc + 1) as usize] as u16;
        let w = (hi << 8) | lo;
        proof {
            assert(w == hi * 256 + lo) by (bit_vector)
                requires
                    hi < 256,
                    lo < 256,
                    w == (hi << 8) | lo,
            ;
        }
        self.pc = self.pc + 2;
        Op::from_opcode(w)
    }

    /// Fetch and execute one instruction. The precondition is exactly the
    /// absence of the two fatal fault classes: the fetch stays in memory,
    /// and the fetched word is a recognized instruction whose accesses are
    /// in bounds.
    pub fn tick(&mut self)
        requires
            tick_enabled(old(self)@),
        ensures
            final(self).wf(),
            exists|r: u8| final(self)@ == spec_tick(old(self)@, r),
    {
        let op = self.fetch();
        self.execute(op);
        proof {
            let r = choose|r: u8| self@ == exec_step(after_fetch(old(self)@), fetched_word(old(self)@), r);
            assert(self@ == spec_tick(old(self)@, r));
        }
    }

    /// Draw an 8-pixel-wide, `n`-row sprite read from memory at the address
    /// register, with base coordinates (`x0`, `y0`): every set sprite bit
    /// toggles its (wrapped) display pixel, and `VF` records whether any
    /// already-set pixel was drawn onto.
    fn draw_sprite(&mut self, x0: u8, y0: u8, n: u8)
        requires
            old(self).wf(),
            n <= 15,
            n == 0 || old(self)@.i + n <= RAM_SIZE,
        ensures
            final(self).wf(),
            final(self)@ == draw_result(old(self)@, x0, y0, n as int),
    {
        let mut flipped = false;
        let mut row: usize = 0;
        while row < n as usize
            invariant
                old(self).wf(),
                self.wf(),
                row <= n,
                n <= 15,
                n == 0 || old(self)@.i + n <= RAM_SIZE,
                self@.pc == old(self)@.pc,
                self@.ram == old(self)@.ram,
                self@.v == old(self)@.v,
                self@.i == old(self)@.i,
                self@.keys == old(self)@.keys,
                self@.dt == old(self)@.dt,
                self@.st == old(self)@.st,
                self@.sp == old(self)@.sp,
                self@.stack == old(self)@.stack,
                forall|p: int|
                    0 <= p < SCREEN_WIDTH * SCREEN_HEIGHT ==> self@.screen[p] == (if hits_upto(
                        old(self)@,
                        x0,
                        y0,
                        8 * (row as int),
                        p,
                    ) {
                        !old(self)@.screen[p]
                    } else {
                        old(self)@.screen[p]
                    }),
                flipped == coll_upto(old(self)@, x0, y0, 8 * (row as int)),
            decreases n - row,
        {
            let addr = self.i_reg as usize + row;
            let pixels = self.ram[addr];
            let mut col: usize = 0;
            while col < 8
                invariant
                    old(self).wf(),
                    self.wf(),
                    row < n,
                    n <= 15,
                    n == 0 || old(self)@.i + n <= RAM_SIZE,
                    col <= 8,
                    pixels == old(self)@.ram[old(self)@.i + row],
                    self@.pc == old(self)@.pc,
                    self@.ram == old(self)@.ram,
                    self@.v == old(self)@.v,
                    self@.i == old(self)@.i,
                    self@.keys == old(self)@.keys,
                    self@.dt == old(self)@.dt,
                    self@.st == old(self)@.st,
                    self@.sp == old(self)@.sp,
                    self@.stack == old(self)@.stack,
                    forall|p: int|
                        0 <= p < SCREEN_WIDTH * SCREEN_HEIGHT ==> self@.screen[p] == (if hits_upto(
                            old(self)@,
                            x0,
                            y0,
                            8 * (row as int) + col as int,
                            p,
                        ) {
                            !old(self)@.screen[p]
                        } else {
                            old(self)@.screen[p]
                        }),
                    flipped == coll_upto(old(self)@, x0, y0, 8 * (row as int) + col as int),
                decreases 8 - col,
            {
                if pixels & (0x80u8 >> col) != 0 {
                    let x = (x0 as usize + col) % SCREEN_WIDTH;
                    let y = (y0 as usize + row) % SCREEN_HEIGHT;
                    let idx = x + SCREEN_WIDTH * y;
                    proof {
                        assert(hit_on(old(self)@, row as int, col as int));
                        assert(idx as int == pix_index(x0, y0, row as int, col as int));
                        lemma_no_earlier_hit(old(self)@, x0, y0, row as int, col as int, n as int);
                    }
                    let was = self.screen[idx];
                    if was {
                        flipped = true;
                    }
                    self.screen.set(idx, !was);
                    proof {
                        assert forall|p: int| 0 <= p < SCREEN_WIDTH * SCREEN_HEIGHT implies
                            self@.screen[p] == (if hits_upto(
                                old(self)@,
                                x0,
                                y0,
                                8 * (row as int) + col as int + 1,
                                p,
                            ) {
                                !old(self)@.screen[p]
                            } else {
                                old(self)@.screen[p]
                            }) by {
                            lemma_hits_upto_step(old(self)@, x0, y0, row as int, col as int, p);
                        }
                        lemma_coll_upto_step(old(self)@, x0, y0, row as int, col as int);
                    }
                } else {
                    proof {
                        assert forall|p: int| 0 <= p < SCREEN_WIDTH * SCREEN_HEIGHT implies
                            self@.screen[p] == (if hits_upto(
                                old(self)@,
                                x0,
                                y0,
                                8 * (row as int) + col as int + 1,
                                p,
                            ) {
                                !old(self)@.screen[p]
                            } else {
                                old(self)@.screen[p]
                            }) by {
                            lemma_hits_upto_step(old(self)@, x0, y0, row as int, col as int, p);
                        }
                        lemma_coll_upto_step(old(self)@, x0, y0, row as int, col as int);
                    }
                }
                col = col + 1;
            }
            row = row + 1;
        }
        let vf: u8 = if flipped {
            1
        } else {
            0
        };
        self.v_reg.set(15, vf);
        proof {
            assert(self@.screen =~= draw_screen(old(self)@, x0, y0, n as int));
            assert(self@ =~= draw_result(old(self)@, x0, y0, n as int));
        }
    }

    /// Execute one decoded instruction: mutate the state according to
    /// exactly the one rule of `exec_step` that the four nibble fields
    /// select.
    fn execute(&mut self, op: Op)
        requires
            old(self).wf(),
            op.wf(),
            exec_enabled(old(self)@, op.op),
        ensures
            final(self).wf(),
            exists|r: u8| final(self)@ == exec_step(old(self)@, op.op, r),
    {
        proof {
            lemma_field_bounds(op.op);
        }
        let d2 = op.d2;
        let d3 = op.d3;
        let d4 = op.d4;
        match (op.d1, op.d2, op.d3, op.d4) {
            // NOP
            (0, 0, 0, 0) => {
                proof {
                    assert(self@ =~= exec_step(old(self)@, op.op, 0u8));
                }
            },
            // CLEAR SCREEN
            (0, 0, 0xE, 0) => {
                self.screen = repeat_bool(SCREEN_WIDTH * SCREEN_HEIGHT, false);
                proof {
                    assert(self@.screen =~= blank_screen());
                    assert(self@ =~= exec_step(old(self)@, op.op, 0u8));
                }
            },
            // RETURN FROM SUBROUTINE
            (0, 0, 0xE, 0xE) => {
                let ret_addr = self.stack.pop();
                self.pc = ret_addr;
                proof {
                    assert(self@ =~= exec_step(old(self)@, op.op, 0u8));
                }
            },
            // JUMP TO NNN
            (1, _, _, _) => {
                self.pc = op.get_nnn();
                proof {
                    assert(self@ =~= exec_step(old(self)@, op.op, 0u8));
                }
            },
            // CALL SUBROUTINE NNN
            (2, _, _, _) => {
                let nnn = op.get_nnn();
                self.stack.push(self.pc);
                self.pc = nnn;
                proof {
                    assert(self@ =~= exec_step(old(self)@, op.op, 0u8));
                }
            },
            // SKIP IF VX == NN
            (3, _, _, _) => {
                if self.v_reg[d2 as usize] == op.get_nn() {
                    self.pc = self.pc + 2;
                }
                proof {
                    assert(self@ =~= exec_step(old(self)@, op.op, 0u8));
                }
            },
            // SKIP IF VX != NN
            (4, _, _, _) => {
                if self.v_reg[d2 as usize] != op.get_nn() {
                    self.pc = self.pc + 2;
                }
                proof {
                    assert(self@ =~= exec_step(old(self)@, op.op, 0u8));
                }
            },
            // SKIP IF VX == VY
            (5, _, _, 0) => {
                if self.v_reg[d2 as usize] == self.v_reg[d3 as usize] {
                    self.pc = self.pc + 2;
                }
                proof {
                    assert(self@ =~= exec_step(old(self)@, op.op, 0u8));
                }
            },
            // SET VX = NN
            (6, _, _, _) => {
                self.v_reg.set(d2 as usize, op.get_nn());
                proof {
                    assert(self@ =~= exec_step(old(self)@, op.op, 0u8));
                }
            },
            // SET VX += NN
            (7, _, _, _) => {
                let x = d2 as usize;
                let nv = self.v_reg[x].wrapping_add(op.get_nn());
                self.v_reg.set(x, nv);
                proof {
                    assert(self@ =~= exec_step(old(self)@, op.op, 0u8));
                }
            },
            // SET VX = VY
            (8, _, _, 0) => {
                self.v_reg.set(d2 as usize, self.v_reg[d3 as usize]);
                proof {
                    assert(self@ =~= exec_step(old(self)@, op.op, 0u8));
                }
            },
            // SET VX |= VY
            (8, _, _, 1) => {
                let nv = self.v_reg[d2 as usize] | self.v_reg[d3 as usize];
                self.v_reg.set(d2 as usize, nv);
                proof {
                    assert(self@ =~= exec_step(old(self)@, op.op, 0u8));
                }
            },
            // SET VX &= VY
            (8, _, _, 2) => {
                let nv = self.v_reg[d2 as usize] & self.v_reg[d3 as usize];
                self.v_reg.set(d2 as usize, nv);
                proof {
                    assert(self@ =~= exec_step(old(self)@, op.op, 0u8));
                }
            },
            // SET VX ^= VY
            (8, _, _, 3) => {
                let nv = self.v_reg[d2 as usize] ^ self.v_reg[d3 as usize];
                self.v_reg.set(d2 as usize, nv);
                proof {
                    assert(self@ =~= exec_step(old(self)@, op.op, 0u8));
                }
            },
            // SET VX += VY, VF = carry
            (8, _, _, 4) => {
                let x = d2 as usize;
                let a = self.v_reg[x];
                let b = self.v_reg[d3 as usize];
                let new_vx = a.wrapping_add(b);
                let new_vf: u8 = if (a as u16) + (b as u16) >= 256 {
                    1
                } else {
                    0
                };
                self.v_reg.set(x, new_vx);
                self.v_reg.set(15, new_vf);
                proof {
                    assert(self@ =~= exec_step(old(self)@, op.op, 0u8));
                }
            },
            // SET VX -= VY, VF = no-borrow
            (8, _, _, 5) => {
                let x = d2 as usize;
                let a = self.v_reg[x];
                let b = self.v_reg[d3 as usize];
                let new_vx = a.wrapping_sub(b);
                let new_vf: u8 = if a < b {
                    0
                } else {
                    1
                };
                self.v_reg.set(x, new_vx);
                self.v_reg.set(15, new_vf);
                proof {
                    assert(self@ =~= exec_step(old(self)@, op.op, 0u8));
                }
            },
            // SET VX >>= 1, VF = shifted-out bit
            (8, _, _, 6) => {
                let x = d2 as usize;
                let a = self.v_reg[x];
                let lsb = a & 1;
                self.v_reg.set(x, a >> 1u8);
                self.v_reg.set(15, lsb);
                proof {
                    assert(a >> 1u8 == a / 2) by (bit_vector);
                    assert(a & 1 == a % 2) by (bit_vector);
                    assert(self@ =~= exec_step(old(self)@, op.op, 0u8));
                }
            },
            // SET VX = VY - VX, VF = no-borrow
            (8, _, _, 7) => {
                let x = d2 as usize;
                let a = self.v_reg[x];
                let b = self.v_reg[d3 as usize];
                let new_vx = b.wrapping_sub(a);
                let new_vf: u8 = if b < a {
                    0
                } else {
                    1
                };
                self.v_reg.set(x, new_vx);
                self.v_reg.set(15, new_vf);
                proof {
                    assert(self@ =~= exec_step(old(self)@, op.op, 0u8));
                }
            },
            // SET VX <<= 1, VF = shifted-out bit
            (8, _, _, 0xE) => {
                let x = d2 as usize;
                let a = self.v_reg[x];
                let msb = (a >> 7u8) & 1;
                self.v_reg.set(x, a << 1u8);
                self.v_reg.set(15, msb);
                proof {
                    assert(a << 1u8 == ((a * 2) % 256) as u8) by (bit_vector);
                    assert((a >> 7u8) & 1 == a / 128) by (bit_vector);
                    assert(self@ =~= exec_step(old(self)@, op.op, 0u8));
                }
            },
            // SKIP IF VX != VY
            (9, _, _, 0) => {
                if self.v_reg[d2 as usize] != self.v_reg[d3 as usize] {
                    self.pc = self.pc + 2;
                }
                proof {
                    assert(self@ =~= exec_step(old(self)@, op.op, 0u8));
                }
            },
            // SET I = NNN
            (0xA, _, _, _) => {
                self.i_reg = op.get_nnn();
                proof {
                    assert(self@ =~= exec_step(old(self)@, op.op, 0u8));
                }
            },
            // JMP V0 + NNN
            (0xB, _, _, _) => {
                self.pc = (self.v_reg[0] as u16) + op.get_nnn();
                proof {
                    assert(self@ =~= exec_step(old(self)@, op.op, 0u8));
                }
            },
            // SET VX = rand() & NN
            (0xC, _, _, _) => {
                let rng: u8 = random_byte();
                self.v_reg.set(d2 as usize, rng & op.get_nn());
                proof {
                    assert(self@ =~= exec_step(old(self)@, op.op, rng));
                }
            },
            // DRAW
            (0xD, _, _, _) => {
                let x_coord = self.v_reg[d2 as usize];
                let y_coord = self.v_reg[d3 as usize];
                self.draw_sprite(x_coord, y_coord, d4);
                proof {
                    assert(self@ =~= exec_step(old(self)@, op.op, 0u8));
                }
            },
            // SKIP IF KEY VX PRESSED
            (0xE, _, 9, 0xE) => {
                let vx = self.v_reg[d2 as usize];
                let key = self.keys[vx as usize];
                if key {
                    self.pc = self.pc + 2;
                }
                proof {
                    assert(self@ =~= exec_step(old(self)@, op.op, 0u8));
                }
            },
            // SKIP IF KEY VX NOT PRESSED
            (0xE, _, 0xA, 1) => {
                let vx = self.v_reg[d2 as usize];
                let key = self.keys[vx as usize];
                if !key {
                    self.pc = self.pc + 2;
                }
                proof {
                    assert(self@ =~= exec_step(old(self)@, op.op, 0u8));
                }
            },
            // SET VX = DT
            (0xF, _, 0, 7) => {
                self.v_reg.set(d2 as usize, self.dt);
                proof {
                    assert(self@ =~= exec_step(old(self)@, op.op, 0u8));
                }
            },
            // WAIT FOR KEY PRESS
            (0xF, _, 0, 0xA) => {
                match scan_keys(&self.keys) {
                    Some(k) => {
                        self.v_reg.set(d2 as usize, k);
                    },
                    None => {
                        // Redo this instruction on the next tick.
                        self.pc = self.pc - 2;
                    },
                }
                proof {
                    assert(self@ =~= exec_step(old(self)@, op.op, 0u8));
                }
            },
            // SET DT = VX
            (0xF, _, 1, 5) => {
                self.dt = self.v_reg[d2 as usize];
                proof {
                    assert(self@ =~= exec_step(old(self)@, op.op, 0u8));
                }
            },
            // SET ST = VX
            (0xF, _, 1, 8) => {
                self.st = self.v_reg[d2 as usize];
                proof {
                    assert(self@ =~= exec_step(old(self)@, op.op, 0u8));
                }
            },
            // SET I += VX
            (0xF, _, 1, 0xE) => {
                let vx = self.v_reg[d2 as usize] as u16;
                self.i_reg = self.i_reg.wrapping_add(vx);
                proof {
                    assert(self@ =~= exec_step(old(self)@, op.op, 0u8));
                }
            },
            // I = FONT GLYPH OF VX
            (0xF, _, 2, 9) => {
                let c = self.v_reg[d2 as usize] as u16;
                self.i_reg = c * 5;
                proof {
                    assert(self@ =~= exec_step(old(self)@, op.op, 0u8));
                }
            },
            // BINARY CODED DECIMAL
            (0xF, _, 3, 3) => {
                let vx = self.v_reg[d2 as usize];
                let i = self.i_reg as usize;
                self.ram.set(i, vx / 100);
                self.ram.set(i + 1, (vx / 10) % 10);
                self.ram.set(i + 2, vx % 10);
                proof {
                    assert(self@ =~= exec_step(old(self)@, op.op, 0u8));
                }
            },
            // STORE V0 - VX
            (0xF, _, 5, 5) => {
                let i = self.i_reg as usize;
                store_regs(&mut self.ram, &self.v_reg, i, d2 as usize);
                proof {
                    assert(self@.ram =~= regs_stored(old(self)@, d2 as int));
                    assert(self@ =~= exec_step(old(self)@, op.op, 0u8));
                }
            },
            // LOAD V0 - VX
            (0xF, _, 6, 5) => {
                let i = self.i_reg as usize;
                load_regs(&mut self.v_reg, &self.ram, i, d2 as usize);
                proof {
                    assert(self@.v =~= regs_loaded(old(self)@, d2 as int));
                    assert(self@ =~= exec_step(old(self)@, op.op, 0u8));
                }
            },
            // Unrecognized: ruled out by the precondition.
            (_, _, _, _) => {
                proof {
                    assert(false);
                }
            },
        }
    }
}

} // verus!
