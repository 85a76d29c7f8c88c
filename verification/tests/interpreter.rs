use chip8_core::decode::Op;
use chip8_core::Emu;

const W: usize = 64;
const H: usize = 32;

/// Write one big-endian instruction word at `addr`.
fn op_at(e: &mut Emu, addr: usize, op: u16) {
    e.ram[addr] = (op >> 8) as u8;
    e.ram[addr + 1] = (op & 0xFF) as u8;
}

fn lit_pixels(e: &Emu) -> usize {
    e.screen.iter().filter(|&&b| b).count()
}

#[test]
fn decode_splits_nibbles() {
    let op = Op::from_opcode(0xABCD);
    assert_eq!(op.op, 0xABCD);
    assert_eq!(op.d1, 0xA);
    assert_eq!(op.d2, 0xB);
    assert_eq!(op.d3, 0xC);
    assert_eq!(op.d4, 0xD);
    assert_eq!(op.get_nn(), 0xCD);
    assert_eq!(op.get_nnn(), 0xBCD);
}

#[test]
fn new_machine_has_font_and_start_addr() {
    let e = Emu::new();
    assert_eq!(e.pc, 0x200);
    assert_eq!(e.ram.len(), 4096);
    assert_eq!(e.ram[0], 0xF0); // first byte of glyph 0
    assert_eq!(e.ram[5], 0x20); // first byte of glyph 1
    assert_eq!(e.ram[79], 0x80); // last byte of glyph F
    assert_eq!(e.ram[80], 0);
    assert_eq!(e.ram[0x200], 0);
    assert_eq!(lit_pixels(&e), 0);
    assert_eq!(e.dt, 0);
    assert_eq!(e.st, 0);
    assert_eq!(e.i_reg, 0);
    assert_eq!(e.stack.sp, 0);
    assert!(e.v_reg.iter().all(|&v| v == 0));
    assert!(e.keys.iter().all(|&k| !k));
}

#[test]
fn reset_restores_initial_state() {
    let mut e = Emu::new();
    e.pc = 0x456;
    e.ram[0] = 0x00;
    e.ram[0x300] = 0x77;
    e.screen[5] = true;
    e.v_reg[3] = 9;
    e.i_reg = 0x123;
    e.keys[2] = true;
    e.dt = 7;
    e.st = 8;
    e.stack.sp = 4;
    e.reset();
    assert_eq!(e.pc, 0x200);
    assert_eq!(e.ram[0], 0xF0); // font reinstalled at addresses 0..=79
    assert_eq!(e.ram[79], 0x80);
    assert_eq!(e.ram[0x300], 0);
    assert_eq!(lit_pixels(&e), 0);
    assert_eq!(e.v_reg[3], 0);
    assert_eq!(e.i_reg, 0);
    assert!(!e.keys[2]);
    assert_eq!(e.dt, 0);
    assert_eq!(e.st, 0);
    assert_eq!(e.stack.sp, 0);
}

#[test]
fn timers_decrement_and_floor_at_zero() {
    let mut e = Emu::new();
    e.dt = 0;
    e.st = 0;
    e.tick_timers();
    assert_eq!(e.dt, 0); // no underflow
    assert_eq!(e.st, 0);
    e.dt = 5;
    e.st = 1;
    e.tick_timers();
    assert_eq!(e.dt, 4);
    assert_eq!(e.st, 0);
}

#[test]
fn add_immediate_wraps_without_flag() {
    let mut e = Emu::new();
    e.v_reg[2] = 250;
    e.v_reg[0xF] = 9; // must stay untouched
    op_at(&mut e, 0x200, 0x7207);
    e.tick();
    assert_eq!(e.v_reg[2], 1); // (250 + 7) mod 256
    assert_eq!(e.v_reg[0xF], 9);
    assert_eq!(e.pc, 0x202);
}

#[test]
fn set_move_and_bit_ops() {
    let mut e = Emu::new();
    op_at(&mut e, 0x200, 0x6142); // V1 = 0x42
    op_at(&mut e, 0x202, 0x8210); // V2 = V1
    op_at(&mut e, 0x204, 0x6330); // V3 = 0x30
    op_at(&mut e, 0x206, 0x8311); // V3 |= V1
    op_at(&mut e, 0x208, 0x8312); // V3 &= V1
    op_at(&mut e, 0x20A, 0x8313); // V3 ^= V1
    e.tick();
    assert_eq!(e.v_reg[1], 0x42);
    e.tick();
    assert_eq!(e.v_reg[2], 0x42);
    e.tick();
    e.tick();
    assert_eq!(e.v_reg[3], 0x72); // 0x30 | 0x42
    e.tick();
    assert_eq!(e.v_reg[3], 0x42); // 0x72 & 0x42
    e.tick();
    assert_eq!(e.v_reg[3], 0x00); // 0x42 ^ 0x42
}

#[test]
fn add_registers_sets_carry() {
    let mut e = Emu::new();
    e.v_reg[1] = 200;
    e.v_reg[2] = 100;
    op_at(&mut e, 0x200, 0x8124);
    e.tick();
    assert_eq!(e.v_reg[1], 44); // (200 + 100) mod 256
    assert_eq!(e.v_reg[0xF], 1);
    e.v_reg[1] = 1;
    op_at(&mut e, 0x202, 0x8124);
    e.tick();
    assert_eq!(e.v_reg[1], 101);
    assert_eq!(e.v_reg[0xF], 0);
}

#[test]
fn sub_registers_sets_borrow_flag() {
    let mut e = Emu::new();
    e.v_reg[1] = 5;
    e.v_reg[2] = 10;
    op_at(&mut e, 0x200, 0x8125);
    e.tick();
    assert_eq!(e.v_reg[1], 251); // (5 - 10) mod 256
    assert_eq!(e.v_reg[0xF], 0); // borrow
    e.v_reg[1] = 10;
    e.v_reg[2] = 5;
    op_at(&mut e, 0x202, 0x8125);
    e.tick();
    assert_eq!(e.v_reg[1], 5);
    assert_eq!(e.v_reg[0xF], 1); // no borrow
}

#[test]
fn sub_reversed_sets_borrow_flag() {
    let mut e = Emu::new();
    e.v_reg[1] = 3;
    e.v_reg[2] = 10;
    op_at(&mut e, 0x200, 0x8127); // V1 = V2 - V1
    e.tick();
    assert_eq!(e.v_reg[1], 7);
    assert_eq!(e.v_reg[0xF], 1);
    e.v_reg[1] = 20;
    e.v_reg[2] = 10;
    op_at(&mut e, 0x202, 0x8127);
    e.tick();
    assert_eq!(e.v_reg[1], 246); // (10 - 20) mod 256
    assert_eq!(e.v_reg[0xF], 0);
}

#[test]
fn shifts_report_shifted_out_bit() {
    let mut e = Emu::new();
    e.v_reg[1] = 5;
    e.v_reg[2] = 0xAA; // the Y register must play no part
    op_at(&mut e, 0x200, 0x8126);
    e.tick();
    assert_eq!(e.v_reg[1], 2);
    assert_eq!(e.v_reg[0xF], 1);
    e.v_reg[1] = 0x81;
    e.v_reg[3] = 0x55;
    op_at(&mut e, 0x202, 0x813E);
    e.tick();
    assert_eq!(e.v_reg[1], 2); // (0x81 << 1) mod 256
    assert_eq!(e.v_reg[0xF], 1);
    e.v_reg[1] = 4;
    op_at(&mut e, 0x204, 0x8106);
    e.tick();
    assert_eq!(e.v_reg[1], 2);
    assert_eq!(e.v_reg[0xF], 0);
}

#[test]
fn jumps_and_address_register() {
    let mut e = Emu::new();
    op_at(&mut e, 0x200, 0x1300); // JMP 0x300
    e.tick();
    assert_eq!(e.pc, 0x300);
    op_at(&mut e, 0x300, 0xA123); // I = 0x123
    e.tick();
    assert_eq!(e.i_reg, 0x123);
    e.v_reg[0] = 0x10;
    op_at(&mut e, 0x302, 0xB300); // JMP V0 + 0x300
    e.tick();
    assert_eq!(e.pc, 0x310);
}

#[test]
fn draw_eight_wide_sprite_on_clear_screen() {
    let mut e = Emu::new();
    e.i_reg = 0x300;
    e.ram[0x300] = 0xFF; // 8x1 all-ones sprite
    op_at(&mut e, 0x200, 0xD011); // draw at (V0, V1) = (0, 0), 1 row
    e.tick();
    assert_eq!(lit_pixels(&e), 8);
    for x in 0..8 {
        assert!(e.screen[x]);
    }
    assert_eq!(e.v_reg[0xF], 0); // nothing was on: no collision
}

#[test]
fn drawing_twice_clears_and_collides() {
    let mut e = Emu::new();
    e.i_reg = 0x300;
    e.ram[0x300] = 0xFF;
    op_at(&mut e, 0x200, 0xD011);
    op_at(&mut e, 0x202, 0xD011);
    e.tick();
    assert_eq!(lit_pixels(&e), 8);
    e.tick();
    assert_eq!(lit_pixels(&e), 0); // the XOR turned them back off
    assert_eq!(e.v_reg[0xF], 1); // and that counts as a collision
}

#[test]
fn draw_wraps_around_right_edge() {
    let mut e = Emu::new();
    e.v_reg[0] = 60;
    e.v_reg[1] = 0;
    e.i_reg = 0x300;
    e.ram[0x300] = 0xFF;
    op_at(&mut e, 0x200, 0xD011);
    e.tick();
    assert_eq!(lit_pixels(&e), 8);
    for x in [60, 61, 62, 63, 0, 1, 2, 3] {
        assert!(e.screen[x], "column {} should be lit", x);
    }
    assert_eq!(e.v_reg[0xF], 0);
}

#[test]
fn draw_wraps_around_bottom_edge() {
    let mut e = Emu::new();
    e.v_reg[0] = 0;
    e.v_reg[1] = 31;
    e.i_reg = 0x300;
    e.ram[0x300] = 0x80;
    e.ram[0x301] = 0x80; // 1x2 sprite: rows 31 and (wrapped) 0
    op_at(&mut e, 0x200, 0xD012);
    e.tick();
    assert_eq!(lit_pixels(&e), 2);
    assert!(e.screen[0 + W * 31]);
    assert!(e.screen[0 + W * 0]);
}

#[test]
fn call_and_return_round_trip() {
    let mut e = Emu::new();
    op_at(&mut e, 0x200, 0x2400); // CALL 0x400
    op_at(&mut e, 0x400, 0x00EE); // RET
    e.tick();
    assert_eq!(e.pc, 0x400);
    assert_eq!(e.stack.sp, 1);
    e.tick();
    assert_eq!(e.pc, 0x202); // right after the call instruction
    assert_eq!(e.stack.sp, 0);
}

#[test]
fn skip_instructions_advance_by_four_or_two() {
    // 3XNN: skip when equal
    let mut e = Emu::new();
    e.v_reg[2] = 7;
    op_at(&mut e, 0x200, 0x3207);
    e.tick();
    assert_eq!(e.pc, 0x204);
    e.reset();
    e.v_reg[2] = 8;
    op_at(&mut e, 0x200, 0x3207);
    e.tick();
    assert_eq!(e.pc, 0x202);
    // 4XNN: skip when not equal
    e.reset();
    e.v_reg[2] = 8;
    op_at(&mut e, 0x200, 0x4207);
    e.tick();
    assert_eq!(e.pc, 0x204);
    e.reset();
    e.v_reg[2] = 7;
    op_at(&mut e, 0x200, 0x4207);
    e.tick();
    assert_eq!(e.pc, 0x202);
    // 5XY0: skip when registers equal
    e.reset();
    e.v_reg[1] = 9;
    e.v_reg[2] = 9;
    op_at(&mut e, 0x200, 0x5120);
    e.tick();
    assert_eq!(e.pc, 0x204);
    e.reset();
    e.v_reg[1] = 9;
    e.v_reg[2] = 8;
    op_at(&mut e, 0x200, 0x5120);
    e.tick();
    assert_eq!(e.pc, 0x202);
    // 9XY0: skip when registers differ
    e.reset();
    e.v_reg[1] = 9;
    e.v_reg[2] = 8;
    op_at(&mut e, 0x200, 0x9120);
    e.tick();
    assert_eq!(e.pc, 0x204);
    e.reset();
    e.v_reg[1] = 9;
    e.v_reg[2] = 9;
    op_at(&mut e, 0x200, 0x9120);
    e.tick();
    assert_eq!(e.pc, 0x202);
}

#[test]
fn key_skip_instructions_sample_key_state() {
    let mut e = Emu::new();
    e.v_reg[4] = 0xB;
    e.keys[0xB] = true;
    op_at(&mut e, 0x200, 0xE49E); // skip if key V4 pressed
    e.tick();
    assert_eq!(e.pc, 0x204);
    e.reset();
    e.v_reg[4] = 0xB;
    op_at(&mut e, 0x200, 0xE4A1); // skip if key V4 not pressed
    e.tick();
    assert_eq!(e.pc, 0x204);
    e.keys[0xB] = true;
    op_at(&mut e, 0x204, 0xE4A1);
    e.tick();
    assert_eq!(e.pc, 0x206);
}

#[test]
fn key_wait_blocks_until_a_key_is_pressed() {
    let mut e = Emu::new();
    op_at(&mut e, 0x200, 0xF30A);
    e.tick();
    assert_eq!(e.pc, 0x200); // net zero advance: the tick will re-fetch
    e.tick();
    assert_eq!(e.pc, 0x200);
    e.keys[9] = true;
    e.keys[4] = true;
    e.tick();
    assert_eq!(e.v_reg[3], 4); // the lowest-indexed pressed key
    assert_eq!(e.pc, 0x202);
}

#[test]
fn timer_transfer_instructions() {
    let mut e = Emu::new();
    e.dt = 42;
    op_at(&mut e, 0x200, 0xF107); // V1 = DT
    e.tick();
    assert_eq!(e.v_reg[1], 42);
    e.v_reg[2] = 99;
    op_at(&mut e, 0x202, 0xF215); // DT = V2
    op_at(&mut e, 0x204, 0xF218); // ST = V2
    e.tick();
    assert_eq!(e.dt, 99);
    e.tick();
    assert_eq!(e.st, 99);
}

#[test]
fn address_register_add_and_font_lookup() {
    let mut e = Emu::new();
    e.i_reg = 0xFFFF;
    e.v_reg[1] = 2;
    op_at(&mut e, 0x200, 0xF11E); // I += V1, wrapping on 16 bits
    e.tick();
    assert_eq!(e.i_reg, 1);
    e.v_reg[5] = 0xA;
    op_at(&mut e, 0x202, 0xF529); // I = glyph address of digit V5
    e.tick();
    assert_eq!(e.i_reg, 50); // 5 bytes per glyph
    assert_eq!(e.ram[e.i_reg as usize], 0xF0); // glyph A starts with 0xF0
}

#[test]
fn bcd_writes_three_decimal_digits() {
    let mut e = Emu::new();
    e.v_reg[4] = 234;
    e.i_reg = 0x500;
    op_at(&mut e, 0x200, 0xF433);
    e.tick();
    assert_eq!(e.ram[0x500], 2);
    assert_eq!(e.ram[0x501], 3);
    assert_eq!(e.ram[0x502], 4);
    e.v_reg[4] = 7;
    op_at(&mut e, 0x202, 0xF433);
    e.tick();
    assert_eq!(e.ram[0x500], 0);
    assert_eq!(e.ram[0x501], 0);
    assert_eq!(e.ram[0x502], 7);
}

#[test]
fn store_and_load_register_ranges() {
    let mut e = Emu::new();
    e.v_reg[0] = 10;
    e.v_reg[1] = 20;
    e.v_reg[2] = 30;
    e.v_reg[3] = 40;
    e.v_reg[4] = 50; // past X: must not be stored
    e.i_reg = 0x600;
    op_at(&mut e, 0x200, 0xF355); // store V0..=V3
    e.tick();
    assert_eq!(&e.ram[0x600..0x604], &[10, 20, 30, 40]);
    assert_eq!(e.ram[0x604], 0);
    e.v_reg[0] = 0;
    e.v_reg[1] = 0;
    e.v_reg[2] = 0;
    e.v_reg[3] = 0;
    e.v_reg[4] = 99;
    op_at(&mut e, 0x202, 0xF265); // load V0..=V2
    e.tick();
    assert_eq!(e.v_reg[0], 10);
    assert_eq!(e.v_reg[1], 20);
    assert_eq!(e.v_reg[2], 30);
    assert_eq!(e.v_reg[3], 0); // past X: untouched
    assert_eq!(e.v_reg[4], 99);
}

#[test]
fn random_byte_is_masked_by_immediate() {
    let mut e = Emu::new();
    op_at(&mut e, 0x200, 0xC300); // V3 = random & 0x00
    e.tick();
    assert_eq!(e.v_reg[3], 0);
    op_at(&mut e, 0x202, 0xC50F); // V5 = random & 0x0F
    e.tick();
    assert_eq!(e.v_reg[5] & 0xF0, 0);
}

#[test]
fn clear_screen_instruction_blanks_buffer() {
    let mut e = Emu::new();
    e.screen[100] = true;
    e.screen[2047] = true;
    op_at(&mut e, 0x200, 0x00E0);
    e.tick();
    assert_eq!(lit_pixels(&e), 0);
    assert_eq!(e.pc, 0x202);
}

#[test]
fn nop_only_advances_the_program_counter() {
    let mut e = Emu::new();
    op_at(&mut e, 0x200, 0x0000);
    e.tick();
    assert_eq!(e.pc, 0x202);
    assert_eq!(lit_pixels(&e), 0);
    assert_eq!(e.stack.sp, 0);
}

#[test]
fn stack_push_pop_order() {
    let mut s = chip8_core::stack::Stack::new();
    assert_eq!(s.sp, 0);
    s.push(0x205);
    s.push(0x300);
    assert_eq!(s.sp, 2);
    assert_eq!(s.pop(), 0x300);
    assert_eq!(s.pop(), 0x205);
    assert_eq!(s.sp, 0);
}
