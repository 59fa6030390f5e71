use chip8_core::Fault;
use chip8_core::FaultKind;
use chip8_core::LoadError;
use chip8_core::Machine;

fn mach(prog: &[u8]) -> Machine {
    let mut m = Machine::new(0);
    m.load(&prog.to_vec()).unwrap();
    m
}

#[test]
fn test_call_ret() {
    // 0x200: CALL 0x206; 0x206: RET. The return address pushed is the
    // instruction after the call, so two steps land on 0x202 with an
    // empty stack.
    let mut m = mach(&[0x22, 0x06, 0x00, 0x00, 0x00, 0x00, 0x00, 0xEE]);
    m.step();
    assert_eq!(m.pc(), 0x206);
    assert_eq!(m.sp(), 1);
    m.step();
    assert_eq!(m.pc(), 0x202);
    assert_eq!(m.sp(), 0);
    assert!(m.fault().is_none());
}

#[test]
fn test_arith_carry() {
    // V0 = 0xFF, V1 = 0x01, 8014: V0 = 0x00, VF = 1.
    let mut m = mach(&[0x60, 0xFF, 0x61, 0x01, 0x80, 0x14]);
    m.step();
    m.step();
    m.step();
    assert_eq!(m.reg(0), 0x00);
    assert_eq!(m.reg(0xF), 1);
}

#[test]
fn test_sub_no_borrow() {
    // V0 = 0x05, V1 = 0x03, 8015: V0 = 0x02, VF = 1 (no borrow).
    let mut m = mach(&[0x60, 0x05, 0x61, 0x03, 0x80, 0x15]);
    m.step();
    m.step();
    m.step();
    assert_eq!(m.reg(0), 0x02);
    assert_eq!(m.reg(0xF), 1);
}

#[test]
fn test_sub_borrow() {
    // V0 = 0x03, V1 = 0x05, 8015: V0 = 0xFE, VF = 0 (borrow).
    let mut m = mach(&[0x60, 0x03, 0x61, 0x05, 0x80, 0x15]);
    m.step();
    m.step();
    m.step();
    assert_eq!(m.reg(0), 0xFE);
    assert_eq!(m.reg(0xF), 0);
}

#[test]
fn test_vf_aliasing() {
    // VF = 0xFF, V1 = 0x01, 8F14 adds V1 into VF: the sum is 0x00 with a
    // carry, and the flag wins over the sum.
    let mut m = mach(&[0x6F, 0xFF, 0x61, 0x01, 0x8F, 0x14]);
    m.step();
    m.step();
    m.step();
    assert_eq!(m.reg(0xF), 1);
}

fn sprite_prog(head: &[u8]) -> Vec<u8> {
    // A program whose first bytes are `head`, with 0xFF at address 0x300.
    let mut p = vec![0u8; 0x101];
    p[..head.len()].copy_from_slice(head);
    p[0x100] = 0xFF;
    p
}

#[test]
fn test_sprite_collision() {
    // I = 0x300, memory[0x300] = 0xFF, draw a one-row sprite at (0, 0)
    // twice: first a row of 8 on-pixels and VF = 0, then all off and VF = 1.
    let mut m = mach(&sprite_prog(&[0xA3, 0x00, 0xD0, 0x11, 0xD0, 0x11]));
    m.step();
    m.step();
    {
        let fb = m.framebuffer();
        for x in 0..8 {
            assert_eq!(fb[x], 1);
        }
        assert_eq!(fb[8], 0);
    }
    assert_eq!(m.reg(0xF), 0);
    m.step();
    {
        let fb = m.framebuffer();
        for x in 0..9 {
            assert_eq!(fb[x], 0);
        }
    }
    assert_eq!(m.reg(0xF), 1);
}

#[test]
fn test_sprite_clips_right_edge() {
    // A sprite drawn at x = 60 keeps its four on-screen pixels and drops
    // the rest; nothing wraps to column 0.
    let mut m = mach(&sprite_prog(&[0x60, 0x3C, 0xA3, 0x00, 0xD0, 0x11]));
    m.step();
    m.step();
    m.step();
    let fb = m.framebuffer();
    for x in 60..64 {
        assert_eq!(fb[x], 1);
    }
    assert_eq!(fb[0], 0);
    assert_eq!(fb[1], 0);
}

#[test]
fn test_bcd() {
    // V0 = 123, I = 0x300, F033: digits 1, 2, 3 at 0x300..0x302.
    let mut m = mach(&[0x60, 0x7B, 0xA3, 0x00, 0xF0, 0x33]);
    m.step();
    m.step();
    m.step();
    assert_eq!(m.mem_at(0x300), 1);
    assert_eq!(m.mem_at(0x301), 2);
    assert_eq!(m.mem_at(0x302), 3);
}

#[test]
fn test_timer_tick() {
    // delay = 2 via F015; two ticks at one no-op instruction per frame
    // bring it to 0.
    let mut m = mach(&[0x60, 0x02, 0xF0, 0x15]);
    m.step();
    m.step();
    assert_eq!(m.delay_timer(), 2);
    m.set_instructions_per_frame(1);
    m.tick();
    assert_eq!(m.delay_timer(), 1);
    m.tick();
    assert_eq!(m.delay_timer(), 0);
    m.tick();
    assert_eq!(m.delay_timer(), 0);
}

#[test]
fn test_key_wait() {
    // F00A with no key pressed: the PC does not move however often the
    // machine steps. After press(5) the next step stores 5 in V0 and
    // advances the PC by 2.
    let mut m = mach(&[0xF0, 0x0A]);
    m.step();
    assert_eq!(m.pc(), 0x200);
    m.step();
    m.step();
    assert_eq!(m.pc(), 0x200);
    m.press(5);
    m.step();
    assert_eq!(m.reg(0), 5);
    assert_eq!(m.pc(), 0x202);
}

#[test]
fn test_key_wait_release_keeps_waiting() {
    let mut m = mach(&[0xF1, 0x0A]);
    m.step();
    m.press(7);
    m.release(7);
    m.step();
    assert_eq!(m.pc(), 0x200);
    m.press(3);
    m.step();
    assert_eq!(m.reg(1), 3);
    assert_eq!(m.pc(), 0x202);
}

#[test]
fn test_load_too_large() {
    let mut m = Machine::new(0);
    let big = vec![0u8; 3585];
    assert_eq!(m.load(&big), Err(LoadError::TooLarge));
    let fits = vec![0u8; 3584];
    assert_eq!(m.load(&fits), Ok(()));
}

#[test]
fn test_stack_overflow() {
    // 0x200 calls itself: the 17th call finds all 16 slots in use.
    let mut m = mach(&[0x22, 0x00]);
    for _ in 0..16 {
        m.step();
        assert!(m.fault().is_none());
    }
    assert_eq!(m.sp(), 16);
    m.step();
    assert_eq!(
        m.fault(),
        Some(Fault { kind: FaultKind::StackOverflow, pc: 0x200 })
    );
    // A halted machine stays put.
    m.step();
    assert_eq!(m.sp(), 16);
    assert_eq!(m.pc(), 0x200);
}

#[test]
fn test_stack_underflow() {
    let mut m = mach(&[0x00, 0xEE]);
    m.step();
    assert_eq!(
        m.fault(),
        Some(Fault { kind: FaultKind::StackUnderflow, pc: 0x200 })
    );
}

#[test]
fn test_unknown_opcode() {
    let mut m = mach(&[0x80, 0x08]);
    m.step();
    assert_eq!(
        m.fault(),
        Some(Fault { kind: FaultKind::UnknownOpcode, pc: 0x200 })
    );
}

#[test]
fn test_clear_screen_idempotent() {
    // Draw the font glyph for 0, clear, clear again: both clears leave
    // every cell off.
    let mut m = mach(&[0xF0, 0x29, 0xD0, 0x05, 0x00, 0xE0, 0x00, 0xE0]);
    m.step();
    m.step();
    assert_eq!(m.framebuffer()[0], 1);
    m.step();
    let after_once: Vec<u8> = m.framebuffer().clone();
    assert!(after_once.iter().all(|&c| c == 0));
    m.step();
    let after_twice: Vec<u8> = m.framebuffer().clone();
    assert_eq!(after_once, after_twice);
}

#[test]
fn test_font_loaded() {
    let m = Machine::new(0);
    // Glyph 0: F0 90 90 90 F0.
    assert_eq!(m.mem_at(0x50), 0xF0);
    assert_eq!(m.mem_at(0x51), 0x90);
    assert_eq!(m.mem_at(0x52), 0x90);
    assert_eq!(m.mem_at(0x53), 0x90);
    assert_eq!(m.mem_at(0x54), 0xF0);
    // Last byte of the F glyph.
    assert_eq!(m.mem_at(0x9F), 0x80);
    assert_eq!(m.mem_at(0x4F), 0);
    assert_eq!(m.mem_at(0xA0), 0);
    assert_eq!(m.pc(), 0x200);
    assert_eq!(m.sp(), 0);
    for x in 0..16 {
        assert_eq!(m.reg(x), 0);
    }
}

#[test]
fn test_font_address() {
    // V0 = 0xA: FX29 points I at 0x50 + 5 * 10 = 0x82.
    let mut m = mach(&[0x60, 0x0A, 0xF0, 0x29]);
    m.step();
    m.step();
    assert_eq!(m.index_reg(), 0x82);
}

#[test]
fn test_rand_masked() {
    // CXKK ands the random byte with KK: a zero mask forces zero, a 0x0F
    // mask keeps the byte below 16.
    let mut m = mach(&[0xC0, 0x00, 0xC1, 0x0F]);
    m.step();
    assert_eq!(m.reg(0), 0);
    m.step();
    assert!(m.reg(1) <= 0x0F);
    assert_eq!(m.pc(), 0x204);
}

#[test]
fn test_skips_immediate() {
    // V0 = 5; 3005 skips; 4005 does not.
    let mut m = mach(&[
        0x60, 0x05, // 0x200
        0x30, 0x05, // 0x202: skip taken -> 0x206
        0x00, 0x00, //
        0x40, 0x05, // 0x206: not taken -> 0x208
    ]);
    m.step();
    m.step();
    assert_eq!(m.pc(), 0x206);
    m.step();
    assert_eq!(m.pc(), 0x208);
}

#[test]
fn test_skips_register() {
    // V0 = 5, V1 = 5: 5010 skips, 9010 does not.
    let mut m = mach(&[
        0x60, 0x05, // 0x200
        0x61, 0x05, // 0x202
        0x50, 0x10, // 0x204: skip -> 0x208
        0x00, 0x00, //
        0x90, 0x10, // 0x208: no skip -> 0x20A
    ]);
    m.step();
    m.step();
    m.step();
    assert_eq!(m.pc(), 0x208);
    m.step();
    assert_eq!(m.pc(), 0x20A);
}

#[test]
fn test_jump() {
    let mut m = mach(&[0x12, 0x08]);
    m.step();
    assert_eq!(m.pc(), 0x208);
}

#[test]
fn test_jump_v0() {
    // V0 = 4, B208: PC = 0x208 + 4.
    let mut m = mach(&[0x60, 0x04, 0xB2, 0x08]);
    m.step();
    m.step();
    assert_eq!(m.pc(), 0x20C);
}

#[test]
fn test_shifts() {
    // V0 = 5: SHR gives V0 = 2, VF = 1; SHL gives V0 = 4, VF = 0.
    let mut m = mach(&[0x60, 0x05, 0x80, 0x06, 0x80, 0x0E]);
    m.step();
    m.step();
    assert_eq!(m.reg(0), 2);
    assert_eq!(m.reg(0xF), 1);
    m.step();
    assert_eq!(m.reg(0), 4);
    assert_eq!(m.reg(0xF), 0);
}

#[test]
fn test_shl_carries_high_bit() {
    let mut m = mach(&[0x60, 0x81, 0x80, 0x0E]);
    m.step();
    m.step();
    assert_eq!(m.reg(0), 0x02);
    assert_eq!(m.reg(0xF), 1);
}

#[test]
fn test_bitops() {
    // V0 = 0b1100, V1 = 0b1010: OR, AND, XOR.
    let mut m = mach(&[
        0x60, 0x0C, 0x61, 0x0A, 0x80, 0x11, // V0 |= V1 -> 0x0E
        0x60, 0x0C, 0x80, 0x12, // V0 = 0x0C; V0 &= V1 -> 0x08
        0x60, 0x0C, 0x80, 0x13, // V0 = 0x0C; V0 ^= V1 -> 0x06
    ]);
    m.step();
    m.step();
    m.step();
    assert_eq!(m.reg(0), 0x0E);
    m.step();
    m.step();
    assert_eq!(m.reg(0), 0x08);
    m.step();
    m.step();
    assert_eq!(m.reg(0), 0x06);
}

#[test]
fn test_or_commutes() {
    // The same operands in either order give the same OR.
    let mut a = mach(&[0x60, 0x5A, 0x61, 0x33, 0x80, 0x11]);
    a.step();
    a.step();
    a.step();
    let mut b = mach(&[0x60, 0x33, 0x61, 0x5A, 0x80, 0x11]);
    b.step();
    b.step();
    b.step();
    assert_eq!(a.reg(0), b.reg(0));
    assert_eq!(a.reg(0), 0x7B);
}

#[test]
fn test_or_self_noop() {
    let mut m = mach(&[0x60, 0x5A, 0x80, 0x01]);
    m.step();
    m.step();
    assert_eq!(m.reg(0), 0x5A);
}

#[test]
fn test_add_imm_leaves_vf() {
    // 7XKK wraps without touching VF.
    let mut m = mach(&[0x60, 0xFF, 0x70, 0x02]);
    m.step();
    m.step();
    assert_eq!(m.reg(0), 0x01);
    assert_eq!(m.reg(0xF), 0);
}

#[test]
fn test_mov_and_subn() {
    // V0 = 3, V1 = 10: 8017 gives V0 = V1 - V0 = 7, VF = 1.
    let mut m = mach(&[0x60, 0x03, 0x61, 0x0A, 0x80, 0x17]);
    m.step();
    m.step();
    m.step();
    assert_eq!(m.reg(0), 7);
    assert_eq!(m.reg(0xF), 1);
}

#[test]
fn test_store_then_load_restores() {
    // F155 then F165 with the same x and unchanged I leaves V0..V1 as
    // they were, even after the registers were scribbled over.
    let mut m = mach(&[
        0x60, 0x11, 0x61, 0x22, 0xA3, 0x00, // V0, V1, I = 0x300
        0xF1, 0x55, // store V0..V1
        0x60, 0x00, 0x61, 0x00, // scribble
        0xF1, 0x65, // load V0..V1
    ]);
    for _ in 0..7 {
        m.step();
    }
    assert_eq!(m.reg(0), 0x11);
    assert_eq!(m.reg(1), 0x22);
    assert_eq!(m.index_reg(), 0x300);
    assert_eq!(m.mem_at(0x300), 0x11);
    assert_eq!(m.mem_at(0x301), 0x22);
    // The core never touched the font on its own account.
    assert_eq!(m.mem_at(0x50), 0xF0);
    assert_eq!(m.mem_at(0x9F), 0x80);
}

#[test]
fn test_sound_gate() {
    // F018 arms the sound timer; audio is on exactly while it is non-zero.
    let mut m = mach(&[0x60, 0x02, 0xF0, 0x18]);
    assert!(!m.sound_active());
    m.step();
    m.step();
    assert!(m.sound_active());
    m.set_instructions_per_frame(1);
    m.tick();
    assert!(m.sound_active());
    m.tick();
    assert!(!m.sound_active());
}

#[test]
fn test_delay_read() {
    // F015 sets the delay timer, F107 reads it back into V1.
    let mut m = mach(&[0x60, 0x09, 0xF0, 0x15, 0xF1, 0x07]);
    m.step();
    m.step();
    m.step();
    assert_eq!(m.reg(1), 9);
}

#[test]
fn test_key_skips() {
    // E09E skips when the key in V0 is down; E0A1 skips when it is up.
    let mut m = mach(&[
        0x60, 0x04, // 0x200
        0xE0, 0x9E, // 0x202: key 4 down -> skip to 0x206
        0x00, 0x00, //
        0xE0, 0xA1, // 0x206: key 4 down -> no skip -> 0x208
    ]);
    m.press(4);
    m.step();
    m.step();
    assert_eq!(m.pc(), 0x206);
    m.step();
    assert_eq!(m.pc(), 0x208);
}

#[test]
fn test_add_i() {
    let mut m = mach(&[0xA0, 0x10, 0x60, 0x05, 0xF0, 0x1E]);
    m.step();
    m.step();
    m.step();
    assert_eq!(m.index_reg(), 0x15);
}

#[test]
fn test_sys_ignored() {
    // 0nnn other than 00E0/00EE is ignored; the PC just advances.
    let mut m = mach(&[0x03, 0x00]);
    m.step();
    assert_eq!(m.pc(), 0x202);
    assert!(m.fault().is_none());
}

#[test]
fn test_consume_dirty() {
    let mut m = mach(&[0xF0, 0x29, 0xD0, 0x05]);
    assert!(m.consume_dirty());
    assert!(!m.consume_dirty());
    m.step();
    m.step();
    assert!(m.consume_dirty());
    assert!(!m.consume_dirty());
}

#[test]
fn test_tick_runs_instructions() {
    // The default frame executes nine instructions.
    let mut m = mach(&[0x00; 32]);
    m.tick();
    assert_eq!(m.pc(), 0x200 + 18);
}
