use vstd::prelude::*;

use crate::decode::Instr;
use crate::decode::spec_decode;
use crate::font::spec_font;

verus! {

/// The reasons a machine halts. A halted machine ignores `step` and the
/// instruction phase of `tick` until it is rebuilt.
#[derive(Clone, Copy, PartialEq, Eq, Structural, Debug)]
pub enum FaultKind {
    /// A `2nnn` call was executed with all 16 stack slots in use.
    StackOverflow,
    /// A `00EE` return was executed with an empty stack.
    StackUnderflow,
    /// The fetched word is not a CHIP-8 instruction.
    UnknownOpcode,
}

/// A fault together with the program counter of the faulting instruction.
#[derive(Clone, Copy, PartialEq, Eq, Structural, Debug)]
pub struct Fault {
    pub kind: FaultKind,
    pub pc: u16,
}

/// The mathematical state of the machine: what the contracts speak of.
#[verifier::ext_equal]
pub ghost struct St {
    /// 4096 bytes of memory.
    pub mem: Seq<u8>,
    /// The sixteen 8-bit registers V0..VF.
    pub v: Seq<u8>,
    /// The 16-bit address register I.
    pub i: u16,
    /// The program counter; kept even and at most 0xFFE.
    pub pc: u16,
    /// The sixteen return-stack slots; slots at `sp` and above are unused.
    pub stack: Seq<u16>,
    /// Index of the next free stack slot, 0..=16.
    pub sp: int,
    /// The 60 Hz delay timer.
    pub delay: u8,
    /// The 60 Hz sound timer; audio is on exactly while it is non-zero.
    pub sound: u8,
    /// The 64x32 framebuffer, row-major, each cell 0 or 1.
    pub fb: Seq<u8>,
    /// Pressed state of the sixteen keypad keys.
    pub keys: Seq<bool>,
    /// The wait latch of `Fx0A`: the register awaiting a key, if any.
    pub waiting: Option<u8>,
    /// Set whenever the framebuffer changed; cleared by `consume_dirty`.
    pub dirty: bool,
    /// The fault that halted the machine, if any.
    pub fault: Option<Fault>,
    /// Instructions executed per 60 Hz frame.
    pub ipf: u16,
}

/// Well-formedness of a machine state. Every reachable state satisfies it:
/// the containers have their fixed sizes, the stack index stays within
/// 0..=16, the program counter is even and at most 0xFFE (jump targets have
/// their low bit cleared, the documented policy of this core), framebuffer
/// cells are 0 or 1, and a latched wait names a real register.
pub open spec fn wf(s: St) -> bool {
    &&& s.mem.len() == 4096
    &&& s.v.len() == 16
    &&& s.stack.len() == 16
    &&& s.fb.len() == 2048
    &&& s.keys.len() == 16
    &&& 0 <= s.sp <= 16
    &&& s.pc <= 0xFFE
    &&& s.pc % 2 == 0
    &&& (match s.waiting {
        Some(x) => x < 16,
        None => true,
    })
    &&& (forall|k: int| 0 <= k < 2048 ==> #[trigger] s.fb[k] <= 1)
}

/// Mask a program-counter value to the 12-bit address space, low bit cleared.
pub open spec fn pc_mask(a: u16) -> u16 {
    a & 0x0FFE
}

/// The program counter of the next instruction in sequence.
pub open spec fn next_pc(pc: u16) -> u16 {
    pc_mask(((pc + 2) % 0x10000) as u16)
}

/// The program counter after a taken skip.
pub open spec fn skip_pc(pc: u16) -> u16 {
    pc_mask(((pc + 4) % 0x10000) as u16)
}

pub proof fn lemma_pc_mask(a: u16)
    by (bit_vector)
    ensures
        pc_mask(a) <= 0xFFE,
        pc_mask(a) % 2 == 0,
{
}

/// A memory address formed from I plus an offset, masked to 12 bits.
pub open spec fn addr12(i: u16, k: int) -> int {
    (i + k) % 4096
}

/// The instruction word at the program counter: two bytes, big-endian.
pub open spec fn fetch(s: St) -> u16 {
    ((s.mem[s.pc as int] as u16) << 8) | (s.mem[s.pc as int + 1] as u16)
}

/// Addition modulo 256.
pub open spec fn add8(a: u8, b: u8) -> u8 {
    ((a + b) % 256) as u8
}

/// Subtraction modulo 256.
pub open spec fn sub8(a: u8, b: u8) -> u8 {
    if a >= b {
        (a - b) as u8
    } else {
        (a - b + 256) as u8
    }
}

/// The lowest-numbered pressed key, if any.
pub open spec fn first_key_from(keys: Seq<bool>, k: int) -> Option<u8>
    decreases 16 - k,
{
    if k < 0 || k >= 16 {
        None
    } else if keys[k] {
        Some(k as u8)
    } else {
        first_key_from(keys, k + 1)
    }
}

pub open spec fn first_key(keys: Seq<bool>) -> Option<u8> {
    first_key_from(keys, 0)
}

/// Whether the sprite of `Dxyn` writes the framebuffer cell at `(px, py)`.
/// The sprite origin wraps to `(vx mod 64, vy mod 32)`; pixels that would
/// run off the right or bottom edge from there are clipped, not wrapped.
pub open spec fn draw_covers(vx: u8, vy: u8, n: u8, px: int, py: int) -> bool {
    let x0 = (vx % 64) as int;
    let y0 = (vy % 32) as int;
    &&& x0 <= px < 64
    &&& px < x0 + 8
    &&& y0 <= py < 32
    &&& py < y0 + n
}

/// The sprite bit that lands on cell `(px, py)`: bit `7 - (px - x0)` of the
/// row byte at `I + (py - y0)`, most significant bit leftmost.
pub open spec fn sprite_bit(mem: Seq<u8>, i: u16, vx: u8, vy: u8, px: int, py: int) -> u8 {
    let x0 = (vx % 64) as int;
    let y0 = (vy % 32) as int;
    let row = mem[addr12(i, py - y0)];
    (row >> ((7 - (px - x0)) as u8)) & 1
}

/// The framebuffer after the sprite draw: covered cells are XORed with the
/// sprite bit, all others are untouched.
pub open spec fn draw_fb(fb: Seq<u8>, mem: Seq<u8>, i: u16, vx: u8, vy: u8, n: u8) -> Seq<u8> {
    Seq::new(
        2048,
        |idx: int|
            if draw_covers(vx, vy, n, idx % 64, idx / 64) {
                fb[idx] ^ sprite_bit(mem, i, vx, vy, idx % 64, idx / 64)
            } else {
                fb[idx]
            },
    )
}

/// Whether the sprite draw flips the cell at `(px, py)` from on to off:
/// the cell is on and the sprite bit landing there is set.
pub open spec fn hit_at(fb: Seq<u8>, mem: Seq<u8>, i: u16, vx: u8, vy: u8, px: int, py: int) -> bool {
    fb[py * 64 + px] == 1 && sprite_bit(mem, i, vx, vy, px, py) == 1
}

/// Whether the draw collides: some covered cell is on and receives a set
/// sprite bit (so it flips off).
pub open spec fn draw_hit(fb: Seq<u8>, mem: Seq<u8>, i: u16, vx: u8, vy: u8, n: u8) -> bool {
    exists|px: int, py: int|
        draw_covers(vx, vy, n, px, py) && #[trigger] hit_at(fb, mem, i, vx, vy, px, py)
}

/// A sprite bit is a single bit.
pub proof fn lemma_sprite_bit_le(mem: Seq<u8>, i: u16, vx: u8, vy: u8, px: int, py: int)
    ensures
        sprite_bit(mem, i, vx, vy, px, py) <= 1,
{
    let x0 = (vx % 64) as int;
    let row = mem[addr12(i, py - ((vy % 32) as int))];
    let sh = (7 - (px - x0)) as u8;
    assert((row >> sh) & 1 <= 1) by (bit_vector);
}

/// XOR keeps single-bit cells single-bit.
pub proof fn lemma_xor_le(a: u8, b: u8)
    by (bit_vector)
    ensures
        a <= 1 && b <= 1 ==> (a ^ b) <= 1,
{
}

/// Memory after `Fx55`: `v[0..=x]` stored at `I..`, addresses masked to 12
/// bits, I itself untouched.
pub open spec fn store_regs(mem: Seq<u8>, v: Seq<u8>, i: u16, x: int) -> Seq<u8>
    decreases x + 1,
{
    if x < 0 {
        mem
    } else {
        store_regs(mem, v, i, x - 1).update(addr12(i, x), v[x])
    }
}

/// Registers after `Fx65`: `v[0..=x]` loaded from `I..`.
pub open spec fn load_regs(v: Seq<u8>, mem: Seq<u8>, i: u16, x: int) -> Seq<u8>
    decreases x + 1,
{
    if x < 0 {
        v
    } else {
        load_regs(v, mem, i, x - 1).update(x, mem[addr12(i, x)])
    }
}

/// Halt the machine, recording the fault kind and the faulting instruction's
/// program counter.
pub open spec fn with_fault(s: St, k: FaultKind) -> St {
    St { fault: Some(Fault { kind: k, pc: s.pc }), ..s }
}

/// The effect of one decoded instruction on the state. `r` is the byte the
/// pseudo-random source produced for this step; only `Cxkk` reads it.
pub open spec fn step_instr(s: St, ins: Instr, r: u8) -> St {
    match ins {
        Instr::Cls => St {
            fb: Seq::new(2048, |idx: int| 0u8),
            dirty: true,
            pc: next_pc(s.pc),
            ..s
        },
        Instr::Ret => if s.sp <= 0 {
            with_fault(s, FaultKind::StackUnderflow)
        } else {
            St { sp: s.sp - 1, pc: pc_mask(s.stack[s.sp - 1]), ..s }
        },
        Instr::Sys { nnn: _ } => St { pc: next_pc(s.pc), ..s },
        Instr::Jp { nnn } => St { pc: pc_mask(nnn), ..s },
        Instr::Call { nnn } => if s.sp >= 16 {
            with_fault(s, FaultKind::StackOverflow)
        } else {
            St {
                stack: s.stack.update(s.sp, next_pc(s.pc)),
                sp: s.sp + 1,
                pc: pc_mask(nnn),
                ..s
            }
        },
        Instr::SeImm { x, kk } => St {
            pc: if s.v[x as int] == kk {
                skip_pc(s.pc)
            } else {
                next_pc(s.pc)
            },
            ..s
        },
        Instr::SneImm { x, kk } => St {
            pc: if s.v[x as int] != kk {
                skip_pc(s.pc)
            } else {
                next_pc(s.pc)
            },
            ..s
        },
        Instr::SeReg { x, y } => St {
            pc: if s.v[x as int] == s.v[y as int] {
                skip_pc(s.pc)
            } else {
                next_pc(s.pc)
            },
            ..s
        },
        Instr::LdImm { x, kk } => St { v: s.v.update(x as int, kk), pc: next_pc(s.pc), ..s },
        Instr::AddImm { x, kk } => St {
            v: s.v.update(x as int, add8(s.v[x as int], kk)),
            pc: next_pc(s.pc),
            ..s
        },
        Instr::Mov { x, y } => St {
            v: s.v.update(x as int, s.v[y as int]),
            pc: next_pc(s.pc),
            ..s
        },
        Instr::Or { x, y } => St {
            v: s.v.update(x as int, s.v[x as int] | s.v[y as int]),
            pc: next_pc(s.pc),
            ..s
        },
        Instr::And { x, y } => St {
            v: s.v.update(x as int, s.v[x as int] & s.v[y as int]),
            pc: next_pc(s.pc),
            ..s
        },
        Instr::Xor { x, y } => St {
            v: s.v.update(x as int, s.v[x as int] ^ s.v[y as int]),
            pc: next_pc(s.pc),
            ..s
        },
        Instr::Add { x, y } => {
            let a = s.v[x as int];
            let b = s.v[y as int];
            St {
                v: s.v.update(x as int, add8(a, b)).update(
                    15,
                    if a + b > 255 {
                        1u8
                    } else {
                        0u8
                    },
                ),
                pc: next_pc(s.pc),
                ..s
            }
        },
        Instr::Sub { x, y } => {
            let a = s.v[x as int];
            let b = s.v[y as int];
            St {
                v: s.v.update(x as int, sub8(a, b)).update(
                    15,
                    if a >= b {
                        1u8
                    } else {
                        0u8
                    },
                ),
                pc: next_pc(s.pc),
                ..s
            }
        },
        Instr::Shr { x } => {
            let a = s.v[x as int];
            St {
                v: s.v.update(x as int, a >> 1u8).update(15, a & 1),
                pc: next_pc(s.pc),
                ..s
            }
        },
        Instr::SubN { x, y } => {
            let a = s.v[x as int];
            let b = s.v[y as int];
            St {
                v: s.v.update(x as int, sub8(b, a)).update(
                    15,
                    if b >= a {
                        1u8
                    } else {
                        0u8
                    },
                ),
                pc: next_pc(s.pc),
                ..s
            }
        },
        Instr::Shl { x } => {
            let a = s.v[x as int];
            St {
                v: s.v.update(x as int, a << 1u8).update(15, (a >> 7u8) & 1),
                pc: next_pc(s.pc),
                ..s
            }
        },
        Instr::SneReg { x, y } => St {
            pc: if s.v[x as int] != s.v[y as int] {
                skip_pc(s.pc)
            } else {
                next_pc(s.pc)
            },
            ..s
        },
        Instr::LdI { nnn } => St { i: nnn, pc: next_pc(s.pc), ..s },
        Instr::JpV0 { nnn } => St {
            pc: pc_mask(((nnn + s.v[0]) % 0x10000) as u16),
            ..s
        },
        Instr::Rnd { x, kk } => St { v: s.v.update(x as int, r & kk), pc: next_pc(s.pc), ..s },
        Instr::Drw { x, y, n } => {
            let vx = s.v[x as int];
            let vy = s.v[y as int];
            St {
                fb: draw_fb(s.fb, s.mem, s.i, vx, vy, n),
                v: s.v.update(
                    15,
                    if draw_hit(s.fb, s.mem, s.i, vx, vy, n) {
                        1u8
                    } else {
                        0u8
                    },
                ),
                dirty: true,
                pc: next_pc(s.pc),
                ..s
            }
        },
        Instr::Skp { x } => St {
            pc: if s.keys[(s.v[x as int] & 0xF) as int] {
                skip_pc(s.pc)
            } else {
                next_pc(s.pc)
            },
            ..s
        },
        Instr::Sknp { x } => St {
            pc: if !s.keys[(s.v[x as int] & 0xF) as int] {
                skip_pc(s.pc)
            } else {
                next_pc(s.pc)
            },
            ..s
        },
        Instr::LdFromDt { x } => St { v: s.v.update(x as int, s.delay), pc: next_pc(s.pc), ..s },
        Instr::WaitKey { x } => St { waiting: Some(x), ..s },
        Instr::LdDt { x } => St { delay: s.v[x as int], pc: next_pc(s.pc), ..s },
        Instr::LdSt { x } => St { sound: s.v[x as int], pc: next_pc(s.pc), ..s },
        Instr::AddI { x } => St {
            i: ((s.i + s.v[x as int]) % 0x10000) as u16,
            pc: next_pc(s.pc),
            ..s
        },
        Instr::LdFont { x } => St {
            i: (0x50 + 5 * (s.v[x as int] & 0xF)) as u16,
            pc: next_pc(s.pc),
            ..s
        },
        Instr::Bcd { x } => {
            let val = s.v[x as int];
            St {
                mem: s.mem.update(addr12(s.i, 0), val / 100).update(
                    addr12(s.i, 1),
                    (val / 10) % 10,
                ).update(addr12(s.i, 2), val % 10),
                pc: next_pc(s.pc),
                ..s
            }
        },
        Instr::StoreRegs { x } => St {
            mem: store_regs(s.mem, s.v, s.i, x as int),
            pc: next_pc(s.pc),
            ..s
        },
        Instr::LoadRegs { x } => St {
            v: load_regs(s.v, s.mem, s.i, x as int),
            pc: next_pc(s.pc),
            ..s
        },
    }
}

/// One call of `step`: nothing on a halted machine; a key scan while the
/// wait latch is set; otherwise fetch, decode and execute, faulting on an
/// unknown opcode. `r` is the byte the pseudo-random source produced.
#[verifier::opaque]
pub open spec fn spec_step(s: St, r: u8) -> St {
    match s.fault {
        Some(_) => s,
        None => match s.waiting {
            Some(x) => match first_key(s.keys) {
                Some(k) => St {
                    v: s.v.update(x as int, k),
                    waiting: None,
                    pc: next_pc(s.pc),
                    ..s
                },
                None => s,
            },
            None => match spec_decode(fetch(s)) {
                None => with_fault(s, FaultKind::UnknownOpcode),
                Some(ins) => step_instr(s, ins, r),
            },
        },
    }
}

/// The state after running the steps that consume the pseudo-random bytes
/// `rs`, first byte first.
pub open spec fn run_steps(a: St, rs: Seq<u8>) -> St
    decreases rs.len(),
{
    if rs.len() == 0 {
        a
    } else {
        run_steps(spec_step(a, rs[0]), rs.subrange(1, rs.len() as int))
    }
}

/// `b` is reachable from `a` by exactly `k` steps, for some sequence of
/// pseudo-random bytes.
pub open spec fn steps_rel(a: St, b: St, k: int) -> bool {
    exists|rs: Seq<u8>| rs.len() == k && #[trigger] run_steps(a, rs) == b
}

/// Appending one byte to a trace runs one more step at its end.
pub proof fn lemma_run_push(a: St, rs: Seq<u8>, r: u8)
    ensures
        run_steps(a, rs.push(r)) == spec_step(run_steps(a, rs), r),
    decreases rs.len(),
{
    if rs.len() == 0 {
        assert(rs.push(r)[0] == r);
        assert(rs.push(r).subrange(1, 1) =~= Seq::<u8>::empty());
        assert(run_steps(spec_step(a, r), Seq::<u8>::empty()) == spec_step(a, r));
    } else {
        assert(rs.push(r)[0] == rs[0]);
        assert(rs.push(r).subrange(1, rs.push(r).len() as int) =~= rs.subrange(
            1,
            rs.len() as int,
        ).push(r));
        lemma_run_push(spec_step(a, rs[0]), rs.subrange(1, rs.len() as int), r);
    }
}

/// One more step extends reachability by one.
pub proof fn lemma_steps_snoc(a: St, b: St, c: St, k: int, r: u8)
    requires
        k >= 0,
        steps_rel(a, b, k),
        c == spec_step(b, r),
    ensures
        steps_rel(a, c, k + 1),
{
    let rs = choose|rs: Seq<u8>| rs.len() == k && #[trigger] run_steps(a, rs) == b;
    lemma_run_push(a, rs, r);
    assert(rs.push(r).len() == k + 1);
    assert(run_steps(a, rs.push(r)) == c);
}

/// The empty trace runs no steps: every state reaches itself in 0 steps.
pub proof fn lemma_steps_zero(a: St)
    ensures
        steps_rel(a, a, 0),
{
    assert(run_steps(a, Seq::<u8>::empty()) == a);
}

/// The 60 Hz timer phase of a frame: each non-zero timer goes down by one.
pub open spec fn tick_timers(s: St) -> St {
    St {
        delay: if s.delay > 0 {
            (s.delay - 1) as u8
        } else {
            0u8
        },
        sound: if s.sound > 0 {
            (s.sound - 1) as u8
        } else {
            0u8
        },
        ..s
    }
}

/// Memory at reset: all zero except the font table at 0x050..0x09F.
pub open spec fn reset_mem() -> Seq<u8> {
    Seq::new(
        4096,
        |a: int|
            if 0x50 <= a < 0xA0 {
                spec_font()[a - 0x50]
            } else {
                0u8
            },
    )
}

/// The state a fresh machine is in: font loaded, everything else cleared,
/// PC at 0x200, nine instructions per frame (500 Hz over 60 Hz, rounded up).
pub open spec fn reset_st() -> St {
    St {
        mem: reset_mem(),
        v: Seq::new(16, |k: int| 0u8),
        i: 0,
        pc: 0x200,
        stack: Seq::new(16, |k: int| 0u16),
        sp: 0,
        delay: 0,
        sound: 0,
        fb: Seq::new(2048, |k: int| 0u8),
        keys: Seq::new(16, |k: int| false),
        waiting: None,
        dirty: true,
        fault: None,
        ipf: 9,
    }
}

/// Memory after a program image is copied in at 0x200.
pub open spec fn load_mem(mem: Seq<u8>, p: Seq<u8>) -> Seq<u8> {
    Seq::new(
        4096,
        |a: int|
            if 0x200 <= a < 0x200 + p.len() {
                p[a - 0x200]
            } else {
                mem[a]
            },
    )
}

} // verus!
