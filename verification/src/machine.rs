use vstd::prelude::*;

use crate::decode::Instr;
use crate::decode::decode;
use crate::decode::instr_wf;
use crate::decode::lemma_decode_wf;
use crate::font::font_bytes;
use crate::font::spec_font;
use crate::sem::Fault;
use crate::sem::FaultKind;
use crate::sem::St;
use crate::sem::add8;
use crate::sem::addr12;
use crate::sem::draw_covers;
use crate::sem::draw_fb;
use crate::sem::draw_hit;
use crate::sem::fetch;
use crate::sem::first_key;
use crate::sem::first_key_from;
use crate::sem::hit_at;
use crate::sem::lemma_sprite_bit_le;
use crate::sem::lemma_xor_le;
use crate::sem::lemma_pc_mask;
use crate::sem::lemma_steps_snoc;
use crate::sem::lemma_steps_zero;
use crate::sem::load_mem;
use crate::sem::load_regs;
use crate::sem::next_pc;
use crate::sem::reset_mem;
use crate::sem::reset_st;
use crate::sem::skip_pc;
use crate::sem::spec_step;
use crate::sem::sprite_bit;
use crate::sem::step_instr;
use crate::sem::steps_rel;
use crate::sem::store_regs;
use crate::sem::sub8;
use crate::sem::tick_timers;
use crate::sem::wf;
use crate::sem::with_fault;

verus! {

#[verifier::external_type_specification]
#[verifier::external_body]
pub struct ExStdRng(rand::rngs::StdRng);

/// Relies on rand's `SeedableRng::seed_from_u64` for `StdRng`: builds a
/// generator from a 64-bit seed. Nothing is claimed of the generator's
/// contents.
#[verifier::external_body]
fn rng_from_seed(seed: u64) -> rand::rngs::StdRng {
    <rand::rngs::StdRng as rand::SeedableRng>::seed_from_u64(seed)
}

/// Relies on rand's `Rng::gen::<u8>`: draws one byte from the generator.
/// Nothing is claimed of the byte; callers state what holds of every
/// outcome.
#[verifier::external_body]
fn rng_next_byte(rng: &mut rand::rngs::StdRng) -> u8 {
    rand::Rng::gen::<u8>(rng)
}

/// The error of `load`: the image does not fit below the end of memory.
#[derive(Clone, Copy, PartialEq, Eq, Structural, Debug)]
pub enum LoadError {
    TooLarge,
}

/// The CHIP-8 core: memory, registers, stack, timers, framebuffer, keypad
/// and the pseudo-random source. Its view is the mathematical state `St`;
/// every method is proved against the step relation of `sem`.
pub struct Machine {
    mem: Vec<u8>,
    v: Vec<u8>,
    i: u16,
    pc: u16,
    stack: Vec<u16>,
    sp: usize,
    delay: u8,
    sound: u8,
    fb: Vec<u8>,
    keys: Vec<bool>,
    waiting: Option<u8>,
    dirty: bool,
    fault: Option<Fault>,
    ipf: u16,
    rng: rand::rngs::StdRng,
}

impl View for Machine {
    type V = St;

    closed spec fn view(&self) -> St {
        St {
            mem: self.mem@,
            v: self.v@,
            i: self.i,
            pc: self.pc,
            stack: self.stack@,
            sp: self.sp as int,
            delay: self.delay,
            sound: self.sound,
            fb: self.fb@,
            keys: self.keys@,
            waiting: self.waiting,
            dirty: self.dirty,
            fault: self.fault,
            ipf: self.ipf,
        }
    }
}

/// A vector of `n` zero bytes.
fn zero_bytes(n: usize) -> (r: Vec<u8>)
    ensures
        r.len() == n,
        forall|j: int| 0 <= j < n ==> #[trigger] r@[j] == 0,
{
    let mut r: Vec<u8> = Vec::new();
    let mut k: usize = 0;
    while k < n
        invariant
            k <= n,
            r.len() == k,
            forall|j: int| 0 <= j < k ==> #[trigger] r@[j] == 0,
        decreases n - k,
    {
        r.push(0);
        k = k + 1;
    }
    r
}

/// The program counter of the next instruction in sequence.
fn advance(pc: u16) -> (r: u16)
    requires
        pc <= 0xFFE,
    ensures
        r == next_pc(pc),
        r <= 0xFFE,
        r % 2 == 0,
{
    let r: u16 = (pc + 2) & 0x0FFE;
    proof {
        lemma_pc_mask((pc + 2) as u16);
    }
    r
}

/// The program counter after a taken skip.
fn advance_skip(pc: u16) -> (r: u16)
    requires
        pc <= 0xFFE,
    ensures
        r == skip_pc(pc),
        r <= 0xFFE,
        r % 2 == 0,
{
    let r: u16 = (pc + 4) & 0x0FFE;
    proof {
        lemma_pc_mask((pc + 4) as u16);
    }
    r
}

/// The lowest-numbered pressed key, as `first_key` names it.
fn scan_key(keys: &Vec<bool>) -> (r: Option<u8>)
    requires
        keys.len() == 16,
    ensures
        r == first_key(keys@),
{
    let mut k: usize = 0;
    while k < 16
        invariant
            k <= 16,
            keys.len() == 16,
            first_key(keys@) == first_key_from(keys@, k as int),
        decreases 16 - k,
    {
        if keys[k] {
            return Some(k as u8);
        }
        proof {
            assert(first_key_from(keys@, k as int) == first_key_from(keys@, k as int + 1));
        }
        k = k + 1;
    }
    None
}

/// XOR-blit an `n`-row sprite read from `mem` at `i` onto the framebuffer
/// at origin `(vx mod 64, vy mod 32)`, clipping at the right and bottom
/// edges. Returns 1 exactly when some on-cell was flipped off.
fn draw_sprite(fb: &mut Vec<u8>, mem: &Vec<u8>, i: u16, vx: u8, vy: u8, n: u8) -> (vf: u8)
    requires
        old(fb).len() == 2048,
        mem.len() == 4096,
        n < 16,
        forall|k: int| 0 <= k < 2048 ==> #[trigger] old(fb)@[k] <= 1,
    ensures
        final(fb).len() == 2048,
        final(fb)@ == draw_fb(old(fb)@, mem@, i, vx, vy, n),
        vf == (if draw_hit(old(fb)@, mem@, i, vx, vy, n) {
            1u8
        } else {
            0u8
        }),
        forall|k: int| 0 <= k < 2048 ==> #[trigger] final(fb)@[k] <= 1,
{
    let ghost fb0 = fb@;
    let x0: usize = (vx % 64) as usize;
    let y0: usize = (vy % 32) as usize;
    let mut vf: u8 = 0;
    let mut r: usize = 0;
    while r < n as usize
        invariant
            r <= n as usize,
            n < 16,
            x0 == vx % 64,
            y0 == vy % 32,
            fb.len() == 2048,
            mem.len() == 4096,
            fb0.len() == 2048,
            forall|k: int| 0 <= k < 2048 ==> #[trigger] fb0[k] <= 1,
            forall|idx: int|
                0 <= idx < 2048 ==> #[trigger] fb@[idx] == (if draw_covers(
                    vx,
                    vy,
                    r as u8,
                    idx % 64,
                    idx / 64,
                ) {
                    fb0[idx] ^ sprite_bit(mem@, i, vx, vy, idx % 64, idx / 64)
                } else {
                    fb0[idx]
                }),
            vf == 0 || vf == 1,
            vf == 1 ==> (exists|px: int, py2: int|
                draw_covers(vx, vy, r as u8, px, py2) && #[trigger] hit_at(
                    fb0,
                    mem@,
                    i,
                    vx,
                    vy,
                    px,
                    py2,
                )),
            vf == 0 ==> (forall|px: int, py2: int|
                draw_covers(vx, vy, r as u8, px, py2) ==> !#[trigger] hit_at(
                    fb0,
                    mem@,
                    i,
                    vx,
                    vy,
                    px,
                    py2,
                )),
        decreases n as int - r as int,
    {
        let py: usize = y0 + r;
        if py < 32 {
            let row: u8 = mem[(i as usize + r) % 4096];
            proof {
                assert(addr12(i, r as int) == (i as usize + r) % 4096);
            }
            let mut b: usize = 0;
            while b < 8
                invariant
                    b <= 8,
                    r < n as usize,
                    n < 16,
                    x0 == vx % 64,
                    y0 == vy % 32,
                    py == y0 + r,
                    py < 32,
                    fb.len() == 2048,
                    mem.len() == 4096,
                    fb0.len() == 2048,
                    row == mem@[addr12(i, r as int)],
                    forall|k: int| 0 <= k < 2048 ==> #[trigger] fb0[k] <= 1,
                    forall|idx: int|
                        0 <= idx < 2048 ==> #[trigger] fb@[idx] == (if draw_covers(
                            vx,
                            vy,
                            r as u8,
                            idx % 64,
                            idx / 64,
                        ) || (idx / 64 == py && x0 <= idx % 64 < x0 + b && idx % 64 < 64) {
                            fb0[idx] ^ sprite_bit(mem@, i, vx, vy, idx % 64, idx / 64)
                        } else {
                            fb0[idx]
                        }),
                    vf == 0 || vf == 1,
                    vf == 1 ==> (exists|px: int, py2: int|
                        (draw_covers(vx, vy, r as u8, px, py2) || (py2 == py && x0 <= px < x0 + b
                            && px < 64)) && #[trigger] hit_at(fb0, mem@, i, vx, vy, px, py2)),
                    vf == 0 ==> (forall|px: int, py2: int|
                        (draw_covers(vx, vy, r as u8, px, py2) || (py2 == py && x0 <= px < x0 + b
                            && px < 64)) ==> !#[trigger] hit_at(fb0, mem@, i, vx, vy, px, py2)),
                decreases 8 - b,
            {
                let px: usize = x0 + b;
                if px < 64 {
                    let sh: u8 = (7 - b) as u8;
                    let bit: u8 = (row >> sh) & 1;
                    proof {
                        assert((row >> sh) & 1 <= 1) by (bit_vector);
                        assert(bit == sprite_bit(mem@, i, vx, vy, px as int, py as int));
                    }
                    let idx: usize = py * 64 + px;
                    let cell: u8 = fb[idx];
                    proof {
                        assert(idx as int % 64 == px && idx as int / 64 == py);
                        assert(!draw_covers(vx, vy, r as u8, px as int, py as int));
                        assert(fb0[idx as int] == cell);
                        if cell == 1 && bit == 1 {
                            assert(hit_at(fb0, mem@, i, vx, vy, px as int, py as int));
                        } else {
                            assert(!hit_at(fb0, mem@, i, vx, vy, px as int, py as int));
                        }
                    }
                    if cell == 1 && bit == 1 {
                        vf = 1;
                    }
                    let nc: u8 = cell ^ bit;
                    proof {
                        assert(cell <= 1 && bit <= 1 ==> (cell ^ bit) <= 1) by (bit_vector);
                    }
                    fb.set(idx, nc);
                }
                b = b + 1;
            }
        }
        proof {
            assert(forall|px: int, py2: int|
                #![trigger draw_covers(vx, vy, (r + 1) as u8, px, py2)]
                #![trigger draw_covers(vx, vy, r as u8, px, py2)]
                draw_covers(vx, vy, (r + 1) as u8, px, py2) <==> (draw_covers(
                    vx,
                    vy,
                    r as u8,
                    px,
                    py2,
                ) || (py2 == y0 + r && y0 + r < 32 && x0 <= px < x0 + 8 && px < 64)));
        }
        r = r + 1;
    }
    proof {
        assert(forall|px: int, py2: int|
            #![trigger draw_covers(vx, vy, n, px, py2)]
            #![trigger draw_covers(vx, vy, r as u8, px, py2)]
            draw_covers(vx, vy, n, px, py2) <==> draw_covers(vx, vy, r as u8, px, py2));
        assert(fb@ =~= draw_fb(fb0, mem@, i, vx, vy, n));
        assert forall|k: int| 0 <= k < 2048 implies #[trigger] fb@[k] <= 1 by {
            if draw_covers(vx, vy, n, k % 64, k / 64) {
                lemma_sprite_bit_le(mem@, i, vx, vy, k % 64, k / 64);
                lemma_xor_le(fb0[k], sprite_bit(mem@, i, vx, vy, k % 64, k / 64));
            }
        }
    }
    vf
}

/// Store `v[0..=x]` into memory at `I..`, addresses masked to 12 bits.
fn store_span(mem: &mut Vec<u8>, v: &Vec<u8>, i: u16, x: u8)
    requires
        old(mem).len() == 4096,
        v.len() == 16,
        x < 16,
    ensures
        final(mem).len() == 4096,
        final(mem)@ == store_regs(old(mem)@, v@, i, x as int),
{
    let base: usize = i as usize;
    let mut k: usize = 0;
    while k <= x as usize
        invariant
            k <= x as usize + 1,
            x < 16,
            base == i as usize,
            mem.len() == 4096,
            v.len() == 16,
            mem@ == store_regs(old(mem)@, v@, i, k as int - 1),
        decreases x as int + 1 - k as int,
    {
        mem.set((base + k) % 4096, v[k]);
        proof {
            assert(addr12(i, k as int) == (base + k) % 4096);
            assert(store_regs(old(mem)@, v@, i, k as int) == store_regs(
                old(mem)@,
                v@,
                i,
                k as int - 1,
            ).update(addr12(i, k as int), v@[k as int]));
        }
        k = k + 1;
    }
}

/// Load `v[0..=x]` from memory at `I..`, addresses masked to 12 bits.
fn load_span(v: &mut Vec<u8>, mem: &Vec<u8>, i: u16, x: u8)
    requires
        old(v).len() == 16,
        mem.len() == 4096,
        x < 16,
    ensures
        final(v).len() == 16,
        final(v)@ == load_regs(old(v)@, mem@, i, x as int),
{
    let base: usize = i as usize;
    let mut k: usize = 0;
    while k <= x as usize
        invariant
            k <= x as usize + 1,
            x < 16,
            base == i as usize,
            v.len() == 16,
            mem.len() == 4096,
            v@ == load_regs(old(v)@, mem@, i, k as int - 1),
        decreases x as int + 1 - k as int,
    {
        v.set(k, mem[(base + k) % 4096]);
        proof {
            assert(addr12(i, k as int) == (base + k) % 4096);
            assert(load_regs(old(v)@, mem@, i, k as int) == load_regs(
                old(v)@,
                mem@,
                i,
                k as int - 1,
            ).update(k as int, mem@[addr12(i, k as int)]));
        }
        k = k + 1;
    }
}

impl Machine {
    /// The machine's invariant: its view is a well-formed state.
    pub open spec fn inv(&self) -> bool {
        wf(self@)
    }

    /// A freshly reset machine: memory zeroed with the font loaded at
    /// 0x050, registers and timers cleared, PC at 0x200, the random source
    /// seeded from `seed`.
    pub fn new(seed: u64) -> (m: Machine)
        ensures
            m.inv(),
            m@ == reset_st(),
    {
        let mut mem = zero_bytes(4096);
        let f = font_bytes();
        let mut k: usize = 0;
        while k < 80
            invariant
                k <= 80,
                mem.len() == 4096,
                f@ == spec_font(),
                f.len() == 80,
                forall|j: int|
                    0 <= j < 4096 && !(0x50 <= j < 0x50 + k) ==> #[trigger] mem@[j] == 0,
                forall|j: int| 0x50 <= j < 0x50 + k ==> #[trigger] mem@[j] == spec_font()[j - 0x50],
            decreases 80 - k,
        {
            mem.set(0x50 + k, f[k]);
            k = k + 1;
        }
        let v = zero_bytes(16);
        let fb = zero_bytes(2048);
        let mut stack: Vec<u16> = Vec::new();
        let mut j: usize = 0;
        while j < 16
            invariant
                j <= 16,
                stack.len() == j,
                forall|t: int| 0 <= t < j ==> #[trigger] stack@[t] == 0,
            decreases 16 - j,
        {
            stack.push(0);
            j = j + 1;
        }
        let mut keys: Vec<bool> = Vec::new();
        let mut j2: usize = 0;
        while j2 < 16
            invariant
                j2 <= 16,
                keys.len() == j2,
                forall|t: int| 0 <= t < j2 ==> #[trigger] keys@[t] == false,
            decreases 16 - j2,
        {
            keys.push(false);
            j2 = j2 + 1;
        }
        let m = Machine {
            mem,
            v,
            i: 0,
            pc: 0x200,
            stack,
            sp: 0,
            delay: 0,
            sound: 0,
            fb,
            keys,
            waiting: None,
            dirty: true,
            fault: None,
            ipf: 9,
            rng: rng_from_seed(seed),
        };
        proof {
            assert(m@.mem =~= reset_mem());
            assert(m@.v =~= reset_st().v);
            assert(m@.stack =~= reset_st().stack);
            assert(m@.fb =~= reset_st().fb);
            assert(m@.keys =~= reset_st().keys);
            assert(m@ =~= reset_st());
        }
        m
    }

    /// Copy a program image into memory at 0x200. Images longer than
    /// 3584 bytes do not fit and are rejected whole.
    pub fn load(&mut self, prog: &Vec<u8>) -> (r: Result<(), LoadError>)
        requires
            old(self).inv(),
        ensures
            final(self).inv(),
            prog.len() > 3584 ==> r == Result::<(), LoadError>::Err(LoadError::TooLarge) && final(self)@
                == old(self)@,
            prog.len() <= 3584 ==> r == Result::<(), LoadError>::Ok(()) && final(self)@ == (St {
                mem: load_mem(old(self)@.mem, prog@),
                ..old(self)@
            }),
    {
        if prog.len() > 3584 {
            return Err(LoadError::TooLarge);
        }
        let mut k: usize = 0;
        while k < prog.len()
            invariant
                k <= prog.len(),
                prog.len() <= 3584,
                self.mem.len() == 4096,
                forall|j: int|
                    0 <= j < 4096 && !(0x200 <= j < 0x200 + k) ==> #[trigger] self.mem@[j] == old(
                        self,
                    )@.mem[j],
                forall|j: int|
                    0x200 <= j < 0x200 + k ==> #[trigger] self.mem@[j] == prog@[j - 0x200],
                self.v == old(self).v,
                self.i == old(self).i,
                self.pc == old(self).pc,
                self.stack == old(self).stack,
                self.sp == old(self).sp,
                self.delay == old(self).delay,
                self.sound == old(self).sound,
                self.fb == old(self).fb,
                self.keys == old(self).keys,
                self.waiting == old(self).waiting,
                self.dirty == old(self).dirty,
                self.fault == old(self).fault,
                self.ipf == old(self).ipf,
            decreases prog.len() - k,
        {
            self.mem.set(0x200 + k, prog[k]);
            k = k + 1;
        }
        proof {
            assert(self.mem@ =~= load_mem(old(self)@.mem, prog@));
            assert(self@ =~= (St { mem: load_mem(old(self)@.mem, prog@), ..old(self)@ }));
        }
        Ok(())
    }

    /// Execute exactly one instruction (or one wait-latch poll). The new
    /// state is the step relation applied to the old one, for some byte of
    /// the pseudo-random source.
    pub fn step(&mut self)
        requires
            old(self).inv(),
        ensures
            final(self).inv(),
            exists|r: u8| final(self)@ == spec_step(old(self)@, r),
    {
        if self.fault.is_some() {
            proof {
                reveal(spec_step);
                assert(self@ == spec_step(old(self)@, 0u8));
            }
            return ;
        }
        if let Some(x) = self.waiting {
            match scan_key(&self.keys) {
                Some(key) => {
                    self.v.set(x as usize, key);
                    self.waiting = None;
                    self.pc = advance(self.pc);
                },
                None => {},
            }
            proof {
                reveal(spec_step);
                assert(self@ =~= spec_step(old(self)@, 0u8));
            }
            return ;
        }
        let hi: u8 = self.mem[self.pc as usize];
        let lo: u8 = self.mem[self.pc as usize + 1];
        let op: u16 = ((hi as u16) << 8) | (lo as u16);
        proof {
            assert(op == fetch(old(self)@));
            lemma_decode_wf(op);
        }
        match decode(op) {
            None => {
                self.fault = Some(Fault { kind: FaultKind::UnknownOpcode, pc: self.pc });
                proof {
                    reveal(spec_step);
                    assert(self@ =~= with_fault(old(self)@, FaultKind::UnknownOpcode));
                    assert(self@ == spec_step(old(self)@, 0u8));
                }
            },
            Some(ins) => {
                self.exec_instr(ins);
                proof {
                    reveal(spec_step);
                    let r = choose|r: u8| self@ == step_instr(old(self)@, ins, r);
                    assert(self@ == spec_step(old(self)@, r));
                }
            },
        }
    }

    /// Perform one decoded instruction on a running machine.
    fn exec_instr(&mut self, ins: Instr)
        requires
            old(self).inv(),
            old(self)@.fault is None,
            old(self)@.waiting is None,
            instr_wf(ins),
        ensures
            final(self).inv(),
            exists|r: u8| final(self)@ == step_instr(old(self)@, ins, r),
    {
        match ins {
            Instr::Cls | Instr::Ret | Instr::Sys { .. } | Instr::Jp { .. } | Instr::Call {
                ..
            } => self.exec_flow(ins),
            Instr::SeImm { .. } | Instr::SneImm { .. } | Instr::SeReg { .. } | Instr::SneReg {
                ..
            } | Instr::Skp { .. } | Instr::Sknp { .. } => self.exec_skip(ins),
            Instr::LdImm { .. } | Instr::AddImm { .. } | Instr::Mov { .. } | Instr::Or { .. }
                | Instr::And { .. } | Instr::Xor { .. } | Instr::Add { .. } | Instr::Sub { .. }
                | Instr::Shr { .. } | Instr::SubN { .. } | Instr::Shl { .. } => self.exec_alu(ins),
            Instr::LdI { .. } | Instr::JpV0 { .. } | Instr::Rnd { .. } | Instr::LdFromDt { .. }
                | Instr::WaitKey { .. } | Instr::LdDt { .. } | Instr::LdSt { .. } | Instr::AddI {
                ..
            } | Instr::LdFont { .. } => self.exec_misc(ins),
            Instr::Drw { .. } | Instr::Bcd { .. } | Instr::StoreRegs { .. } | Instr::LoadRegs {
                ..
            } => self.exec_mem(ins),
        }
    }

    /// Control flow: clear, return, the ignored machine call, jump, call.
    fn exec_flow(&mut self, ins: Instr)
        requires
            old(self).inv(),
            old(self)@.fault is None,
            old(self)@.waiting is None,
            instr_wf(ins),
            ins is Cls || ins is Ret || ins is Sys || ins is Jp || ins is Call,
        ensures
            final(self).inv(),
            exists|r: u8| final(self)@ == step_instr(old(self)@, ins, r),
    {
        match ins {
            Instr::Cls => {
                self.fb = zero_bytes(2048);
                self.dirty = true;
                self.pc = advance(self.pc);
                proof {
                    assert(self.fb@ =~= Seq::new(2048, |idx: int| 0u8));
                    assert(self@ =~= step_instr(old(self)@, ins, 0u8));
                }
            },
            Instr::Ret => {
                if self.sp == 0 {
                    self.fault = Some(Fault { kind: FaultKind::StackUnderflow, pc: self.pc });
                } else {
                    self.sp = self.sp - 1;
                    self.pc = self.stack[self.sp] & 0x0FFE;
                    proof {
                        lemma_pc_mask(old(self)@.stack[old(self)@.sp - 1]);
                    }
                }
                proof {
                    assert(self@ =~= step_instr(old(self)@, ins, 0u8));
                }
            },
            Instr::Sys { nnn: _ } => {
                self.pc = advance(self.pc);
                proof {
                    assert(self@ =~= step_instr(old(self)@, ins, 0u8));
                }
            },
            Instr::Jp { nnn } => {
                self.pc = nnn & 0x0FFE;
                proof {
                    lemma_pc_mask(nnn);
                    assert(self@ =~= step_instr(old(self)@, ins, 0u8));
                }
            },
            Instr::Call { nnn } => {
                if self.sp >= 16 {
                    self.fault = Some(Fault { kind: FaultKind::StackOverflow, pc: self.pc });
                } else {
                    let ret = advance(self.pc);
                    self.stack.set(self.sp, ret);
                    self.sp = self.sp + 1;
                    self.pc = nnn & 0x0FFE;
                    proof {
                        lemma_pc_mask(nnn);
                    }
                }
                proof {
                    assert(self@ =~= step_instr(old(self)@, ins, 0u8));
                }
            },
            _ => {
                proof {
                    assert(false);
                }
            },
        }
    }

    /// The conditional skips on immediates, registers and keys.
    fn exec_skip(&mut self, ins: Instr)
        requires
            old(self).inv(),
            old(self)@.fault is None,
            old(self)@.waiting is None,
            instr_wf(ins),
            ins is SeImm || ins is SneImm || ins is SeReg || ins is SneReg || ins is Skp || ins is Sknp,
        ensures
            final(self).inv(),
            exists|r: u8| final(self)@ == step_instr(old(self)@, ins, r),
    {
        match ins {
            Instr::SeImm { x, kk } => {
                if self.v[x as usize] == kk {
                    self.pc = advance_skip(self.pc);
                } else {
                    self.pc = advance(self.pc);
                }
                proof {
                    assert(self@ =~= step_instr(old(self)@, ins, 0u8));
                }
            },
            Instr::SneImm { x, kk } => {
                if self.v[x as usize] != kk {
                    self.pc = advance_skip(self.pc);
                } else {
                    self.pc = advance(self.pc);
                }
                proof {
                    assert(self@ =~= step_instr(old(self)@, ins, 0u8));
                }
            },
            Instr::SeReg { x, y } => {
                if self.v[x as usize] == self.v[y as usize] {
                    self.pc = advance_skip(self.pc);
                } else {
                    self.pc = advance(self.pc);
                }
                proof {
                    assert(self@ =~= step_instr(old(self)@, ins, 0u8));
                }
            },
            Instr::SneReg { x, y } => {
                if self.v[x as usize] != self.v[y as usize] {
                    self.pc = advance_skip(self.pc);
                } else {
                    self.pc = advance(self.pc);
                }
                proof {
                    assert(self@ =~= step_instr(old(self)@, ins, 0u8));
                }
            },
            Instr::Skp { x } => {
                let vxv: u8 = self.v[x as usize];
                let key: u8 = vxv & 0xF;
                proof {
                    assert(vxv & 0xF < 16) by (bit_vector);
                }
                if self.keys[key as usize] {
                    self.pc = advance_skip(self.pc);
                } else {
                    self.pc = advance(self.pc);
                }
                proof {
                    assert(self@ =~= step_instr(old(self)@, ins, 0u8));
                }
            },
            Instr::Sknp { x } => {
                let vxv: u8 = self.v[x as usize];
                let key: u8 = vxv & 0xF;
                proof {
                    assert(vxv & 0xF < 16) by (bit_vector);
                }
                if !self.keys[key as usize] {
                    self.pc = advance_skip(self.pc);
                } else {
                    self.pc = advance(self.pc);
                }
                proof {
                    assert(self@ =~= step_instr(old(self)@, ins, 0u8));
                }
            },
            _ => {
                proof {
                    assert(false);
                }
            },
        }
    }

    /// Register loads and the arithmetic, bitwise and shift operations.
    fn exec_alu(&mut self, ins: Instr)
        requires
            old(self).inv(),
            old(self)@.fault is None,
            old(self)@.waiting is None,
            instr_wf(ins),
            ins is LdImm || ins is AddImm || ins is Mov || ins is Or || ins is And || ins is Xor || ins is Add || ins is Sub || ins is Shr || ins is SubN || ins is Shl,
        ensures
            final(self).inv(),
            exists|r: u8| final(self)@ == step_instr(old(self)@, ins, r),
    {
        match ins {
            Instr::LdImm { x, kk } => {
                self.v.set(x as usize, kk);
                self.pc = advance(self.pc);
                proof {
                    assert(self@ =~= step_instr(old(self)@, ins, 0u8));
                }
            },
            Instr::AddImm { x, kk } => {
                let a = self.v[x as usize];
                let sum: u16 = a as u16 + kk as u16;
                self.v.set(x as usize, (sum % 256) as u8);
                self.pc = advance(self.pc);
                proof {
                    assert((sum % 256) as u8 == add8(a, kk));
                    assert(self@ =~= step_instr(old(self)@, ins, 0u8));
                }
            },
            Instr::Mov { x, y } => {
                let b = self.v[y as usize];
                self.v.set(x as usize, b);
                self.pc = advance(self.pc);
                proof {
                    assert(self@ =~= step_instr(old(self)@, ins, 0u8));
                }
            },
            Instr::Or { x, y } => {
                let a = self.v[x as usize];
                let b = self.v[y as usize];
                self.v.set(x as usize, a | b);
                self.pc = advance(self.pc);
                proof {
                    assert(self@ =~= step_instr(old(self)@, ins, 0u8));
                }
            },
            Instr::And { x, y } => {
                let a = self.v[x as usize];
                let b = self.v[y as usize];
                self.v.set(x as usize, a & b);
                self.pc = advance(self.pc);
                proof {
                    assert(self@ =~= step_instr(old(self)@, ins, 0u8));
                }
            },
            Instr::Xor { x, y } => {
                let a = self.v[x as usize];
                let b = self.v[y as usize];
                self.v.set(x as usize, a ^ b);
                self.pc = advance(self.pc);
                proof {
                    assert(self@ =~= step_instr(old(self)@, ins, 0u8));
                }
            },
            Instr::Add { x, y } => {
                let a = self.v[x as usize];
                let b = self.v[y as usize];
                let sum: u16 = a as u16 + b as u16;
                self.v.set(x as usize, (sum % 256) as u8);
                self.v.set(15, if sum > 255 { 1 } else { 0 });
                self.pc = advance(self.pc);
                proof {
                    assert((sum % 256) as u8 == add8(a, b));
                    assert(self@ =~= step_instr(old(self)@, ins, 0u8));
                }
            },
            Instr::Sub { x, y } => {
                let a = self.v[x as usize];
                let b = self.v[y as usize];
                let res: u8 = if a >= b {
                    a - b
                } else {
                    ((a as u16 + 256) - b as u16) as u8
                };
                self.v.set(x as usize, res);
                self.v.set(15, if a >= b { 1 } else { 0 });
                self.pc = advance(self.pc);
                proof {
                    assert(res == sub8(a, b));
                    assert(self@ =~= step_instr(old(self)@, ins, 0u8));
                }
            },
            Instr::Shr { x } => {
                let a = self.v[x as usize];
                self.v.set(x as usize, a >> 1u8);
                self.v.set(15, a & 1);
                self.pc = advance(self.pc);
                proof {
                    assert(self@ =~= step_instr(old(self)@, ins, 0u8));
                }
            },
            Instr::SubN { x, y } => {
                let a = self.v[x as usize];
                let b = self.v[y as usize];
                let res: u8 = if b >= a {
                    b - a
                } else {
                    ((b as u16 + 256) - a as u16) as u8
                };
                self.v.set(x as usize, res);
                self.v.set(15, if b >= a { 1 } else { 0 });
                self.pc = advance(self.pc);
                proof {
                    assert(res == sub8(b, a));
                    assert(self@ =~= step_instr(old(self)@, ins, 0u8));
                }
            },
            Instr::Shl { x } => {
                let a = self.v[x as usize];
                self.v.set(x as usize, a << 1u8);
                self.v.set(15, (a >> 7u8) & 1);
                self.pc = advance(self.pc);
                proof {
                    assert(self@ =~= step_instr(old(self)@, ins, 0u8));
                }
            },
            _ => {
                proof {
                    assert(false);
                }
            },
        }
    }

    /// I and timer transfers, the random byte, the font pointer, key wait.
    fn exec_misc(&mut self, ins: Instr)
        requires
            old(self).inv(),
            old(self)@.fault is None,
            old(self)@.waiting is None,
            instr_wf(ins),
            ins is LdI || ins is JpV0 || ins is Rnd || ins is LdFromDt || ins is WaitKey || ins is LdDt || ins is LdSt || ins is AddI || ins is LdFont,
        ensures
            final(self).inv(),
            exists|r: u8| final(self)@ == step_instr(old(self)@, ins, r),
    {
        match ins {
            Instr::LdI { nnn } => {
                self.i = nnn;
                self.pc = advance(self.pc);
                proof {
                    assert(self@ =~= step_instr(old(self)@, ins, 0u8));
                }
            },
            Instr::JpV0 { nnn } => {
                let t: u16 = nnn + self.v[0] as u16;
                self.pc = t & 0x0FFE;
                proof {
                    lemma_pc_mask(t);
                    assert(self@ =~= step_instr(old(self)@, ins, 0u8));
                }
            },
            Instr::Rnd { x, kk } => {
                let rb = rng_next_byte(&mut self.rng);
                self.v.set(x as usize, rb & kk);
                self.pc = advance(self.pc);
                proof {
                    assert(self@ =~= step_instr(old(self)@, ins, rb));
                }
            },
            Instr::LdFromDt { x } => {
                let d = self.delay;
                self.v.set(x as usize, d);
                self.pc = advance(self.pc);
                proof {
                    assert(self@ =~= step_instr(old(self)@, ins, 0u8));
                }
            },
            Instr::WaitKey { x } => {
                self.waiting = Some(x);
                proof {
                    assert(self@ =~= step_instr(old(self)@, ins, 0u8));
                }
            },
            Instr::LdDt { x } => {
                self.delay = self.v[x as usize];
                self.pc = advance(self.pc);
                proof {
                    assert(self@ =~= step_instr(old(self)@, ins, 0u8));
                }
            },
            Instr::LdSt { x } => {
                self.sound = self.v[x as usize];
                self.pc = advance(self.pc);
                proof {
                    assert(self@ =~= step_instr(old(self)@, ins, 0u8));
                }
            },
            Instr::AddI { x } => {
                let ni: u32 = self.i as u32 + self.v[x as usize] as u32;
                self.i = (ni % 0x10000) as u16;
                self.pc = advance(self.pc);
                proof {
                    assert(self@ =~= step_instr(old(self)@, ins, 0u8));
                }
            },
            Instr::LdFont { x } => {
                let vxv: u8 = self.v[x as usize];
                let g: u8 = vxv & 0xF;
                proof {
                    assert(vxv & 0xF < 16) by (bit_vector);
                }
                self.i = 0x50 + 5 * (g as u16);
                self.pc = advance(self.pc);
                proof {
                    assert(self@ =~= step_instr(old(self)@, ins, 0u8));
                }
            },
            _ => {
                proof {
                    assert(false);
                }
            },
        }
    }

    /// The memory-traffic instructions: sprite draw, BCD, register store and load.
    fn exec_mem(&mut self, ins: Instr)
        requires
            old(self).inv(),
            old(self)@.fault is None,
            old(self)@.waiting is None,
            instr_wf(ins),
            ins is Drw || ins is Bcd || ins is StoreRegs || ins is LoadRegs,
        ensures
            final(self).inv(),
            exists|r: u8| final(self)@ == step_instr(old(self)@, ins, r),
    {
        match ins {
            Instr::Drw { x, y, n } => {
                let vx = self.v[x as usize];
                let vy = self.v[y as usize];
                let vf = draw_sprite(&mut self.fb, &self.mem, self.i, vx, vy, n);
                self.v.set(15, vf);
                self.dirty = true;
                self.pc = advance(self.pc);
                proof {
                    assert(self@ =~= step_instr(old(self)@, ins, 0u8));
                }
            },
            Instr::Bcd { x } => {
                let val = self.v[x as usize];
                let base: usize = self.i as usize;
                self.mem.set(base % 4096, val / 100);
                self.mem.set((base + 1) % 4096, (val / 10) % 10);
                self.mem.set((base + 2) % 4096, val % 10);
                self.pc = advance(self.pc);
                proof {
                    assert(addr12(old(self)@.i, 0) == base % 4096);
                    assert(addr12(old(self)@.i, 1) == (base + 1) % 4096);
                    assert(addr12(old(self)@.i, 2) == (base + 2) % 4096);
                    assert(self@ =~= step_instr(old(self)@, ins, 0u8));
                }
            },
            Instr::StoreRegs { x } => {
                store_span(&mut self.mem, &self.v, self.i, x);
                self.pc = advance(self.pc);
                proof {
                    assert(self@ =~= step_instr(old(self)@, ins, 0u8));
                }
            },
            Instr::LoadRegs { x } => {
                load_span(&mut self.v, &self.mem, self.i, x);
                self.pc = advance(self.pc);
                proof {
                    assert(self@ =~= step_instr(old(self)@, ins, 0u8));
                }
            },
            _ => {
                proof {
                    assert(false);
                }
            },
        }
    }

    /// Advance one 60 Hz frame: run the configured number of instructions,
    /// then bring each non-zero timer down by one.
    pub fn tick(&mut self)
        requires
            old(self).inv(),
        ensures
            final(self).inv(),
            exists|mid: St|
                steps_rel(old(self)@, mid, old(self)@.ipf as int) && final(self)@ == tick_timers(mid),
    {
        let n = self.ipf;
        let ghost s0 = self@;
        proof {
            lemma_steps_zero(s0);
        }
        let mut c: u16 = 0;
        while c < n
            invariant
                c <= n,
                self.inv(),
                steps_rel(s0, self@, c as int),
            decreases n - c,
        {
            let ghost pre = self@;
            self.step();
            proof {
                let r = choose|r: u8| self@ == spec_step(pre, r);
                lemma_steps_snoc(s0, pre, self@, c as int, r);
            }
            c = c + 1;
        }
        let ghost mid = self@;
        if self.delay > 0 {
            self.delay = self.delay - 1;
        }
        if self.sound > 0 {
            self.sound = self.sound - 1;
        }
        proof {
            assert(self@ =~= tick_timers(mid));
        }
    }

    /// Mark key `key` (0..15) as pressed.
    pub fn press(&mut self, key: u8)
        requires
            old(self).inv(),
            key < 16,
        ensures
            final(self).inv(),
            final(self)@ == (St { keys: old(self)@.keys.update(key as int, true), ..old(self)@ }),
    {
        self.keys.set(key as usize, true);
        proof {
            assert(self@ =~= (St { keys: old(self)@.keys.update(key as int, true), ..old(self)@ }));
        }
    }

    /// Mark key `key` (0..15) as released.
    pub fn release(&mut self, key: u8)
        requires
            old(self).inv(),
            key < 16,
        ensures
            final(self).inv(),
            final(self)@ == (St { keys: old(self)@.keys.update(key as int, false), ..old(self)@ }),
    {
        self.keys.set(key as usize, false);
        proof {
            assert(self@ =~= (St {
                keys: old(self)@.keys.update(key as int, false),
                ..old(self)@
            }));
        }
    }

    /// The 64x32 framebuffer, row-major: cell `(x, y)` is at `y * 64 + x`.
    pub fn framebuffer(&self) -> (r: &Vec<u8>)
        ensures
            r@ == self@.fb,
    {
        &self.fb
    }

    /// Whether the framebuffer changed since the last call; clears the flag.
    pub fn consume_dirty(&mut self) -> (d: bool)
        requires
            old(self).inv(),
        ensures
            final(self).inv(),
            d == old(self)@.dirty,
            final(self)@ == (St { dirty: false, ..old(self)@ }),
    {
        let d = self.dirty;
        self.dirty = false;
        proof {
            assert(self@ =~= (St { dirty: false, ..old(self)@ }));
        }
        d
    }

    /// Audio is on exactly while the sound timer is non-zero.
    pub fn sound_active(&self) -> (b: bool)
        ensures
            b == (self@.sound > 0),
    {
        self.sound > 0
    }

    /// Set how many instructions one `tick` executes.
    pub fn set_instructions_per_frame(&mut self, n: u16)
        requires
            old(self).inv(),
        ensures
            final(self).inv(),
            final(self)@ == (St { ipf: n, ..old(self)@ }),
    {
        self.ipf = n;
        proof {
            assert(self@ =~= (St { ipf: n, ..old(self)@ }));
        }
    }

    /// Register `Vx`.
    pub fn reg(&self, x: u8) -> (r: u8)
        requires
            self.inv(),
            x < 16,
        ensures
            r == self@.v[x as int],
    {
        self.v[x as usize]
    }

    /// The program counter.
    pub fn pc(&self) -> (r: u16)
        ensures
            r == self@.pc,
    {
        self.pc
    }

    /// The stack index: how many return addresses are on the stack.
    pub fn sp(&self) -> (r: usize)
        ensures
            r as int == self@.sp,
    {
        self.sp
    }

    /// The address register I.
    pub fn index_reg(&self) -> (r: u16)
        ensures
            r == self@.i,
    {
        self.i
    }

    /// The delay timer.
    pub fn delay_timer(&self) -> (r: u8)
        ensures
            r == self@.delay,
    {
        self.delay
    }

    /// The sound timer.
    pub fn sound_timer(&self) -> (r: u8)
        ensures
            r == self@.sound,
    {
        self.sound
    }

    /// The byte at memory address `addr`.
    pub fn mem_at(&self, addr: u16) -> (r: u8)
        requires
            self.inv(),
            addr < 4096,
        ensures
            r == self@.mem[addr as int],
    {
        self.mem[addr as usize]
    }

    /// The fault that halted the machine, if any, with its program counter.
    pub fn fault(&self) -> (r: Option<Fault>)
        ensures
            r == self@.fault,
    {
        self.fault
    }
}

} // verus!
