use vstd::prelude::*;

use crate::decode::Instr;
use crate::decode::instr_wf;
use crate::decode::lemma_decode_wf;
use crate::decode::spec_decode;
use crate::sem::St;
use crate::sem::addr12;
use crate::sem::draw_covers;
use crate::sem::draw_fb;
use crate::sem::draw_hit;
use crate::sem::fetch;
use crate::sem::hit_at;
use crate::sem::load_mem;
use crate::sem::load_regs;
use crate::sem::lemma_sprite_bit_le;
use crate::sem::lemma_xor_le;
use crate::sem::next_pc;
use crate::sem::pc_mask;
use crate::sem::run_steps;
use crate::sem::spec_step;
use crate::sem::sprite_bit;
use crate::sem::step_instr;
use crate::sem::store_regs;
use crate::sem::wf;

verus! {

/// Clearing the screen is idempotent: the framebuffer a `00E0` leaves
/// behind does not depend on the framebuffer it found, so clearing twice
/// equals clearing once.
pub proof fn lemma_clear_idempotent(s: St, t: St, r1: u8, r2: u8)
    requires
        t == step_instr(s, Instr::Cls, r1),
    ensures
        step_instr(t, Instr::Cls, r2).fb == t.fb,
{
    assert(step_instr(t, Instr::Cls, r2).fb =~= t.fb);
}

/// The bitwise register operations `8xy1`, `8xy2`, `8xy3` are commutative
/// in their register operands.
pub proof fn lemma_bitops_commute(a: u8, b: u8)
    by (bit_vector)
    ensures
        (a | b) == (b | a),
        (a & b) == (b & a),
        (a ^ b) == (b ^ a),
{
}

/// `Vx |= Vx` and `Vx &= Vx` are no-ops: the whole register file is
/// unchanged (only the program counter advances). `Vx ^= Vx` is not a
/// no-op; it clears the register.
pub proof fn lemma_bitops_self(s: St, x: u8, r: u8)
    requires
        wf(s),
        x < 16,
    ensures
        step_instr(s, Instr::Or { x, y: x }, r).v == s.v,
        step_instr(s, Instr::And { x, y: x }, r).v == s.v,
        step_instr(s, Instr::Xor { x, y: x }, r).v == s.v.update(x as int, 0u8),
{
    let a = s.v[x as int];
    assert((a | a) == a && (a & a) == a && (a ^ a) == 0) by (bit_vector);
    assert(step_instr(s, Instr::Or { x, y: x }, r).v =~= s.v);
    assert(step_instr(s, Instr::And { x, y: x }, r).v =~= s.v);
    assert(step_instr(s, Instr::Xor { x, y: x }, r).v =~= s.v.update(x as int, 0u8));
}

/// Both masked program-counter facts at once, for every argument: the
/// result stays within 0x000..=0xFFE and is even.
proof fn lemma_pc_mask_all()
    by (bit_vector)
    ensures
        forall|a: u16| #[trigger] pc_mask(a) <= 0xFFE,
        forall|a: u16| #[trigger] pc_mask(a) % 2 == 0,
{
}

/// Loading registers back changes how many there are not at all.
proof fn lemma_load_regs_len(v: Seq<u8>, mem: Seq<u8>, i: u16, x: int)
    requires
        x < v.len(),
    ensures
        load_regs(v, mem, i, x).len() == v.len(),
    decreases x + 1,
{
    if x >= 0 {
        lemma_load_regs_len(v, mem, i, x - 1);
        assert(load_regs(v, mem, i, x) == load_regs(v, mem, i, x - 1).update(
            x,
            mem[addr12(i, x)],
        ));
    }
}

proof fn lemma_flow_wf(s: St, ins: Instr, r: u8)
    requires
        wf(s),
        instr_wf(ins),
        ins is Cls || ins is Ret || ins is Sys || ins is Jp || ins is Call,
    ensures
        wf(step_instr(s, ins, r)),
{
    lemma_pc_mask_all();
    match ins {
        Instr::Cls => {
            assert(wf(step_instr(s, ins, r)));
        },
        Instr::Ret => {
            assert(wf(step_instr(s, ins, r)));
        },
        Instr::Sys { nnn: _ } => {
            assert(wf(step_instr(s, ins, r)));
        },
        Instr::Jp { nnn: _ } => {
            assert(wf(step_instr(s, ins, r)));
        },
        Instr::Call { nnn: _ } => {
            assert(wf(step_instr(s, ins, r)));
        },
        _ => {
            assert(false);
        },
    }
}

proof fn lemma_skip_wf(s: St, ins: Instr, r: u8)
    requires
        wf(s),
        instr_wf(ins),
        ins is SeImm || ins is SneImm || ins is SeReg || ins is SneReg || ins is Skp || ins is Sknp,
    ensures
        wf(step_instr(s, ins, r)),
{
    lemma_pc_mask_all();
    match ins {
        Instr::SeImm { x: _, kk: _ } => {
            assert(wf(step_instr(s, ins, r)));
        },
        Instr::SneImm { x: _, kk: _ } => {
            assert(wf(step_instr(s, ins, r)));
        },
        Instr::SeReg { x: _, y: _ } => {
            assert(wf(step_instr(s, ins, r)));
        },
        Instr::SneReg { x: _, y: _ } => {
            assert(wf(step_instr(s, ins, r)));
        },
        Instr::Skp { x: _ } => {
            assert(wf(step_instr(s, ins, r)));
        },
        Instr::Sknp { x: _ } => {
            assert(wf(step_instr(s, ins, r)));
        },
        _ => {
            assert(false);
        },
    }
}

proof fn lemma_alu_wf(s: St, ins: Instr, r: u8)
    requires
        wf(s),
        instr_wf(ins),
        ins is LdImm || ins is AddImm || ins is Mov || ins is Or || ins is And || ins is Xor || ins is Add || ins is Sub || ins is Shr || ins is SubN || ins is Shl,
    ensures
        wf(step_instr(s, ins, r)),
{
    lemma_pc_mask_all();
    match ins {
        Instr::LdImm { x: _, kk: _ } => {
            assert(wf(step_instr(s, ins, r)));
        },
        Instr::AddImm { x: _, kk: _ } => {
            assert(wf(step_instr(s, ins, r)));
        },
        Instr::Mov { x: _, y: _ } => {
            assert(wf(step_instr(s, ins, r)));
        },
        Instr::Or { x: _, y: _ } => {
            assert(wf(step_instr(s, ins, r)));
        },
        Instr::And { x: _, y: _ } => {
            assert(wf(step_instr(s, ins, r)));
        },
        Instr::Xor { x: _, y: _ } => {
            assert(wf(step_instr(s, ins, r)));
        },
        Instr::Add { x: _, y: _ } => {
            assert(wf(step_instr(s, ins, r)));
        },
        Instr::Sub { x: _, y: _ } => {
            assert(wf(step_instr(s, ins, r)));
        },
        Instr::Shr { x: _ } => {
            assert(wf(step_instr(s, ins, r)));
        },
        Instr::SubN { x: _, y: _ } => {
            assert(wf(step_instr(s, ins, r)));
        },
        Instr::Shl { x: _ } => {
            assert(wf(step_instr(s, ins, r)));
        },
        _ => {
            assert(false);
        },
    }
}

proof fn lemma_misc_wf(s: St, ins: Instr, r: u8)
    requires
        wf(s),
        instr_wf(ins),
        ins is LdI || ins is JpV0 || ins is Rnd || ins is LdFromDt || ins is WaitKey || ins is LdDt || ins is LdSt || ins is AddI || ins is LdFont,
    ensures
        wf(step_instr(s, ins, r)),
{
    lemma_pc_mask_all();
    match ins {
        Instr::LdI { nnn: _ } => {
            assert(wf(step_instr(s, ins, r)));
        },
        Instr::JpV0 { nnn: _ } => {
            assert(wf(step_instr(s, ins, r)));
        },
        Instr::Rnd { x: _, kk: _ } => {
            assert(wf(step_instr(s, ins, r)));
        },
        Instr::LdFromDt { x: _ } => {
            assert(wf(step_instr(s, ins, r)));
        },
        Instr::WaitKey { x: _ } => {
            assert(wf(step_instr(s, ins, r)));
        },
        Instr::LdDt { x: _ } => {
            assert(wf(step_instr(s, ins, r)));
        },
        Instr::LdSt { x: _ } => {
            assert(wf(step_instr(s, ins, r)));
        },
        Instr::AddI { x: _ } => {
            assert(wf(step_instr(s, ins, r)));
        },
        Instr::LdFont { x: _ } => {
            assert(wf(step_instr(s, ins, r)));
        },
        _ => {
            assert(false);
        },
    }
}

proof fn lemma_mem_wf(s: St, ins: Instr, r: u8)
    requires
        wf(s),
        instr_wf(ins),
        ins is Drw || ins is Bcd || ins is StoreRegs || ins is LoadRegs,
    ensures
        wf(step_instr(s, ins, r)),
{
    lemma_pc_mask_all();
    match ins {
        Instr::Drw { x, y, n } => {
            let vx = s.v[x as int];
            let vy = s.v[y as int];
            let out = draw_fb(s.fb, s.mem, s.i, vx, vy, n);
            assert forall|k: int| 0 <= k < 2048 implies #[trigger] out[k] <= 1 by {
                if draw_covers(vx, vy, n, k % 64, k / 64) {
                    lemma_sprite_bit_le(s.mem, s.i, vx, vy, k % 64, k / 64);
                    lemma_xor_le(s.fb[k], sprite_bit(s.mem, s.i, vx, vy, k % 64, k / 64));
                }
            }
            assert(wf(step_instr(s, ins, r)));
        },
        Instr::Bcd { x: _ } => {
            assert(wf(step_instr(s, ins, r)));
        },
        Instr::StoreRegs { x } => {
            lemma_store_regs_len(s.mem, s.v, s.i, x as int);
            assert(wf(step_instr(s, ins, r)));
        },
        Instr::LoadRegs { x } => {
            lemma_load_regs_len(s.v, s.mem, s.i, x as int);
            assert(wf(step_instr(s, ins, r)));
        },
        _ => {
            assert(false);
        },
    }
}

/// Every single instruction keeps the state well-formed: the stack index
/// stays within 0..=16, the program counter stays even and within the
/// address space, and every framebuffer cell stays 0 or 1.
pub proof fn lemma_instr_preserves_wf(s: St, ins: Instr, r: u8)
    requires
        wf(s),
        instr_wf(ins),
    ensures
        wf(step_instr(s, ins, r)),
{
    match ins {
        Instr::Cls | Instr::Ret | Instr::Sys { .. } | Instr::Jp { .. } | Instr::Call { .. } => {
            lemma_flow_wf(s, ins, r);
        },
        Instr::SeImm { .. } | Instr::SneImm { .. } | Instr::SeReg { .. } | Instr::SneReg {
            ..
        } | Instr::Skp { .. } | Instr::Sknp { .. } => {
            lemma_skip_wf(s, ins, r);
        },
        Instr::LdImm { .. } | Instr::AddImm { .. } | Instr::Mov { .. } | Instr::Or { .. }
            | Instr::And { .. } | Instr::Xor { .. } | Instr::Add { .. } | Instr::Sub { .. }
            | Instr::Shr { .. } | Instr::SubN { .. } | Instr::Shl { .. } => {
            lemma_alu_wf(s, ins, r);
        },
        Instr::LdI { .. } | Instr::JpV0 { .. } | Instr::Rnd { .. } | Instr::LdFromDt { .. }
            | Instr::WaitKey { .. } | Instr::LdDt { .. } | Instr::LdSt { .. } | Instr::AddI {
            ..
        } | Instr::LdFont { .. } => {
            lemma_misc_wf(s, ins, r);
        },
        Instr::Drw { .. } | Instr::Bcd { .. } | Instr::StoreRegs { .. } | Instr::LoadRegs {
            ..
        } => {
            lemma_mem_wf(s, ins, r);
        },
    }
}

/// One step from a well-formed state — whatever the pseudo-random source
/// produced — lands in a well-formed state.
pub proof fn lemma_step_preserves_wf(s: St, r: u8)
    requires
        wf(s),
    ensures
        wf(spec_step(s, r)),
{
    reveal(spec_step);
    lemma_pc_mask_all();
    match s.fault {
        Some(_) => {},
        None => match s.waiting {
            Some(_) => {},
            None => {
                let op = fetch(s);
                lemma_decode_wf(op);
                match spec_decode(op) {
                    None => {},
                    Some(ins) => {
                        lemma_instr_preserves_wf(s, ins, r);
                    },
                }
            },
        },
    }
}

/// Every state reachable from a well-formed state is well-formed. With
/// reset well-formed, this is the machine's global invariant: the stack
/// index is within 0..=16, the program counter is even and at most 0xFFE,
/// and every framebuffer cell is 0 or 1, in every reachable state.
pub proof fn lemma_run_preserves_wf(a: St, rs: Seq<u8>)
    requires
        wf(a),
    ensures
        wf(run_steps(a, rs)),
    decreases rs.len(),
{
    if rs.len() > 0 {
        lemma_step_preserves_wf(a, rs[0]);
        lemma_run_preserves_wf(spec_step(a, rs[0]), rs.subrange(1, rs.len() as int));
    }
}

/// Whether an instruction writes memory. Only the program's own `Fx33` and
/// `Fx55` do.
pub open spec fn writes_mem(ins: Instr) -> bool {
    match ins {
        Instr::Bcd { x: _ } => true,
        Instr::StoreRegs { x: _ } => true,
        _ => false,
    }
}

/// The core itself never touches memory: a step whose instruction is not a
/// memory store (`Fx33`, `Fx55`) leaves all of memory — the font table at
/// 0x050..0x09F included — exactly as it was.
pub proof fn lemma_step_preserves_mem(s: St, r: u8)
    requires
        wf(s),
        (match spec_decode(fetch(s)) {
            Some(ins) => !writes_mem(ins),
            None => true,
        }),
    ensures
        spec_step(s, r).mem == s.mem,
{
    reveal(spec_step);
}

/// Loading a program image touches only addresses from 0x200 up: the
/// reserved area and the font table are left as they were.
pub proof fn lemma_load_preserves_font(mem: Seq<u8>, p: Seq<u8>)
    requires
        mem.len() == 4096,
    ensures
        forall|a: int| 0 <= a < 0x200 ==> load_mem(mem, p)[a] == mem[a],
{
}

/// After any arithmetic instruction that writes the flag register —
/// `8xy4`, `8xy5`, `8xy6`, `8xy7`, `8xyE` — VF is 0 or 1, whatever `x`
/// was; the flag wins even when `Vx` aliases VF.
pub proof fn lemma_arith_flag(s: St, ins: Instr, r: u8)
    requires
        wf(s),
        (match ins {
            Instr::Add { x, y } => x < 16 && y < 16,
            Instr::Sub { x, y } => x < 16 && y < 16,
            Instr::Shr { x } => x < 16,
            Instr::SubN { x, y } => x < 16 && y < 16,
            Instr::Shl { x } => x < 16,
            _ => false,
        }),
    ensures
        step_instr(s, ins, r).v[15] == 0 || step_instr(s, ins, r).v[15] == 1,
{
    match ins {
        Instr::Shr { x } => {
            let a = s.v[x as int];
            assert((a & 1) <= 1) by (bit_vector);
        },
        Instr::Shl { x } => {
            let a = s.v[x as int];
            assert(((a >> 7u8) & 1) <= 1) by (bit_vector);
        },
        _ => {},
    }
}

/// A `2nnn` call followed at once by a `00EE` return comes back to the
/// instruction after the call, with the stack index and every register,
/// memory byte and framebuffer cell unchanged.
pub proof fn lemma_call_then_ret(s: St, nnn: u16, r1: u8, r2: u8)
    requires
        wf(s),
        s.fault is None,
        s.sp < 16,
    ensures
        ({
            let t = step_instr(s, Instr::Call { nnn }, r1);
            let u = step_instr(t, Instr::Ret, r2);
            &&& u.pc == next_pc(s.pc)
            &&& u.sp == s.sp
            &&& u.v == s.v
            &&& u.mem == s.mem
            &&& u.fb == s.fb
            &&& u.fault is None
        }),
{
    let t = step_instr(s, Instr::Call { nnn }, r1);
    let u = step_instr(t, Instr::Ret, r2);
    assert(t.stack[s.sp] == next_pc(s.pc));
    let w = ((s.pc + 2) % 0x10000) as u16;
    assert(pc_mask(pc_mask(w)) == pc_mask(w)) by (bit_vector);
    assert(u.pc == next_pc(s.pc));
}

/// Whether the sprite rows drawn by `Dxyn` contain any set pixel that
/// lands on the screen.
pub open spec fn sprite_has_pixel(mem: Seq<u8>, i: u16, vx: u8, vy: u8, n: u8) -> bool {
    exists|px: int, py: int|
        draw_covers(vx, vy, n, px, py) && #[trigger] sprite_bit(mem, i, vx, vy, px, py) == 1
}

/// Drawing the same sprite at the same coordinates twice restores the
/// framebuffer: XOR is its own inverse.
pub proof fn lemma_draw_self_inverse(fb: Seq<u8>, mem: Seq<u8>, i: u16, vx: u8, vy: u8, n: u8)
    requires
        fb.len() == 2048,
    ensures
        draw_fb(draw_fb(fb, mem, i, vx, vy, n), mem, i, vx, vy, n) == fb,
{
    let once = draw_fb(fb, mem, i, vx, vy, n);
    let twice = draw_fb(once, mem, i, vx, vy, n);
    assert forall|idx: int| 0 <= idx < 2048 implies twice[idx] == fb[idx] by {
        if draw_covers(vx, vy, n, idx % 64, idx / 64) {
            let sb = sprite_bit(mem, i, vx, vy, idx % 64, idx / 64);
            let a = fb[idx];
            assert((a ^ sb) ^ sb == a) by (bit_vector);
        }
    }
    assert(twice =~= fb);
}

/// On a region of the screen that starts all off, the second of two equal
/// draws reports a collision exactly when the sprite has any set pixel on
/// screen: every such pixel was turned on by the first draw and is turned
/// off again by the second.
pub proof fn lemma_second_draw_vf(fb: Seq<u8>, mem: Seq<u8>, i: u16, vx: u8, vy: u8, n: u8)
    requires
        fb.len() == 2048,
        forall|px: int, py: int|
            #[trigger] draw_covers(vx, vy, n, px, py) ==> fb[py * 64 + px] == 0,
    ensures
        draw_hit(draw_fb(fb, mem, i, vx, vy, n), mem, i, vx, vy, n) == sprite_has_pixel(
            mem,
            i,
            vx,
            vy,
            n,
        ),
{
    let once = draw_fb(fb, mem, i, vx, vy, n);
    if draw_hit(once, mem, i, vx, vy, n) {
        let (px, py) = choose|px: int, py: int|
            draw_covers(vx, vy, n, px, py) && #[trigger] hit_at(once, mem, i, vx, vy, px, py);
        assert(sprite_bit(mem, i, vx, vy, px, py) == 1);
        assert(sprite_has_pixel(mem, i, vx, vy, n));
    }
    if sprite_has_pixel(mem, i, vx, vy, n) {
        let (px, py) = choose|px: int, py: int|
            draw_covers(vx, vy, n, px, py) && #[trigger] sprite_bit(mem, i, vx, vy, px, py) == 1;
        let idx = py * 64 + px;
        assert(0 <= idx < 2048);
        assert(idx % 64 == px && idx / 64 == py);
        assert(once[idx] == (fb[idx] ^ sprite_bit(mem, i, vx, vy, px, py)));
        assert((0u8 ^ 1u8) == 1u8) by (bit_vector);
        assert(hit_at(once, mem, i, vx, vy, px, py));
        assert(draw_hit(once, mem, i, vx, vy, n));
    }
}

/// Each byte `Fx55` stored can be read back: within one store of at most
/// sixteen registers the masked addresses `I`, `I+1`, ... never collide.
pub proof fn lemma_store_regs_at(mem: Seq<u8>, v: Seq<u8>, i: u16, x: int, k: int)
    requires
        mem.len() == 4096,
        0 <= k <= x < 16,
    ensures
        store_regs(mem, v, i, x)[addr12(i, k)] == v[k],
    decreases x,
{
    lemma_store_regs_len(mem, v, i, x - 1);
    assert(0 <= addr12(i, k) < 4096);
    assert(0 <= addr12(i, x) < 4096);
    if k == x {
    } else {
        lemma_store_regs_at(mem, v, i, x - 1, k);
        assert(addr12(i, k) != addr12(i, x)) by {
            let a = i + k;
            let d = x - k;
            assert(0 < d < 4096);
            assert((a + d) % 4096 != a % 4096) by (nonlinear_arith)
                requires
                    0 <= a,
                    0 < d < 4096,
            ;
        };
    }
}

/// `Fx55` followed by `Fx65` with the same `x` and unchanged `I` restores
/// `V0..Vx` — indeed the whole register file is exactly what it was.
pub proof fn lemma_store_then_load(s: St, x: u8, r1: u8, r2: u8)
    requires
        wf(s),
        x < 16,
    ensures
        step_instr(step_instr(s, Instr::StoreRegs { x }, r1), Instr::LoadRegs { x }, r2).v == s.v,
{
    let t = step_instr(s, Instr::StoreRegs { x }, r1);
    assert(t.v == s.v && t.i == s.i);
    let stored = store_regs(s.mem, s.v, s.i, x as int);
    lemma_store_regs_len(s.mem, s.v, s.i, x as int);
    assert forall|j: int| 0 <= j <= x as int implies store_loaded(stored, s.v, s.i, j) by {
        lemma_store_regs_at(s.mem, s.v, s.i, x as int, j);
    }
    lemma_load_regs_id(s.v, stored, s.i, x as int, x as int);
    assert(step_instr(t, Instr::LoadRegs { x }, r2).v == load_regs(s.v, stored, s.i, x as int));
}

/// Storing registers does not change how much memory there is.
pub proof fn lemma_store_regs_len(mem: Seq<u8>, v: Seq<u8>, i: u16, x: int)
    requires
        mem.len() == 4096,
    ensures
        store_regs(mem, v, i, x).len() == 4096,
    decreases x + 1,
{
    if x >= 0 {
        lemma_store_regs_len(mem, v, i, x - 1);
        assert(0 <= addr12(i, x) < 4096);
    }
}

/// Loading back from a fresh store of the same registers changes nothing:
/// every loaded byte equals the register it came from.
pub proof fn lemma_load_regs_id(v: Seq<u8>, mem: Seq<u8>, i: u16, x: int, k: int)
    requires
        v.len() == 16,
        0 <= x < 16,
        k <= x,
        mem.len() == 4096,
        forall|j: int| 0 <= j <= x ==> store_loaded(mem, v, i, j),
    ensures
        load_regs(v, mem, i, k) == v,
    decreases k + 1,
{
    if k < 0 {
    } else {
        lemma_load_regs_id(v, mem, i, x, k - 1);
        assert(store_loaded(mem, v, i, k));
        assert(load_regs(v, mem, i, k) =~= v);
    }
}

/// The byte at the masked address `I + j` holds register `j`.
pub open spec fn store_loaded(mem: Seq<u8>, v: Seq<u8>, i: u16, j: int) -> bool {
    mem[addr12(i, j)] == v[j]
}

} // verus!
