use vstd::prelude::*;

verus! {

/// A decoded CHIP-8 instruction.
///
/// Instructions are 16-bit big-endian words. The top nibble selects the
/// class; `8xy*`, `Ex**` and `Fx**` are sub-classified by the low nibble or
/// low byte. Field conventions follow the classic register-machine layout:
/// `nnn` is a 12-bit address, `kk` an 8-bit immediate, `n` a 4-bit immediate,
/// and `x`, `y` are register indices.
#[derive(Clone, Copy, PartialEq, Eq, Structural, Debug)]
pub enum Instr {
    /// `00E0`: clear the framebuffer.
    Cls,
    /// `00EE`: return from subroutine.
    Ret,
    /// `0nnn`: machine-code call on the original hardware; ignored here.
    Sys { nnn: u16 },
    /// `1nnn`: jump.
    Jp { nnn: u16 },
    /// `2nnn`: call subroutine.
    Call { nnn: u16 },
    /// `3xkk`: skip next instruction if `Vx == kk`.
    SeImm { x: u8, kk: u8 },
    /// `4xkk`: skip next instruction if `Vx != kk`.
    SneImm { x: u8, kk: u8 },
    /// `5xy0`: skip next instruction if `Vx == Vy`.
    SeReg { x: u8, y: u8 },
    /// `6xkk`: `Vx = kk`.
    LdImm { x: u8, kk: u8 },
    /// `7xkk`: `Vx = Vx + kk` (mod 256, VF untouched).
    AddImm { x: u8, kk: u8 },
    /// `8xy0`: `Vx = Vy`.
    Mov { x: u8, y: u8 },
    /// `8xy1`: `Vx = Vx | Vy`.
    Or { x: u8, y: u8 },
    /// `8xy2`: `Vx = Vx & Vy`.
    And { x: u8, y: u8 },
    /// `8xy3`: `Vx = Vx ^ Vy`.
    Xor { x: u8, y: u8 },
    /// `8xy4`: `Vx = Vx + Vy` (mod 256), VF = carry.
    Add { x: u8, y: u8 },
    /// `8xy5`: `Vx = Vx - Vy` (mod 256), VF = 1 if no borrow.
    Sub { x: u8, y: u8 },
    /// `8xy6`: VF = low bit of Vx, then `Vx = Vx >> 1` (shift quirk: Vx, not Vy).
    Shr { x: u8 },
    /// `8xy7`: `Vx = Vy - Vx` (mod 256), VF = 1 if no borrow.
    SubN { x: u8, y: u8 },
    /// `8xyE`: VF = high bit of Vx, then `Vx = Vx << 1`.
    Shl { x: u8 },
    /// `9xy0`: skip next instruction if `Vx != Vy`.
    SneReg { x: u8, y: u8 },
    /// `Annn`: `I = nnn`.
    LdI { nnn: u16 },
    /// `Bnnn`: jump to `nnn + V0`.
    JpV0 { nnn: u16 },
    /// `Cxkk`: `Vx = random byte & kk`.
    Rnd { x: u8, kk: u8 },
    /// `Dxyn`: draw an n-row sprite at `(Vx, Vy)`; VF = collision.
    Drw { x: u8, y: u8, n: u8 },
    /// `Ex9E`: skip next instruction if key `Vx & 0xF` is pressed.
    Skp { x: u8 },
    /// `ExA1`: skip next instruction if key `Vx & 0xF` is not pressed.
    Sknp { x: u8 },
    /// `Fx07`: `Vx = delay timer`.
    LdFromDt { x: u8 },
    /// `Fx0A`: suspend until a key is pressed; store it in `Vx`.
    WaitKey { x: u8 },
    /// `Fx15`: `delay timer = Vx`.
    LdDt { x: u8 },
    /// `Fx18`: `sound timer = Vx`.
    LdSt { x: u8 },
    /// `Fx1E`: `I = I + Vx` (mod 2^16).
    AddI { x: u8 },
    /// `Fx29`: `I` = address of the font glyph for `Vx & 0xF`.
    LdFont { x: u8 },
    /// `Fx33`: store the decimal digits of `Vx` at `I`, `I+1`, `I+2`.
    Bcd { x: u8 },
    /// `Fx55`: store `V0..=Vx` at `I..`.
    StoreRegs { x: u8 },
    /// `Fx65`: load `V0..=Vx` from `I..`.
    LoadRegs { x: u8 },
}

/// Range constraints that every decoded instruction satisfies: register
/// indices and 4-bit immediates are below 16, addresses below 4096.
pub open spec fn instr_wf(ins: Instr) -> bool {
    match ins {
        Instr::Cls => true,
        Instr::Ret => true,
        Instr::Sys { nnn } => nnn < 4096,
        Instr::Jp { nnn } => nnn < 4096,
        Instr::Call { nnn } => nnn < 4096,
        Instr::SeImm { x, kk: _ } => x < 16,
        Instr::SneImm { x, kk: _ } => x < 16,
        Instr::SeReg { x, y } => x < 16 && y < 16,
        Instr::LdImm { x, kk: _ } => x < 16,
        Instr::AddImm { x, kk: _ } => x < 16,
        Instr::Mov { x, y } => x < 16 && y < 16,
        Instr::Or { x, y } => x < 16 && y < 16,
        Instr::And { x, y } => x < 16 && y < 16,
        Instr::Xor { x, y } => x < 16 && y < 16,
        Instr::Add { x, y } => x < 16 && y < 16,
        Instr::Sub { x, y } => x < 16 && y < 16,
        Instr::Shr { x } => x < 16,
        Instr::SubN { x, y } => x < 16 && y < 16,
        Instr::Shl { x } => x < 16,
        Instr::SneReg { x, y } => x < 16 && y < 16,
        Instr::LdI { nnn } => nnn < 4096,
        Instr::JpV0 { nnn } => nnn < 4096,
        Instr::Rnd { x, kk: _ } => x < 16,
        Instr::Drw { x, y, n } => x < 16 && y < 16 && n < 16,
        Instr::Skp { x } => x < 16,
        Instr::Sknp { x } => x < 16,
        Instr::LdFromDt { x } => x < 16,
        Instr::WaitKey { x } => x < 16,
        Instr::LdDt { x } => x < 16,
        Instr::LdSt { x } => x < 16,
        Instr::AddI { x } => x < 16,
        Instr::LdFont { x } => x < 16,
        Instr::Bcd { x } => x < 16,
        Instr::StoreRegs { x } => x < 16,
        Instr::LoadRegs { x } => x < 16,
    }
}

/// Classification of a 16-bit opcode word. `None` means the bit pattern is
/// not a CHIP-8 instruction (a fault when fetched).
pub open spec fn spec_decode(op: u16) -> Option<Instr> {
    let nnn = op & 0x0FFF;
    let n = (op & 0x000F) as u8;
    let x = ((op >> 8) & 0x0F) as u8;
    let y = ((op >> 4) & 0x0F) as u8;
    let kk = (op & 0x00FF) as u8;
    let top = op >> 12;
    if top == 0x0 {
        if op == 0x00E0 {
            Some(Instr::Cls)
        } else if op == 0x00EE {
            Some(Instr::Ret)
        } else {
            Some(Instr::Sys { nnn })
        }
    } else if top == 0x1 {
        Some(Instr::Jp { nnn })
    } else if top == 0x2 {
        Some(Instr::Call { nnn })
    } else if top == 0x3 {
        Some(Instr::SeImm { x, kk })
    } else if top == 0x4 {
        Some(Instr::SneImm { x, kk })
    } else if top == 0x5 {
        if n == 0 {
            Some(Instr::SeReg { x, y })
        } else {
            None
        }
    } else if top == 0x6 {
        Some(Instr::LdImm { x, kk })
    } else if top == 0x7 {
        Some(Instr::AddImm { x, kk })
    } else if top == 0x8 {
        if n == 0x0 {
            Some(Instr::Mov { x, y })
        } else if n == 0x1 {
            Some(Instr::Or { x, y })
        } else if n == 0x2 {
            Some(Instr::And { x, y })
        } else if n == 0x3 {
            Some(Instr::Xor { x, y })
        } else if n == 0x4 {
            Some(Instr::Add { x, y })
        } else if n == 0x5 {
            Some(Instr::Sub { x, y })
        } else if n == 0x6 {
            Some(Instr::Shr { x })
        } else if n == 0x7 {
            Some(Instr::SubN { x, y })
        } else if n == 0xE {
            Some(Instr::Shl { x })
        } else {
            None
        }
    } else if top == 0x9 {
        if n == 0 {
            Some(Instr::SneReg { x, y })
        } else {
            None
        }
    } else if top == 0xA {
        Some(Instr::LdI { nnn })
    } else if top == 0xB {
        Some(Instr::JpV0 { nnn })
    } else if top == 0xC {
        Some(Instr::Rnd { x, kk })
    } else if top == 0xD {
        Some(Instr::Drw { x, y, n })
    } else if top == 0xE {
        if kk == 0x9E {
            Some(Instr::Skp { x })
        } else if kk == 0xA1 {
            Some(Instr::Sknp { x })
        } else {
            None
        }
    } else {
        if kk == 0x07 {
            Some(Instr::LdFromDt { x })
        } else if kk == 0x0A {
            Some(Instr::WaitKey { x })
        } else if kk == 0x15 {
            Some(Instr::LdDt { x })
        } else if kk == 0x18 {
            Some(Instr::LdSt { x })
        } else if kk == 0x1E {
            Some(Instr::AddI { x })
        } else if kk == 0x29 {
            Some(Instr::LdFont { x })
        } else if kk == 0x33 {
            Some(Instr::Bcd { x })
        } else if kk == 0x55 {
            Some(Instr::StoreRegs { x })
        } else if kk == 0x65 {
            Some(Instr::LoadRegs { x })
        } else {
            None
        }
    }
}

/// Every successfully decoded instruction has in-range fields.
pub proof fn lemma_decode_wf(op: u16)
    ensures
        match spec_decode(op) {
            Some(ins) => instr_wf(ins),
            None => true,
        },
{
    assert(((op >> 8) & 0x0F) < 16) by (bit_vector);
    assert(((op >> 4) & 0x0F) < 16) by (bit_vector);
    assert((op & 0x000F) < 16) by (bit_vector);
    assert((op & 0x0FFF) < 4096) by (bit_vector);
}

/// Classify one opcode word, as `spec_decode` does.
pub fn decode(op: u16) -> (r: Option<Instr>)
    ensures
        r == spec_decode(op),
{
    let nnn: u16 = op & 0x0FFF;
    let n: u8 = (op & 0x000F) as u8;
    let x: u8 = ((op >> 8) & 0x0F) as u8;
    let y: u8 = ((op >> 4) & 0x0F) as u8;
    let kk: u8 = (op & 0x00FF) as u8;
    let top: u16 = op >> 12;
    if top == 0x0 {
        if op == 0x00E0 {
            Some(Instr::Cls)
        } else if op == 0x00EE {
            Some(Instr::Ret)
        } else {
            Some(Instr::Sys { nnn })
        }
    } else if top == 0x1 {
        Some(Instr::Jp { nnn })
    } else if top == 0x2 {
        Some(Instr::Call { nnn })
    } else if top == 0x3 {
        Some(Instr::SeImm { x, kk })
    } else if top == 0x4 {
        Some(Instr::SneImm { x, kk })
    } else if top == 0x5 {
        if n == 0 {
            Some(Instr::SeReg { x, y })
        } else {
            None
        }
    } else if top == 0x6 {
        Some(Instr::LdImm { x, kk })
    } else if top == 0x7 {
        Some(Instr::AddImm { x, kk })
    } else if top == 0x8 {
        if n == 0x0 {
            Some(Instr::Mov { x, y })
        } else if n == 0x1 {
            Some(Instr::Or { x, y })
        } else if n == 0x2 {
            Some(Instr::And { x, y })
        } else if n == 0x3 {
            Some(Instr::Xor { x, y })
        } else if n == 0x4 {
            Some(Instr::Add { x, y })
        } else if n == 0x5 {
            Some(Instr::Sub { x, y })
        } else if n == 0x6 {
            Some(Instr::Shr { x })
        } else if n == 0x7 {
            Some(Instr::SubN { x, y })
        } else if n == 0xE {
            Some(Instr::Shl { x })
        } else {
            None
        }
    } else if top == 0x9 {
        if n == 0 {
            Some(Instr::SneReg { x, y })
        } else {
            None
        }
    } else if top == 0xA {
        Some(Instr::LdI { nnn })
    } else if top == 0xB {
        Some(Instr::JpV0 { nnn })
    } else if top == 0xC {
        Some(Instr::Rnd { x, kk })
    } else if top == 0xD {
        Some(Instr::Drw { x, y, n })
    } else if top == 0xE {
        if kk == 0x9E {
            Some(Instr::Skp { x })
        } else if kk == 0xA1 {
            Some(Instr::Sknp { x })
        } else {
            None
        }
    } else {
        if kk == 0x07 {
            Some(Instr::LdFromDt { x })
        } else if kk == 0x0A {
            Some(Instr::WaitKey { x })
        } else if kk == 0x15 {
            Some(Instr::LdDt { x })
        } else if kk == 0x18 {
            Some(Instr::LdSt { x })
        } else if kk == 0x1E {
            Some(Instr::AddI { x })
        } else if kk == 0x29 {
            Some(Instr::LdFont { x })
        } else if kk == 0x33 {
            Some(Instr::Bcd { x })
        } else if kk == 0x55 {
            Some(Instr::StoreRegs { x })
        } else if kk == 0x65 {
            Some(Instr::LoadRegs { x })
        } else {
            None
        }
    }
}

} // verus!
