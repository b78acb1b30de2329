//! Instruction words and their decoding into a closed set of instructions.

use vstd::prelude::*;

verus! {

/// What can go wrong while running one instruction.
#[derive(Debug, Clone, Copy, PartialEq, Eq, Structural)]
pub enum CpuError {
    /// The word matches no instruction, or breaks the reserved bits of one.
    UnknownOpcode,
    /// A return with no call to return from.
    EmptyStack,
    /// A call nested deeper than the stack holds.
    StackOverflow,
    /// The program counter, or an access through the index register, leaves memory.
    MemoryOutOfBounds,
}

impl CpuError {
    /// A short description of the error.
    pub fn message(&self) -> (r: &'static str) {
        match self {
            CpuError::UnknownOpcode => "encountered unknown opcode",
            CpuError::EmptyStack => "attempted to pop from empty stack",
            CpuError::StackOverflow => "stack nesting limit exceeded",
            CpuError::MemoryOutOfBounds => "attempted to access memory beyond its bounds",
        }
    }
}

/// One decoded instruction. `x` and `y` name registers, `kk` is a byte,
/// `addr` a 12-bit address and `n` a 4-bit count.
#[derive(Debug, Clone, Copy, PartialEq, Eq, Structural)]
pub enum Instruction {
    /// 00E0: clear the display.
    Cls,
    /// 00EE: return from a subroutine.
    Ret,
    /// 1nnn: jump to nnn.
    Jp(u16),
    /// 2nnn: call the subroutine at nnn.
    Call(u16),
    /// 3xkk: skip the next instruction if Vx == kk.
    SeByte(u8, u8),
    /// 4xkk: skip the next instruction if Vx != kk.
    SneByte(u8, u8),
    /// 5xy0: skip the next instruction if Vx == Vy.
    SeReg(u8, u8),
    /// 6xkk: Vx = kk.
    LdByte(u8, u8),
    /// 7xkk: Vx = Vx + kk, wrapping, flags untouched.
    AddByte(u8, u8),
    /// 8xy0: Vx = Vy.
    LdReg(u8, u8),
    /// 8xy1: Vx = Vx OR Vy.
    Or(u8, u8),
    /// 8xy2: Vx = Vx AND Vy.
    And(u8, u8),
    /// 8xy3: Vx = Vx XOR Vy.
    Xor(u8, u8),
    /// 8xy4: Vx = Vx + Vy, VF = carry.
    AddReg(u8, u8),
    /// 8xy5: Vx = Vx - Vy, VF = no borrow.
    Sub(u8, u8),
    /// 8xy6: Vx = Vx / 2, VF = the bit shifted out.
    Shr(u8),
    /// 8xy7: Vx = Vy - Vx, VF = no borrow.
    Subn(u8, u8),
    /// 8xyE: Vx = Vx * 2, VF = the bit shifted out.
    Shl(u8),
    /// 9xy0: skip the next instruction if Vx != Vy.
    SneReg(u8, u8),
    /// Annn: I = nnn.
    LdI(u16),
    /// Bnnn: jump to nnn + V0.
    JpV0(u16),
    /// Cxkk: Vx = random byte AND kk.
    Rnd(u8, u8),
    /// Dxyn: draw the n-byte sprite at I at (Vx, Vy), VF = collision.
    Drw(u8, u8, u8),
    /// Ex9E: skip the next instruction if key Vx is down.
    Skp(u8),
    /// ExA1: skip the next instruction if key Vx is up.
    Sknp(u8),
    /// Fx07: Vx = delay timer.
    LdVxDt(u8),
    /// Fx0A: wait for a key press and store the key in Vx.
    LdKey(u8),
    /// Fx15: delay timer = Vx.
    LdDtVx(u8),
    /// Fx18: sound timer = Vx.
    LdStVx(u8),
    /// Fx1E: I = I + Vx.
    AddI(u8),
    /// Fx29: I = address of the font glyph for digit Vx.
    LdFont(u8),
    /// Fx33: store the decimal digits of Vx at I, I+1, I+2.
    Bcd(u8),
    /// Fx55: store V0..=Vx in memory from I.
    StoreRegs(u8),
    /// Fx65: load V0..=Vx from memory from I.
    LoadRegs(u8),
}

/// The register named by bits 8..12 of an instruction word.
pub open spec fn field_x(inst: u16) -> u8 {
    ((inst / 256) % 16) as u8
}

/// The register named by bits 4..8 of an instruction word.
pub open spec fn field_y(inst: u16) -> u8 {
    ((inst / 16) % 16) as u8
}

/// The low four bits of an instruction word.
pub open spec fn field_n(inst: u16) -> u8 {
    (inst % 16) as u8
}

/// The low byte of an instruction word.
pub open spec fn field_kk(inst: u16) -> u8 {
    (inst % 256) as u8
}

/// The low twelve bits of an instruction word.
pub open spec fn field_nnn(inst: u16) -> u16 {
    (inst % 4096) as u16
}

/// The instruction a word encodes, if any.
pub open spec fn decode_spec(inst: u16) -> Option<Instruction> {
    let x = field_x(inst);
    let y = field_y(inst);
    let n = field_n(inst);
    let kk = field_kk(inst);
    let nnn = field_nnn(inst);
    let group = inst / 4096;
    if inst == 0x00E0 {
        Some(Instruction::Cls)
    } else if inst == 0x00EE {
        Some(Instruction::Ret)
    } else if group == 0x1 {
        Some(Instruction::Jp(nnn))
    } else if group == 0x2 {
        Some(Instruction::Call(nnn))
    } else if group == 0x3 {
        Some(Instruction::SeByte(x, kk))
    } else if group == 0x4 {
        Some(Instruction::SneByte(x, kk))
    } else if group == 0x5 {
        if n == 0 {
            Some(Instruction::SeReg(x, y))
        } else {
            None
        }
    } else if group == 0x6 {
        Some(Instruction::LdByte(x, kk))
    } else if group == 0x7 {
        Some(Instruction::AddByte(x, kk))
    } else if group == 0x8 {
        if n == 0x0 {
            Some(Instruction::LdReg(x, y))
        } else if n == 0x1 {
            Some(Instruction::Or(x, y))
        } else if n == 0x2 {
            Some(Instruction::And(x, y))
        } else if n == 0x3 {
            Some(Instruction::Xor(x, y))
        } else if n == 0x4 {
            Some(Instruction::AddReg(x, y))
        } else if n == 0x5 {
            Some(Instruction::Sub(x, y))
        } else if n == 0x6 {
            Some(Instruction::Shr(x))
        } else if n == 0x7 {
            Some(Instruction::Subn(x, y))
        } else if n == 0xE {
            Some(Instruction::Shl(x))
        } else {
            None
        }
    } else if group == 0x9 {
        if n == 0 {
            Some(Instruction::SneReg(x, y))
        } else {
            None
        }
    } else if group == 0xA {
        Some(Instruction::LdI(nnn))
    } else if group == 0xB {
        Some(Instruction::JpV0(nnn))
    } else if group == 0xC {
        Some(Instruction::Rnd(x, kk))
    } else if group == 0xD {
        Some(Instruction::Drw(x, y, n))
    } else if group == 0xE {
        if kk == 0x9E {
            Some(Instruction::Skp(x))
        } else if kk == 0xA1 {
            Some(Instruction::Sknp(x))
        } else {
            None
        }
    } else if group == 0xF {
        if kk == 0x07 {
            Some(Instruction::LdVxDt(x))
        } else if kk == 0x0A {
            Some(Instruction::LdKey(x))
        } else if kk == 0x15 {
            Some(Instruction::LdDtVx(x))
        } else if kk == 0x18 {
            Some(Instruction::LdStVx(x))
        } else if kk == 0x1E {
            Some(Instruction::AddI(x))
        } else if kk == 0x29 {
            Some(Instruction::LdFont(x))
        } else if kk == 0x33 {
            Some(Instruction::Bcd(x))
        } else if kk == 0x55 {
            Some(Instruction::StoreRegs(x))
        } else if kk == 0x65 {
            Some(Instruction::LoadRegs(x))
        } else {
            None
        }
    } else {
        None
    }
}

impl Instruction {
    /// Register fields name one of the sixteen registers, addresses fit in
    /// twelve bits and sprite heights in four: what every decoded word gives.
    pub open spec fn wf(self) -> bool {
        match self {
            Instruction::Cls | Instruction::Ret => true,
            Instruction::Jp(a) | Instruction::Call(a) | Instruction::LdI(a) | Instruction::JpV0(a) => a
                < 4096,
            Instruction::SeByte(x, _) | Instruction::SneByte(x, _) | Instruction::LdByte(x, _)
            | Instruction::AddByte(x, _) | Instruction::Rnd(x, _) => x < 16,
            Instruction::SeReg(x, y) | Instruction::LdReg(x, y) | Instruction::Or(x, y)
            | Instruction::And(x, y) | Instruction::Xor(x, y) | Instruction::AddReg(x, y)
            | Instruction::Sub(x, y) | Instruction::Subn(x, y) | Instruction::SneReg(x, y) => x < 16
                && y < 16,
            Instruction::Drw(x, y, n) => x < 16 && y < 16 && n < 16,
            Instruction::Shr(x) | Instruction::Shl(x) | Instruction::Skp(x) | Instruction::Sknp(x)
            | Instruction::LdVxDt(x) | Instruction::LdKey(x) | Instruction::LdDtVx(x)
            | Instruction::LdStVx(x) | Instruction::AddI(x) | Instruction::LdFont(x)
            | Instruction::Bcd(x) | Instruction::StoreRegs(x) | Instruction::LoadRegs(x) => x < 16,
        }
    }
}

/// Every instruction that a word decodes to is well formed.
pub proof fn lemma_decoded_wf(inst: u16)
    ensures
        decode_spec(inst) matches Some(ins) ==> ins.wf(),
{
}

/// Decodes an instruction word (big-endian: the byte at the lower address is
/// the high byte). Words that match no instruction give `UnknownOpcode`.
pub fn decode(inst: u16) -> (r: Result<Instruction, CpuError>)
    ensures
        r == (match decode_spec(inst) {
            Some(ins) => Ok(ins),
            None => Err(CpuError::UnknownOpcode),
        }),
        r matches Ok(ins) ==> ins.wf(),
{
    let x = ((inst / 256) % 16) as u8;
    let y = ((inst / 16) % 16) as u8;
    let n = (inst % 16) as u8;
    let kk = (inst % 256) as u8;
    let nnn = inst % 4096;
    let ins = match inst / 4096 {
        0x0 => {
            if inst == 0x00E0 {
                Instruction::Cls
            } else if inst == 0x00EE {
                Instruction::Ret
            } else {
                return Err(CpuError::UnknownOpcode);
            }
        },
        0x1 => Instruction::Jp(nnn),
        0x2 => Instruction::Call(nnn),
        0x3 => Instruction::SeByte(x, kk),
        0x4 => Instruction::SneByte(x, kk),
        0x5 => {
            if n != 0 {
                return Err(CpuError::UnknownOpcode);
            }
            Instruction::SeReg(x, y)
        },
        0x6 => Instruction::LdByte(x, kk),
        0x7 => Instruction::AddByte(x, kk),
        0x8 => match n {
            0x0 => Instruction::LdReg(x, y),
            0x1 => Instruction::Or(x, y),
            0x2 => Instruction::And(x, y),
            0x3 => Instruction::Xor(x, y),
            0x4 => Instruction::AddReg(x, y),
            0x5 => Instruction::Sub(x, y),
            0x6 => Instruction::Shr(x),
            0x7 => Instruction::Subn(x, y),
            0xE => Instruction::Shl(x),
            _ => return Err(CpuError::UnknownOpcode),
        },
        0x9 => {
            if n != 0 {
                return Err(CpuError::UnknownOpcode);
            }
            Instruction::SneReg(x, y)
        },
        0xA => Instruction::LdI(nnn),
        0xB => Instruction::JpV0(nnn),
        0xC => Instruction::Rnd(x, kk),
        0xD => Instruction::Drw(x, y, n),
        0xE => match kk {
            0x9E => Instruction::Skp(x),
            0xA1 => Instruction::Sknp(x),
            _ => return Err(CpuError::UnknownOpcode),
        },
        _ => match kk {
            0x07 => Instruction::LdVxDt(x),
            0x0A => Instruction::LdKey(x),
            0x15 => Instruction::LdDtVx(x),
            0x18 => Instruction::LdStVx(x),
            0x1E => Instruction::AddI(x),
            0x29 => Instruction::LdFont(x),
            0x33 => Instruction::Bcd(x),
            0x55 => Instruction::StoreRegs(x),
            0x65 => Instruction::LoadRegs(x),
            _ => return Err(CpuError::UnknownOpcode),
        },
    };
    Ok(ins)
}

} // verus!
