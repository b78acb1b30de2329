//! The instruction engine: registers, memory, call stack and timers, and the
//! effect of each instruction on them.

use vstd::prelude::*;
use vstd::arithmetic::div_mod::{lemma_fundamental_div_mod, lemma_hoist_over_denominator, lemma_mod_multiples_vanish};
use crate::display::{DisplayController, FRAME_BYTES, SCREEN_WIDTH, SCREEN_HEIGHT, draw_frame, draw_collides, lemma_draw_frame_len};
use crate::input::{InputController, KeyStatus, key_down, updated_bits};
use crate::opcode::{CpuError, Instruction, decode, decode_spec, lemma_decoded_wf};

verus! {

pub const MEMORY_SIZE: usize = 4096;

pub const REGISTER_COUNT: usize = 16;

/// How many return addresses the call stack holds.
pub const STACK_SIZE: usize = 16;

/// Where the built-in font starts in memory.
pub const FONT_START_ADDR: usize = 0x50;

/// Bytes of the built-in font: five for each of the sixteen hex digits.
pub const FONT_LEN: usize = 80;

/// Where a loaded program starts in memory.
pub const PROGRAM_ENTRY_POINT: usize = 0x200;

/// Nanoseconds between two decrements of a timer (timers run at 60 Hz).
pub const TIMER_PERIOD_NANOS: u64 = 16_666_666;

/// The flag register VF.
pub const FLAG: usize = 0xF;

/// Why a program could not be read.
#[derive(Debug, Clone, Copy, PartialEq, Eq, Structural)]
pub enum IOError {
    /// The program's source could not be opened.
    FileOpenError,
    /// The program's source could not be read.
    FileReadError,
}

impl IOError {
    /// A short description of the error.
    pub fn message(&self) -> (r: &'static str) {
        match self {
            IOError::FileOpenError => "could not open file",
            IOError::FileReadError => "could not read file",
        }
    }
}

/// The built-in font: glyphs for 0..=F, five rows of four pixels each.
#[verifier::opaque]
pub open spec fn font() -> Seq<u8> {
    seq![
        0xF0u8, 0x90, 0x90, 0x90, 0xF0, // 0
        0x20, 0x60, 0x20, 0x20, 0x70, // 1
        0xF0, 0x10, 0xF0, 0x80, 0xF0, // 2
        0xF0, 0x10, 0xF0, 0x10, 0xF0, // 3
        0x90, 0x90, 0xF0, 0x10, 0x10, // 4
        0xF0, 0x80, 0xF0, 0x10, 0xF0, // 5
        0xF0, 0x80, 0xF0, 0x90, 0xF0, // 6
        0xF0, 0x10, 0x20, 0x40, 0x40, // 7
        0xF0, 0x90, 0xF0, 0x90, 0xF0, // 8
        0xF0, 0x90, 0xF0, 0x10, 0xF0, // 9
        0xF0, 0x90, 0xF0, 0x90, 0x90, // A
        0xE0, 0x90, 0xE0, 0x90, 0xE0, // B
        0xF0, 0x80, 0x80, 0x80, 0xF0, // C
        0xE0, 0x90, 0x90, 0x90, 0xE0, // D
        0xF0, 0x80, 0xF0, 0x80, 0xF0, // E
        0xF0, 0x80, 0xF0, 0x80, 0x80, // F
    ]
}

/// The bytes of the built-in font.
pub fn font_bytes() -> (r: Vec<u8>)
    ensures
        r@ == font(),
{
    let r: Vec<u8> = vec![
        0xF0u8, 0x90, 0x90, 0x90, 0xF0, // 0
        0x20, 0x60, 0x20, 0x20, 0x70, // 1
        0xF0, 0x10, 0xF0, 0x80, 0xF0, // 2
        0xF0, 0x10, 0xF0, 0x10, 0xF0, // 3
        0x90, 0x90, 0xF0, 0x10, 0x10, // 4
        0xF0, 0x80, 0xF0, 0x10, 0xF0, // 5
        0xF0, 0x80, 0xF0, 0x90, 0xF0, // 6
        0xF0, 0x10, 0x20, 0x40, 0x40, // 7
        0xF0, 0x90, 0xF0, 0x90, 0xF0, // 8
        0xF0, 0x90, 0xF0, 0x10, 0xF0, // 9
        0xF0, 0x90, 0xF0, 0x90, 0x90, // A
        0xE0, 0x90, 0xE0, 0x90, 0xE0, // B
        0xF0, 0x80, 0x80, 0x80, 0xF0, // C
        0xE0, 0x90, 0x90, 0x90, 0xE0, // D
        0xF0, 0x80, 0xF0, 0x80, 0xF0, // E
        0xF0, 0x80, 0xF0, 0x80, 0x80, // F
    ];
    assert(r@ =~= font()) by {
        reveal(font);
    }
    r
}

/// The font has five bytes for each of the sixteen hex digits.
pub proof fn lemma_font_len()
    ensures
        font().len() == FONT_LEN,
{
    reveal(font);
}


/// The whole machine state that instructions read and write.
pub struct CpuState {
    pub pc: u16,
    /// The index register I.
    pub i: u16,
    /// V0..=VF.
    pub reg: Seq<u8>,
    pub mem: Seq<u8>,
    /// Return addresses, innermost call last.
    pub stack: Seq<u16>,
    /// The delay timer.
    pub dt: u8,
    /// The sound timer.
    pub st: u8,
    /// Nanoseconds elapsed since the timers last counted down.
    pub timer_phase: u64,
    /// The packed frame buffer.
    pub display: Seq<u8>,
    /// The bitmap of held keys.
    pub keys: u16,
    pub paused: bool,
    /// Waiting for a key press.
    pub blocking: bool,
    /// The register that the awaited key goes to.
    pub pending: Option<u8>,
}

/// An address the program counter may hold: even and inside memory.
pub open spec fn valid_pc(addr: int) -> bool {
    addr % 2 == 0 && 0 <= addr < MEMORY_SIZE
}

/// `len` bytes from `addr` lie inside memory.
pub open spec fn readable(addr: int, len: int) -> bool {
    addr + len <= MEMORY_SIZE
}

/// `len` bytes from `addr` lie inside memory and outside the font.
pub open spec fn writable(addr: int, len: int) -> bool {
    &&& readable(addr, len)
    &&& (addr + len <= FONT_START_ADDR || addr >= FONT_START_ADDR + FONT_LEN)
}

impl CpuState {
    /// The invariant of every reachable state.
    pub open spec fn wf(self) -> bool {
        &&& valid_pc(self.pc as int)
        &&& self.reg.len() == REGISTER_COUNT
        &&& self.mem.len() == MEMORY_SIZE
        &&& self.display.len() == FRAME_BYTES
        &&& self.stack.len() <= STACK_SIZE
        &&& forall|k: int| 0 <= k < self.stack.len() ==> valid_pc(#[trigger] self.stack[k] as int)
        &&& self.mem.subrange(FONT_START_ADDR as int, (FONT_START_ADDR + FONT_LEN) as int) == font()
        &&& self.timer_phase < TIMER_PERIOD_NANOS
        &&& self.blocking <==> self.pending.is_some()
        &&& self.pending matches Some(r) ==> r < REGISTER_COUNT
    }

    /// This state with the program counter set to `pc`.
    pub open spec fn with_pc(self, pc: int) -> CpuState {
        CpuState { pc: pc as u16, ..self }
    }

    /// This state with register `x` set to `v`.
    pub open spec fn with_reg(self, x: u8, v: u8) -> CpuState {
        CpuState { reg: self.reg.update(x as int, v), ..self }
    }
}

/// `next`, with the program counter moved `n` bytes past that of `s`; or
/// `MemoryOutOfBounds`, and nothing changed, where that leaves memory.
pub open spec fn advance(s: CpuState, next: CpuState, n: int) -> Result<CpuState, CpuError> {
    if s.pc + n < MEMORY_SIZE {
        Ok(next.with_pc(s.pc + n))
    } else {
        Err(CpuError::MemoryOutOfBounds)
    }
}

/// A jump to `target`, or `MemoryOutOfBounds` where the program counter may not hold it.
pub open spec fn jump(s: CpuState, target: int) -> Result<CpuState, CpuError> {
    if valid_pc(target) {
        Ok(s.with_pc(target))
    } else {
        Err(CpuError::MemoryOutOfBounds)
    }
}

/// Skip the next instruction when `cond` holds.
pub open spec fn skip_if(s: CpuState, cond: bool) -> Result<CpuState, CpuError> {
    advance(s, s, if cond { 4 } else { 2 })
}

/// Sets Vx to `v`, then moves on.
pub open spec fn set_reg(s: CpuState, x: u8, v: int) -> Result<CpuState, CpuError> {
    advance(s, s.with_reg(x, v as u8), 2)
}

/// Sets VF to `flag`, then Vx to `v` (so Vx wins where x is F), then moves on.
pub open spec fn set_reg_flag(s: CpuState, x: u8, v: int, flag: bool) -> Result<CpuState, CpuError> {
    advance(s, s.with_reg(FLAG as u8, if flag { 1 } else { 0 }).with_reg(x, v as u8), 2)
}

/// Memory with the three decimal digits of `v` stored from `addr`.
pub open spec fn bcd_store(mem: Seq<u8>, addr: int, v: u8) -> Seq<u8> {
    mem.update(addr, v / 100).update(addr + 1, (v / 10) % 10).update(addr + 2, v % 10)
}

/// Memory with registers V0..=Vx stored from `addr`.
pub open spec fn regs_store(mem: Seq<u8>, reg: Seq<u8>, addr: int, x: int) -> Seq<u8> {
    Seq::new(mem.len(), |a: int| if addr <= a <= addr + x { reg[a - addr] } else { mem[a] })
}

/// Registers with V0..=Vx loaded from memory at `addr`.
pub open spec fn regs_load(reg: Seq<u8>, mem: Seq<u8>, addr: int, x: int) -> Seq<u8> {
    Seq::new(reg.len(), |k: int| if k <= x { mem[addr + k] } else { reg[k] })
}

/// The result of running `ins` on `s`, with `rnd` as the random byte that
/// `Cxkk` draws. On an error nothing changes.
pub open spec fn step(s: CpuState, ins: Instruction, rnd: u8) -> Result<CpuState, CpuError> {
    match ins {
        Instruction::Cls => advance(
            s,
            CpuState { display: Seq::new(FRAME_BYTES as nat, |k: int| 0u8), ..s },
            2,
        ),
        Instruction::Ret => {
            if s.stack.len() == 0 {
                Err(CpuError::EmptyStack)
            } else {
                Ok(CpuState { pc: s.stack.last(), stack: s.stack.drop_last(), ..s })
            }
        },
        Instruction::Jp(a) => jump(s, a as int),
        Instruction::Call(a) => {
            if s.stack.len() >= STACK_SIZE {
                Err(CpuError::StackOverflow)
            } else {
                jump(CpuState { stack: s.stack.push(s.pc), ..s }, a as int)
            }
        },
        Instruction::SeByte(x, kk) => skip_if(s, s.reg[x as int] == kk),
        Instruction::SneByte(x, kk) => skip_if(s, s.reg[x as int] != kk),
        Instruction::SeReg(x, y) => skip_if(s, s.reg[x as int] == s.reg[y as int]),
        Instruction::SneReg(x, y) => skip_if(s, s.reg[x as int] != s.reg[y as int]),
        Instruction::LdByte(x, kk) => set_reg(s, x, kk as int),
        Instruction::AddByte(x, kk) => set_reg(s, x, (s.reg[x as int] + kk) % 256),
        Instruction::LdReg(x, y) => set_reg(s, x, s.reg[y as int] as int),
        Instruction::Or(x, y) => set_reg(s, x, (s.reg[x as int] | s.reg[y as int]) as int),
        Instruction::And(x, y) => set_reg(s, x, (s.reg[x as int] & s.reg[y as int]) as int),
        Instruction::Xor(x, y) => set_reg(s, x, (s.reg[x as int] ^ s.reg[y as int]) as int),
        Instruction::AddReg(x, y) => {
            let sum = s.reg[x as int] + s.reg[y as int];
            set_reg_flag(s, x, sum % 256, sum > 255)
        },
        Instruction::Sub(x, y) => {
            let (vx, vy) = (s.reg[x as int], s.reg[y as int]);
            set_reg_flag(s, x, (vx - vy + 256) % 256, vx > vy)
        },
        Instruction::Subn(x, y) => {
            let (vx, vy) = (s.reg[x as int], s.reg[y as int]);
            set_reg_flag(s, x, (vy - vx + 256) % 256, vy > vx)
        },
        Instruction::Shr(x) => {
            let vx = s.reg[x as int];
            set_reg_flag(s, x, vx as int / 2, vx % 2 == 1)
        },
        Instruction::Shl(x) => {
            let vx = s.reg[x as int];
            set_reg_flag(s, x, (vx * 2) % 256, vx >= 128)
        },
        Instruction::LdI(a) => advance(s, CpuState { i: a, ..s }, 2),
        Instruction::JpV0(a) => jump(s, a + s.reg[0]),
        Instruction::Rnd(x, kk) => set_reg(s, x, (rnd & kk) as int),
        Instruction::Drw(x, y, n) => {
            if readable(s.i as int, n as int) {
                let sx = s.reg[x as int] as int % (SCREEN_WIDTH as int);
                let sy = s.reg[y as int] as int % (SCREEN_HEIGHT as int);
                let sprite = s.mem.subrange(s.i as int, s.i + n);
                let hit = draw_collides(s.display, sx, sy, sprite);
                advance(
                    s,
                    CpuState {
                        display: draw_frame(s.display, sx, sy, sprite),
                        ..s.with_reg(FLAG as u8, if hit { 1 } else { 0 })
                    },
                    2,
                )
            } else {
                Err(CpuError::MemoryOutOfBounds)
            }
        },
        Instruction::Skp(x) => skip_if(s, key_down(s.keys, s.reg[x as int])),
        Instruction::Sknp(x) => skip_if(s, !key_down(s.keys, s.reg[x as int])),
        Instruction::LdVxDt(x) => set_reg(s, x, s.dt as int),
        Instruction::LdKey(x) => advance(s, CpuState { blocking: true, pending: Some(x), ..s }, 2),
        Instruction::LdDtVx(x) => advance(s, CpuState { dt: s.reg[x as int], ..s }, 2),
        Instruction::LdStVx(x) => advance(s, CpuState { st: s.reg[x as int], ..s }, 2),
        Instruction::AddI(x) => {
            let sum = s.i + s.reg[x as int];
            if sum <= u16::MAX {
                advance(s, CpuState { i: sum as u16, ..s }, 2)
            } else {
                Err(CpuError::MemoryOutOfBounds)
            }
        },
        Instruction::LdFont(x) => advance(
            s,
            CpuState { i: (FONT_START_ADDR + s.reg[x as int] * 5) as u16, ..s },
            2,
        ),
        Instruction::Bcd(x) => {
            if writable(s.i as int, 3) {
                advance(s, CpuState { mem: bcd_store(s.mem, s.i as int, s.reg[x as int]), ..s }, 2)
            } else {
                Err(CpuError::MemoryOutOfBounds)
            }
        },
        Instruction::StoreRegs(x) => {
            if writable(s.i as int, x + 1) {
                advance(s, CpuState { mem: regs_store(s.mem, s.reg, s.i as int, x as int), ..s }, 2)
            } else {
                Err(CpuError::MemoryOutOfBounds)
            }
        },
        Instruction::LoadRegs(x) => {
            if readable(s.i as int, x + 1) {
                advance(s, CpuState { reg: regs_load(s.reg, s.mem, s.i as int, x as int), ..s }, 2)
            } else {
                Err(CpuError::MemoryOutOfBounds)
            }
        },
    }
}

/// The instruction word at the program counter.
pub open spec fn fetch(s: CpuState) -> u16 {
    (s.mem[s.pc as int] * 256 + s.mem[s.pc + 1]) as u16
}

/// The result of fetching, decoding and running the instruction at the program counter.
pub open spec fn run_one(s: CpuState, rnd: u8) -> Result<CpuState, CpuError> {
    match decode_spec(fetch(s)) {
        Some(ins) => step(s, ins, rnd),
        None => Err(CpuError::UnknownOpcode),
    }
}

/// `r` and `new` are the outcome `expected` asks for: its state on success,
/// its error and the old state on failure.
pub open spec fn outcome(
    old: CpuState,
    new: CpuState,
    r: Result<(), CpuError>,
    expected: Result<CpuState, CpuError>,
) -> bool {
    match expected {
        Ok(s) => r is Ok && new == s,
        Err(e) => r == Err::<(), CpuError>(e) && new == old,
    }
}

/// `n` zero bytes.
pub open spec fn zeros(n: nat) -> Seq<u8> {
    Seq::new(n, |k: int| 0u8)
}

/// Memory as the machine starts: zero but for the font.
pub open spec fn initial_memory() -> Seq<u8> {
    Seq::new(
        MEMORY_SIZE as nat,
        |a: int|
            if FONT_START_ADDR <= a < FONT_START_ADDR + FONT_LEN {
                font()[a - FONT_START_ADDR]
            } else {
                0u8
            },
    )
}

/// The state of a machine just built: everything zero or empty but the font.
pub open spec fn initial_state() -> CpuState {
    CpuState {
        pc: 0,
        i: 0,
        reg: zeros(REGISTER_COUNT as nat),
        mem: initial_memory(),
        stack: Seq::empty(),
        dt: 0,
        st: 0,
        timer_phase: 0,
        display: zeros(FRAME_BYTES as nat),
        keys: 0,
        paused: false,
        blocking: false,
        pending: None,
    }
}

/// Memory after loading `program`: at most the program space is filled from
/// its start, the rest of it zeroed, and the bytes below it kept.
pub open spec fn loaded_memory(mem: Seq<u8>, program: Seq<u8>) -> Seq<u8> {
    Seq::new(
        mem.len(),
        |a: int|
            if a < PROGRAM_ENTRY_POINT {
                mem[a]
            } else if a - PROGRAM_ENTRY_POINT < program.len() {
                program[a - PROGRAM_ENTRY_POINT]
            } else {
                0u8
            },
    )
}

/// Whole timer periods in `phase + elapsed` nanoseconds.
pub open spec fn timer_ticks(phase: int, elapsed: int) -> int {
    (phase + elapsed) / (TIMER_PERIOD_NANOS as int)
}

/// The nanoseconds left over after those periods.
pub open spec fn timer_phase_after(phase: int, elapsed: int) -> int {
    (phase + elapsed) % (TIMER_PERIOD_NANOS as int)
}

/// A timer holding `v` after counting down `ticks` times; it stops at zero.
pub open spec fn countdown(v: u8, ticks: int) -> u8 {
    if ticks >= v {
        0
    } else {
        (v - ticks) as u8
    }
}

/// The state after `elapsed` nanoseconds of wall-clock time: each timer
/// counts down once per whole period, carried over from earlier calls.
pub open spec fn timers_after(s: CpuState, elapsed: int) -> CpuState {
    let n = timer_ticks(s.timer_phase as int, elapsed);
    CpuState {
        dt: countdown(s.dt, n),
        st: countdown(s.st, n),
        timer_phase: timer_phase_after(s.timer_phase as int, elapsed) as u64,
        ..s
    }
}

/// The state after the awaited key `key` arrived: it goes to the waiting
/// register and the wait ends. Without a wait nothing changes.
pub open spec fn unblocked(s: CpuState, key: u8) -> CpuState {
    match s.pending {
        Some(x) if s.blocking => CpuState {
            reg: s.reg.update(x as int, key),
            blocking: false,
            pending: None,
            ..s
        },
        _ => s,
    }
}

/// Registers, memory, stack, timers, the display and the key state: the instruction engine.
pub struct Cpu {
    pc: u16,
    i: u16,
    reg: Vec<u8>,
    mem: Vec<u8>,
    stk: Vec<u16>,
    dt: u8,
    st: u8,
    timer_phase: u64,
    dct: DisplayController,
    ict: InputController,
    paused: bool,
    blocking: bool,
    reg_to_write: Option<u8>,
}

impl View for Cpu {
    type V = CpuState;

    closed spec fn view(&self) -> CpuState {
        CpuState {
            pc: self.pc,
            i: self.i,
            reg: self.reg@,
            mem: self.mem@,
            stack: self.stk@,
            dt: self.dt,
            st: self.st,
            timer_phase: self.timer_phase,
            display: self.dct@,
            keys: self.ict@,
            paused: self.paused,
            blocking: self.blocking,
            pending: self.reg_to_write,
        }
    }
}

/// `n` zero bytes.
fn zero_bytes(n: usize) -> (r: Vec<u8>)
    ensures
        r@ == zeros(n as nat),
{
    let mut r: Vec<u8> = Vec::new();
    let mut k: usize = 0;
    while k < n
        invariant
            k <= n,
            r@ == zeros(k as nat),
        decreases n - k,
    {
        r.push(0);
        k = k + 1;
        assert(r@ =~= zeros(k as nat));
    }
    r
}

impl Default for Cpu {
    fn default() -> (r: Self)
        ensures
            r@ == initial_state(),
            r.wf(),
    {
        Cpu::new()
    }
}

impl Cpu {
    /// The machine invariant holds.
    pub open spec fn wf(&self) -> bool {
        self@.wf()
    }

    /// A machine with zeroed memory, registers and display, and the font loaded.
    pub fn new() -> (r: Self)
        ensures
            r@ == initial_state(),
            r.wf(),
    {
        let mut ret = Cpu {
            pc: 0,
            i: 0,
            reg: zero_bytes(REGISTER_COUNT),
            mem: zero_bytes(MEMORY_SIZE),
            stk: Vec::new(),
            dt: 0,
            st: 0,
            timer_phase: 0,
            dct: DisplayController::default(),
            ict: InputController::default(),
            paused: false,
            blocking: false,
            reg_to_write: None,
        };
        ret.load_font();
        proof {
            lemma_font_len();
        }
        assert(ret.mem@ =~= initial_memory());
        assert(ret.dct@ =~= zeros(FRAME_BYTES as nat));
        assert(initial_memory().subrange(FONT_START_ADDR as int, (FONT_START_ADDR + FONT_LEN) as int)
            =~= font());
        ret
    }

    /// Copies the font into its place in memory.
    fn load_font(&mut self)
        requires
            old(self).mem@.len() == MEMORY_SIZE,
        ensures
            final(self)@ == (CpuState {
                mem: Seq::new(
                    MEMORY_SIZE as nat,
                    |a: int|
                        if FONT_START_ADDR <= a < FONT_START_ADDR + FONT_LEN {
                            font()[a - FONT_START_ADDR]
                        } else {
                            old(self).mem@[a]
                        },
                ),
                ..old(self)@
            }),
    {
        let glyphs = font_bytes();
        proof {
            lemma_font_len();
        }
        let mut k: usize = 0;
        while k < FONT_LEN
            invariant
                k <= FONT_LEN,
                glyphs@ == font(),
                font().len() == FONT_LEN,
                self.mem@.len() == MEMORY_SIZE,
                forall|a: int|
                    0 <= a < MEMORY_SIZE ==> #[trigger] self.mem@[a] == if FONT_START_ADDR <= a
                        < FONT_START_ADDR + k {
                        font()[a - FONT_START_ADDR]
                    } else {
                        old(self).mem@[a]
                    },
                self@ == (CpuState { mem: self.mem@, ..old(self)@ }),
            decreases FONT_LEN - k,
        {
            self.mem.set(FONT_START_ADDR + k, glyphs[k]);
            k = k + 1;
        }
        assert(self.mem@ =~= Seq::new(
            MEMORY_SIZE as nat,
            |a: int|
                if FONT_START_ADDR <= a < FONT_START_ADDR + FONT_LEN {
                    font()[a - FONT_START_ADDR]
                } else {
                    old(self).mem@[a]
                },
        ));
    }

    /// Copies `program` into program space from its start, at most as many
    /// bytes as fit; the rest of program space is zeroed.
    pub fn load_program(&mut self, program: &Vec<u8>)
        requires
            old(self).wf(),
        ensures
            final(self).wf(),
            final(self)@ == (CpuState { mem: loaded_memory(old(self)@.mem, program@), ..old(self)@ }),
    {
        let mut a: usize = PROGRAM_ENTRY_POINT;
        while a < MEMORY_SIZE
            invariant
                PROGRAM_ENTRY_POINT <= a <= MEMORY_SIZE,
                self.mem@.len() == MEMORY_SIZE,
                old(self).wf(),
                forall|b: int|
                    0 <= b < MEMORY_SIZE ==> #[trigger] self.mem@[b] == if b < a {
                        loaded_memory(old(self)@.mem, program@)[b]
                    } else {
                        old(self)@.mem[b]
                    },
                self@ == (CpuState { mem: self.mem@, ..old(self)@ }),
            decreases MEMORY_SIZE - a,
        {
            let k = a - PROGRAM_ENTRY_POINT;
            let byte = if k < program.len() {
                program[k]
            } else {
                0
            };
            self.mem.set(a, byte);
            a = a + 1;
        }
        assert(self.mem@ =~= loaded_memory(old(self)@.mem, program@));
        assert(self.mem@.subrange(FONT_START_ADDR as int, (FONT_START_ADDR + FONT_LEN) as int)
            =~= old(self)@.mem.subrange(FONT_START_ADDR as int, (FONT_START_ADDR + FONT_LEN) as int));
    }

    /// Stops instruction execution after an error.
    pub fn pause(&mut self)
        requires
            old(self).wf(),
        ensures
            final(self).wf(),
            final(self)@ == (CpuState { paused: true, ..old(self)@ }),
    {
        self.paused = true;
    }

    /// Whether execution was stopped by an error.
    pub fn paused(&self) -> (r: bool)
        ensures
            r == self@.paused,
    {
        self.paused
    }

    /// Whether the machine waits for a key press.
    pub fn is_blocking(&self) -> (r: bool)
        ensures
            r == self@.blocking,
    {
        self.blocking
    }

    /// Delivers the awaited key: writes `key` into the waiting register and
    /// ends the wait. Without a wait it changes nothing.
    pub fn unblock(&mut self, key: u8)
        requires
            old(self).wf(),
        ensures
            final(self).wf(),
            final(self)@ == unblocked(old(self)@, key),
    {
        if self.blocking {
            match self.reg_to_write {
                Some(r) => {
                    self.reg.set(r as usize, key);
                },
                None => {},
            }
            self.reg_to_write = None;
            self.blocking = false;
        }
    }

    /// Applies a key event to the key state.
    pub fn update_key(&mut self, key: u8, status: &KeyStatus)
        requires
            old(self).wf(),
        ensures
            final(self).wf(),
            final(self)@ == (CpuState { keys: updated_bits(old(self)@.keys, key, *status), ..old(self)@ }),
    {
        self.ict.update_key(key, status);
    }

    /// Counts the timers down by the whole periods in `elapsed_nanos` and the
    /// time carried over from earlier calls; they stop at zero.
    pub fn timer_tick(&mut self, elapsed_nanos: u64)
        requires
            old(self).wf(),
        ensures
            final(self).wf(),
            final(self)@ == timers_after(old(self)@, elapsed_nanos as int),
    {
        let carried = self.timer_phase + elapsed_nanos % TIMER_PERIOD_NANOS;
        let ticks: u64 = elapsed_nanos / TIMER_PERIOD_NANOS + carried / TIMER_PERIOD_NANOS;
        proof {
            lemma_split_elapsed(self.timer_phase as int, elapsed_nanos as int, TIMER_PERIOD_NANOS as int);
        }
        self.timer_phase = carried % TIMER_PERIOD_NANOS;
        self.dt = if ticks >= self.dt as u64 {
            0
        } else {
            self.dt - ticks as u8
        };
        self.st = if ticks >= self.st as u64 {
            0
        } else {
            self.st - ticks as u8
        };
    }
}

impl Cpu {
    /// Writes `v` into register `x`.
    fn write_reg(&mut self, x: u8, v: u8)
        requires
            old(self).wf(),
            x < REGISTER_COUNT,
        ensures
            final(self).wf(),
            final(self)@ == old(self)@.with_reg(x, v),
    {
        self.reg.set(x as usize, v);
    }

    /// Moves the program counter on by `n`, or fails with `MemoryOutOfBounds`,
    /// changing nothing, where that would leave memory.
    fn increment_pc(&mut self, n: u16) -> (r: Result<(), CpuError>)
        requires
            old(self).wf(),
            n == 2 || n == 4,
        ensures
            final(self).wf(),
            outcome(old(self)@, final(self)@, r, advance(old(self)@, old(self)@, n as int)),
    {
        if self.pc + n >= MEMORY_SIZE as u16 {
            return Err(CpuError::MemoryOutOfBounds);
        }
        self.pc = self.pc + n;
        Ok(())
    }

    /// Moves on by one instruction, or by two where `cond` holds.
    fn skip_if(&mut self, cond: bool) -> (r: Result<(), CpuError>)
        requires
            old(self).wf(),
        ensures
            final(self).wf(),
            outcome(old(self)@, final(self)@, r, skip_if(old(self)@, cond)),
    {
        if cond {
            self.increment_pc(4)
        } else {
            self.increment_pc(2)
        }
    }

    /// Sets the program counter to `target`, or fails with `MemoryOutOfBounds`
    /// where it may not hold that address.
    fn jump_to(&mut self, target: u16) -> (r: Result<(), CpuError>)
        requires
            old(self).wf(),
        ensures
            final(self).wf(),
            outcome(old(self)@, final(self)@, r, jump(old(self)@, target as int)),
    {
        if target % 2 != 0 || target as usize >= MEMORY_SIZE {
            return Err(CpuError::MemoryOutOfBounds);
        }
        self.pc = target;
        Ok(())
    }

    /// Sets VF to `flag` and then Vx to `v`, and moves on.
    fn write_reg_flag(&mut self, x: u8, v: u8, flag: bool) -> (r: Result<(), CpuError>)
        requires
            old(self).wf(),
            x < REGISTER_COUNT,
        ensures
            final(self).wf(),
            outcome(old(self)@, final(self)@, r, set_reg_flag(old(self)@, x, v as int, flag)),
    {
        self.increment_pc(2)?;
        self.write_reg(
            FLAG as u8,
            if flag {
                1
            } else {
                0
            },
        );
        self.write_reg(x, v);
        Ok(())
    }

    /// Sets Vx to `v` and moves on.
    fn load_reg(&mut self, x: u8, v: u8) -> (r: Result<(), CpuError>)
        requires
            old(self).wf(),
            x < REGISTER_COUNT,
        ensures
            final(self).wf(),
            outcome(old(self)@, final(self)@, r, set_reg(old(self)@, x, v as int)),
    {
        self.increment_pc(2)?;
        self.write_reg(x, v);
        Ok(())
    }

    /// 00E0 - CLS: clears the display.
    fn cls(&mut self) -> (r: Result<(), CpuError>)
        requires
            old(self).wf(),
        ensures
            final(self).wf(),
            outcome(old(self)@, final(self)@, r, step(old(self)@, Instruction::Cls, 0)),
    {
        self.increment_pc(2)?;
        self.dct.clear_screen();
        Ok(())
    }

    /// 00EE - RET: pops the address at the top of the stack into the program counter.
    fn ret(&mut self) -> (r: Result<(), CpuError>)
        requires
            old(self).wf(),
        ensures
            final(self).wf(),
            outcome(old(self)@, final(self)@, r, step(old(self)@, Instruction::Ret, 0)),
    {
        let depth = self.stk.len();
        if depth == 0 {
            return Err(CpuError::EmptyStack);
        }
        let top = self.stk[depth - 1];
        proof {
            assert(valid_pc(self.stk@[depth - 1] as int));
        }
        self.stk.pop();
        self.pc = top;
        proof {
            assert(self.stk@ =~= old(self)@.stack.drop_last());
        }
        Ok(())
    }

    /// 2nnn - CALL addr: pushes the program counter and jumps to `addr`.
    fn call(&mut self, addr: u16) -> (r: Result<(), CpuError>)
        requires
            old(self).wf(),
        ensures
            final(self).wf(),
            outcome(old(self)@, final(self)@, r, step(old(self)@, Instruction::Call(addr), 0)),
    {
        if self.stk.len() >= STACK_SIZE {
            return Err(CpuError::StackOverflow);
        }
        if addr % 2 != 0 || addr as usize >= MEMORY_SIZE {
            return Err(CpuError::MemoryOutOfBounds);
        }
        self.stk.push(self.pc);
        self.pc = addr;
        Ok(())
    }

    /// 8xy4 - ADD Vx, Vy: VF = carry, Vx = the low byte of the sum.
    fn addxy(&mut self, x: u8, y: u8) -> (r: Result<(), CpuError>)
        requires
            old(self).wf(),
            x < REGISTER_COUNT,
            y < REGISTER_COUNT,
        ensures
            final(self).wf(),
            outcome(old(self)@, final(self)@, r, step(old(self)@, Instruction::AddReg(x, y), 0)),
    {
        let sum = self.reg[x as usize] as u16 + self.reg[y as usize] as u16;
        self.write_reg_flag(x, (sum % 256) as u8, sum > 255)
    }

    /// 8xy5 - SUB Vx, Vy: VF = 1 iff Vx > Vy, Vx = Vx - Vy wrapping.
    fn subxy(&mut self, x: u8, y: u8) -> (r: Result<(), CpuError>)
        requires
            old(self).wf(),
            x < REGISTER_COUNT,
            y < REGISTER_COUNT,
        ensures
            final(self).wf(),
            outcome(old(self)@, final(self)@, r, step(old(self)@, Instruction::Sub(x, y), 0)),
    {
        let vx = self.reg[x as usize];
        let vy = self.reg[y as usize];
        let diff = ((vx as u16 + 256 - vy as u16) % 256) as u8;
        self.write_reg_flag(x, diff, vx > vy)
    }

    /// 8xy7 - SUBN Vx, Vy: VF = 1 iff Vy > Vx, Vx = Vy - Vx wrapping.
    fn subnxy(&mut self, x: u8, y: u8) -> (r: Result<(), CpuError>)
        requires
            old(self).wf(),
            x < REGISTER_COUNT,
            y < REGISTER_COUNT,
        ensures
            final(self).wf(),
            outcome(old(self)@, final(self)@, r, step(old(self)@, Instruction::Subn(x, y), 0)),
    {
        let vx = self.reg[x as usize];
        let vy = self.reg[y as usize];
        let diff = ((vy as u16 + 256 - vx as u16) % 256) as u8;
        self.write_reg_flag(x, diff, vy > vx)
    }

    /// 8xy6 - SHR Vx: VF = the low bit of Vx, Vx = Vx / 2.
    fn shrx(&mut self, x: u8) -> (r: Result<(), CpuError>)
        requires
            old(self).wf(),
            x < REGISTER_COUNT,
        ensures
            final(self).wf(),
            outcome(old(self)@, final(self)@, r, step(old(self)@, Instruction::Shr(x), 0)),
    {
        let vx = self.reg[x as usize];
        self.write_reg_flag(x, vx / 2, vx % 2 == 1)
    }

    /// 8xyE - SHL Vx: VF = the high bit of Vx, Vx = Vx * 2 wrapping.
    fn shlx(&mut self, x: u8) -> (r: Result<(), CpuError>)
        requires
            old(self).wf(),
            x < REGISTER_COUNT,
        ensures
            final(self).wf(),
            outcome(old(self)@, final(self)@, r, step(old(self)@, Instruction::Shl(x), 0)),
    {
        let vx = self.reg[x as usize];
        self.write_reg_flag(x, ((vx as u16 * 2) % 256) as u8, vx >= 128)
    }

    /// Dxyn - DRW Vx, Vy, n: draws the n bytes at I at (Vx mod 64, Vy mod 32); VF = collision.
    fn drwxy(&mut self, x: u8, y: u8, n: u8) -> (r: Result<(), CpuError>)
        requires
            old(self).wf(),
            x < REGISTER_COUNT,
            y < REGISTER_COUNT,
            n < 16,
        ensures
            final(self).wf(),
            outcome(old(self)@, final(self)@, r, step(old(self)@, Instruction::Drw(x, y, n), 0)),
    {
        let start = self.i as usize;
        if start + n as usize > MEMORY_SIZE {
            return Err(CpuError::MemoryOutOfBounds);
        }
        self.increment_pc(2)?;
        let mut sprite: Vec<u8> = Vec::new();
        let mut j: usize = 0;
        while j < n as usize
            invariant
                j <= n,
                start + n <= MEMORY_SIZE,
                self.mem@.len() == MEMORY_SIZE,
                sprite@ == self.mem@.subrange(start as int, start + j),
            decreases n - j,
        {
            sprite.push(self.mem[start + j]);
            j = j + 1;
            assert(sprite@ =~= self.mem@.subrange(start as int, start + j));
        }
        let sx = self.reg[x as usize] as usize % SCREEN_WIDTH;
        let sy = self.reg[y as usize] as usize % SCREEN_HEIGHT;
        let hit = self.dct.draw(sx, sy, sprite);
        self.write_reg(FLAG as u8, hit);
        Ok(())
    }

    /// Fx0A - LD Vx, K: waits for a key press that goes to Vx.
    fn ldxk(&mut self, x: u8) -> (r: Result<(), CpuError>)
        requires
            old(self).wf(),
            x < REGISTER_COUNT,
        ensures
            final(self).wf(),
            outcome(old(self)@, final(self)@, r, step(old(self)@, Instruction::LdKey(x), 0)),
    {
        self.increment_pc(2)?;
        self.reg_to_write = Some(x);
        self.blocking = true;
        Ok(())
    }

    /// Fx1E - ADD I, Vx: I = I + Vx; past the 16-bit range it is `MemoryOutOfBounds`.
    fn addix(&mut self, x: u8) -> (r: Result<(), CpuError>)
        requires
            old(self).wf(),
            x < REGISTER_COUNT,
        ensures
            final(self).wf(),
            outcome(old(self)@, final(self)@, r, step(old(self)@, Instruction::AddI(x), 0)),
    {
        let sum = self.i as u32 + self.reg[x as usize] as u32;
        if sum > u16::MAX as u32 {
            return Err(CpuError::MemoryOutOfBounds);
        }
        self.increment_pc(2)?;
        self.i = sum as u16;
        Ok(())
    }

    /// Fx33 - LD B, Vx: stores the hundreds, tens and ones digits of Vx at I, I+1, I+2.
    fn ldbx(&mut self, x: u8) -> (r: Result<(), CpuError>)
        requires
            old(self).wf(),
            x < REGISTER_COUNT,
        ensures
            final(self).wf(),
            outcome(old(self)@, final(self)@, r, step(old(self)@, Instruction::Bcd(x), 0)),
    {
        let addr = self.i as usize;
        if addr + 3 > MEMORY_SIZE || (addr + 3 > FONT_START_ADDR && addr < FONT_START_ADDR + FONT_LEN) {
            return Err(CpuError::MemoryOutOfBounds);
        }
        self.increment_pc(2)?;
        let v = self.reg[x as usize];
        self.mem.set(addr, v / 100);
        self.mem.set(addr + 1, (v / 10) % 10);
        self.mem.set(addr + 2, v % 10);
        proof {
            assert(self.mem@.subrange(FONT_START_ADDR as int, (FONT_START_ADDR + FONT_LEN) as int)
                =~= old(self)@.mem.subrange(FONT_START_ADDR as int, (FONT_START_ADDR + FONT_LEN) as int));
        }
        Ok(())
    }

    /// Fx55 - LD [I], Vx: stores V0..=Vx in memory from I.
    fn ldiax(&mut self, x: u8) -> (r: Result<(), CpuError>)
        requires
            old(self).wf(),
            x < REGISTER_COUNT,
        ensures
            final(self).wf(),
            outcome(old(self)@, final(self)@, r, step(old(self)@, Instruction::StoreRegs(x), 0)),
    {
        let addr = self.i as usize;
        let len = x as usize + 1;
        if addr + len > MEMORY_SIZE || (addr + len > FONT_START_ADDR && addr < FONT_START_ADDR + FONT_LEN) {
            return Err(CpuError::MemoryOutOfBounds);
        }
        self.increment_pc(2)?;
        let ghost before = self@;
        let mut j: usize = 0;
        while j < len
            invariant
                j <= len,
                len == x + 1,
                x < REGISTER_COUNT,
                addr + len <= MEMORY_SIZE,
                before.mem.len() == MEMORY_SIZE,
                before.reg.len() == REGISTER_COUNT,
                self.mem@.len() == MEMORY_SIZE,
                forall|a: int|
                    0 <= a < MEMORY_SIZE ==> #[trigger] self.mem@[a] == if addr <= a < addr + j {
                        before.reg[a - addr]
                    } else {
                        before.mem[a]
                    },
                self@ == (CpuState { mem: self.mem@, ..before }),
            decreases len - j,
        {
            let v = self.reg[j];
            self.mem.set(addr + j, v);
            j = j + 1;
        }
        proof {
            assert(self.mem@ =~= regs_store(before.mem, before.reg, addr as int, x as int));
            assert(self.mem@.subrange(FONT_START_ADDR as int, (FONT_START_ADDR + FONT_LEN) as int)
                =~= before.mem.subrange(FONT_START_ADDR as int, (FONT_START_ADDR + FONT_LEN) as int));
        }
        Ok(())
    }

    /// Fx65 - LD Vx, [I]: loads V0..=Vx from memory from I.
    fn ldxia(&mut self, x: u8) -> (r: Result<(), CpuError>)
        requires
            old(self).wf(),
            x < REGISTER_COUNT,
        ensures
            final(self).wf(),
            outcome(old(self)@, final(self)@, r, step(old(self)@, Instruction::LoadRegs(x), 0)),
    {
        let addr = self.i as usize;
        let len = x as usize + 1;
        if addr + len > MEMORY_SIZE {
            return Err(CpuError::MemoryOutOfBounds);
        }
        self.increment_pc(2)?;
        let ghost before = self@;
        let mut j: usize = 0;
        while j < len
            invariant
                j <= len,
                len == x + 1,
                x < REGISTER_COUNT,
                addr + len <= MEMORY_SIZE,
                before.mem.len() == MEMORY_SIZE,
                before.reg.len() == REGISTER_COUNT,
                self.reg@.len() == REGISTER_COUNT,
                forall|k: int|
                    0 <= k < REGISTER_COUNT ==> #[trigger] self.reg@[k] == if k < j {
                        before.mem[addr + k]
                    } else {
                        before.reg[k]
                    },
                self@ == (CpuState { reg: self.reg@, ..before }),
            decreases len - j,
        {
            let v = self.mem[addr + j];
            self.reg.set(j, v);
            j = j + 1;
        }
        proof {
            assert(self.reg@ =~= regs_load(before.reg, before.mem, addr as int, x as int));
        }
        Ok(())
    }
}

impl Cpu {
    /// Runs one decoded instruction, with `rnd` as the random byte for `Cxkk`.
    /// On an error nothing changes.
    pub fn execute(&mut self, ins: Instruction, rnd: u8) -> (r: Result<(), CpuError>)
        requires
            old(self).wf(),
            ins.wf(),
        ensures
            final(self).wf(),
            outcome(old(self)@, final(self)@, r, step(old(self)@, ins, rnd)),
    {
        match ins {
            Instruction::Cls => self.cls(),
            Instruction::Ret => self.ret(),
            Instruction::Jp(addr) => self.jump_to(addr),
            Instruction::Call(addr) => self.call(addr),
            Instruction::SeByte(x, kk) => self.skip_if(self.reg[x as usize] == kk),
            Instruction::SneByte(x, kk) => self.skip_if(self.reg[x as usize] != kk),
            Instruction::SeReg(x, y) => self.skip_if(self.reg[x as usize] == self.reg[y as usize]),
            Instruction::SneReg(x, y) => self.skip_if(self.reg[x as usize] != self.reg[y as usize]),
            Instruction::LdByte(x, kk) => self.load_reg(x, kk),
            Instruction::AddByte(x, kk) => {
                let sum = self.reg[x as usize] as u16 + kk as u16;
                self.load_reg(x, (sum % 256) as u8)
            },
            Instruction::LdReg(x, y) => self.load_reg(x, self.reg[y as usize]),
            Instruction::Or(x, y) => self.load_reg(x, self.reg[x as usize] | self.reg[y as usize]),
            Instruction::And(x, y) => self.load_reg(x, self.reg[x as usize] & self.reg[y as usize]),
            Instruction::Xor(x, y) => self.load_reg(x, self.reg[x as usize] ^ self.reg[y as usize]),
            Instruction::AddReg(x, y) => self.addxy(x, y),
            Instruction::Sub(x, y) => self.subxy(x, y),
            Instruction::Shr(x) => self.shrx(x),
            Instruction::Subn(x, y) => self.subnxy(x, y),
            Instruction::Shl(x) => self.shlx(x),
            Instruction::LdI(addr) => {
                self.increment_pc(2)?;
                self.i = addr;
                Ok(())
            },
            Instruction::JpV0(addr) => self.jump_to(addr + self.reg[0] as u16),
            Instruction::Rnd(x, kk) => self.load_reg(x, rnd & kk),
            Instruction::Drw(x, y, n) => self.drwxy(x, y, n),
            Instruction::Skp(x) => {
                let key = self.reg[x as usize];
                self.skip_if(self.ict.key_pressed(key))
            },
            Instruction::Sknp(x) => {
                let key = self.reg[x as usize];
                self.skip_if(!self.ict.key_pressed(key))
            },
            Instruction::LdVxDt(x) => self.load_reg(x, self.dt),
            Instruction::LdKey(x) => self.ldxk(x),
            Instruction::LdDtVx(x) => {
                self.increment_pc(2)?;
                self.dt = self.reg[x as usize];
                Ok(())
            },
            Instruction::LdStVx(x) => {
                self.increment_pc(2)?;
                self.st = self.reg[x as usize];
                Ok(())
            },
            Instruction::AddI(x) => self.addix(x),
            Instruction::LdFont(x) => {
                self.increment_pc(2)?;
                self.i = FONT_START_ADDR as u16 + self.reg[x as usize] as u16 * 5;
                Ok(())
            },
            Instruction::Bcd(x) => self.ldbx(x),
            Instruction::StoreRegs(x) => self.ldiax(x),
            Instruction::LoadRegs(x) => self.ldxia(x),
        }
    }

    /// Fetches the instruction at the program counter, decodes it and runs
    /// it, with `rnd` as the random byte for `Cxkk`. On an error nothing changes.
    pub fn exec_routine_with(&mut self, rnd: u8) -> (r: Result<(), CpuError>)
        requires
            old(self).wf(),
        ensures
            final(self).wf(),
            outcome(old(self)@, final(self)@, r, run_one(old(self)@, rnd)),
    {
        let pc = self.pc as usize;
        let inst: u16 = self.mem[pc] as u16 * 256 + self.mem[pc + 1] as u16;
        let ins = decode(inst)?;
        self.execute(ins, rnd)
    }

    /// Fetches, decodes and runs the instruction at the program counter,
    /// drawing a fresh random byte for `Cxkk`. On an error nothing changes.
    pub fn exec_routine(&mut self) -> (r: Result<(), CpuError>)
        requires
            old(self).wf(),
        ensures
            final(self).wf(),
            exists|rnd: u8| outcome(old(self)@, final(self)@, r, #[trigger] run_one(old(self)@, rnd)),
    {
        let rnd: u8 = rand::random::<u8>();
        self.exec_routine_with(rnd)
    }
}

/// Relies on rand::random: it returns a value of the requested type, drawn
/// from the thread-local generator; nothing is promised about which. It
/// panics only if the operating system cannot seed that generator.
pub assume_specification<T>[ rand::random::<T> ]() -> (r: T)
    where
        rand::distributions::Standard: rand::distributions::Distribution<T>,
;

impl Cpu {
    /// The instruction engine's display.
    pub fn display(&self) -> (r: &DisplayController)
        ensures
            r@ == self@.display,
            r.wf() <== self.wf(),
    {
        &self.dct
    }

    /// Sets the program counter; an odd address or one outside memory is
    /// refused with `MemoryOutOfBounds`.
    pub fn set_pc(&mut self, pc: u16) -> (r: Result<(), CpuError>)
        requires
            old(self).wf(),
        ensures
            final(self).wf(),
            outcome(old(self)@, final(self)@, r, jump(old(self)@, pc as int)),
    {
        self.jump_to(pc)
    }

    /// The program counter.
    pub fn pc(&self) -> (r: u16)
        ensures
            r == self@.pc,
    {
        self.pc
    }

    /// The index register I.
    pub fn index(&self) -> (r: u16)
        ensures
            r == self@.i,
    {
        self.i
    }

    /// Sets the index register I.
    pub fn set_index(&mut self, i: u16)
        requires
            old(self).wf(),
        ensures
            final(self).wf(),
            final(self)@ == (CpuState { i, ..old(self)@ }),
    {
        self.i = i;
    }

    /// Register Vx.
    pub fn register(&self, x: u8) -> (r: u8)
        requires
            self.wf(),
            x < REGISTER_COUNT,
        ensures
            r == self@.reg[x as int],
    {
        self.reg[x as usize]
    }

    /// Sets register Vx.
    pub fn set_register(&mut self, x: u8, v: u8)
        requires
            old(self).wf(),
            x < REGISTER_COUNT,
        ensures
            final(self).wf(),
            final(self)@ == old(self)@.with_reg(x, v),
    {
        self.write_reg(x, v);
    }

    /// The byte of memory at `addr`.
    pub fn memory(&self, addr: u16) -> (r: u8)
        requires
            self.wf(),
            addr < MEMORY_SIZE,
        ensures
            r == self@.mem[addr as int],
    {
        self.mem[addr as usize]
    }

    /// Writes `v` to memory at `addr`; the font and addresses outside memory
    /// are refused with `MemoryOutOfBounds`.
    pub fn set_memory(&mut self, addr: u16, v: u8) -> (r: Result<(), CpuError>)
        requires
            old(self).wf(),
        ensures
            final(self).wf(),
            outcome(
                old(self)@,
                final(self)@,
                r,
                if writable(addr as int, 1) {
                    Ok(CpuState { mem: old(self)@.mem.update(addr as int, v), ..old(self)@ })
                } else {
                    Err(CpuError::MemoryOutOfBounds)
                },
            ),
    {
        let a = addr as usize;
        if a >= MEMORY_SIZE || (a + 1 > FONT_START_ADDR && a < FONT_START_ADDR + FONT_LEN) {
            return Err(CpuError::MemoryOutOfBounds);
        }
        self.mem.set(a, v);
        proof {
            assert(self.mem@.subrange(FONT_START_ADDR as int, (FONT_START_ADDR + FONT_LEN) as int)
                =~= old(self)@.mem.subrange(FONT_START_ADDR as int, (FONT_START_ADDR + FONT_LEN) as int));
        }
        Ok(())
    }

    /// The return addresses of the pending calls, innermost last.
    pub fn stack(&self) -> (r: &Vec<u16>)
        ensures
            r@ == self@.stack,
    {
        &self.stk
    }

    /// The delay timer.
    pub fn delay_timer(&self) -> (r: u8)
        ensures
            r == self@.dt,
    {
        self.dt
    }

    /// The sound timer.
    pub fn sound_timer(&self) -> (r: u8)
        ensures
            r == self@.st,
    {
        self.st
    }

    /// The key state.
    pub fn input(&self) -> (r: &InputController)
        ensures
            r@ == self@.keys,
    {
        &self.ict
    }

    /// The register that an awaited key goes to, while the machine waits for one.
    pub fn pending_register(&self) -> (r: Option<u8>)
        ensures
            r == self@.pending,
    {
        self.reg_to_write
    }
}

/// Splitting the elapsed time into whole periods and a remainder before
/// adding the carried phase gives the same periods and remainder.
proof fn lemma_split_elapsed(phase: int, elapsed: int, p: int)
    requires
        0 <= phase < p,
        0 <= elapsed,
    ensures
        (phase + elapsed) / p == elapsed / p + (phase + elapsed % p) / p,
        (phase + elapsed) % p == (phase + elapsed % p) % p,
{
    lemma_fundamental_div_mod(elapsed, p);
    let q = elapsed / p;
    let r = elapsed % p;
    assert(phase + elapsed == (phase + r) + q * p) by (nonlinear_arith)
        requires
            elapsed == p * q + r,
    ;
    lemma_hoist_over_denominator(phase + r, q, p as nat);
    lemma_mod_multiples_vanish(q, phase + r, p);
    assert(p * q + (phase + r) == (phase + r) + q * p) by (nonlinear_arith);
}

/// Skip instructions that succeed keep the machine invariant.
#[verifier::rlimit(50)]
proof fn lemma_skip_step_keeps_wf(s: CpuState, ins: Instruction, rnd: u8)
    requires
        s.wf(),
        ins.wf(),
        ins is SeByte || ins is SneByte || ins is SeReg || ins is SneReg || ins is Skp || ins is Sknp,
    ensures
        step(s, ins, rnd) matches Ok(s2) ==> s2.wf(),
{
}

/// Jumps, calls and returns that succeed keep the machine invariant.
#[verifier::rlimit(50)]
proof fn lemma_flow_step_keeps_wf(s: CpuState, ins: Instruction, rnd: u8)
    requires
        s.wf(),
        ins.wf(),
        ins is Cls || ins is Ret || ins is Jp || ins is Call || ins is JpV0,
    ensures
        step(s, ins, rnd) matches Ok(s2) ==> s2.wf(),
{
    match ins {
        Instruction::Ret => {
            if s.stack.len() > 0 {
                assert(valid_pc(s.stack[s.stack.len() - 1] as int));
                let rest = s.stack.drop_last();
                assert forall|k: int| 0 <= k < rest.len() implies valid_pc(#[trigger] rest[k] as int) by {
                    assert(rest[k] == s.stack[k]);
                }
            }
        },
        Instruction::Call(a) => {
            let pushed = s.stack.push(s.pc);
            assert forall|k: int| 0 <= k < pushed.len() implies valid_pc(#[trigger] pushed[k] as int) by {
                if k < s.stack.len() {
                    assert(pushed[k] == s.stack[k]);
                }
            }
        },
        _ => {},
    }
}

/// Register instructions that succeed keep the machine invariant.
#[verifier::rlimit(50)]
proof fn lemma_reg_step_keeps_wf(s: CpuState, ins: Instruction, rnd: u8)
    requires
        s.wf(),
        ins.wf(),
        ins is LdByte || ins is AddByte || ins is LdReg || ins is Or || ins is And || ins is Xor
            || ins is AddReg || ins is Sub || ins is Shr || ins is Subn || ins is Shl || ins is Rnd
            || ins is LdVxDt,
    ensures
        step(s, ins, rnd) matches Ok(s2) ==> s2.wf(),
{
}

/// Index, timer, key-wait, display and memory instructions that succeed keep
/// the machine invariant.
#[verifier::rlimit(50)]
proof fn lemma_data_step_keeps_wf(s: CpuState, ins: Instruction, rnd: u8)
    requires
        s.wf(),
        ins.wf(),
        ins is LdI || ins is Drw || ins is LdKey || ins is LdDtVx || ins is LdStVx || ins is AddI
            || ins is LdFont || ins is Bcd || ins is StoreRegs || ins is LoadRegs,
    ensures
        step(s, ins, rnd) matches Ok(s2) ==> s2.wf(),
{
    let font_lo = FONT_START_ADDR as int;
    let font_hi = (FONT_START_ADDR + FONT_LEN) as int;
    match ins {
        Instruction::Drw(x, y, n) => {
            let sx = s.reg[x as int] as int % (SCREEN_WIDTH as int);
            let sy = s.reg[y as int] as int % (SCREEN_HEIGHT as int);
            lemma_draw_frame_len(s.display, sx, sy, s.mem.subrange(s.i as int, s.i + n));
        },
        Instruction::Bcd(x) => {
            if writable(s.i as int, 3) {
                let m = bcd_store(s.mem, s.i as int, s.reg[x as int]);
                assert(m.subrange(font_lo, font_hi) =~= s.mem.subrange(font_lo, font_hi));
            }
        },
        Instruction::StoreRegs(x) => {
            if writable(s.i as int, x + 1) {
                let m = regs_store(s.mem, s.reg, s.i as int, x as int);
                assert(m.subrange(font_lo, font_hi) =~= s.mem.subrange(font_lo, font_hi));
            }
        },
        _ => {},
    }
}

/// Every instruction that succeeds keeps the machine invariant; above all the
/// program counter stays even and inside memory.
pub proof fn lemma_step_keeps_wf(s: CpuState, ins: Instruction, rnd: u8)
    requires
        s.wf(),
        ins.wf(),
    ensures
        step(s, ins, rnd) matches Ok(s2) ==> s2.wf() && valid_pc(s2.pc as int),
{
    if ins is Cls || ins is Ret || ins is Jp || ins is Call || ins is JpV0 {
        lemma_flow_step_keeps_wf(s, ins, rnd);
    } else if ins is SeByte || ins is SneByte || ins is SeReg || ins is SneReg || ins is Skp
        || ins is Sknp {
        lemma_skip_step_keeps_wf(s, ins, rnd);
    } else if ins is LdByte || ins is AddByte || ins is LdReg || ins is Or || ins is And || ins is Xor
        || ins is AddReg || ins is Sub || ins is Shr || ins is Subn || ins is Shl || ins is Rnd
        || ins is LdVxDt {
        lemma_reg_step_keeps_wf(s, ins, rnd);
    } else {
        lemma_data_step_keeps_wf(s, ins, rnd);
    }
}

/// A machine just built satisfies the machine invariant.
pub proof fn lemma_initial_state_wf()
    ensures
        initial_state().wf(),
{
    lemma_font_len();
    assert(initial_memory().subrange(FONT_START_ADDR as int, (FONT_START_ADDR + FONT_LEN) as int)
        =~= font());
}

/// Fetching and running the instruction at the program counter keeps the machine invariant.
pub proof fn lemma_run_one_keeps_wf(s: CpuState, rnd: u8)
    requires
        s.wf(),
    ensures
        run_one(s, rnd) matches Ok(s2) ==> s2.wf(),
{
    lemma_decoded_wf(fetch(s));
    if let Some(ins) = decode_spec(fetch(s)) {
        lemma_step_keeps_wf(s, ins, rnd);
    }
}

/// A jump or call to an odd address, or to one outside memory, fails with
/// `MemoryOutOfBounds` instead of reaching it.
pub proof fn lemma_invalid_target_faults(s: CpuState, addr: u16, rnd: u8)
    requires
        s.wf(),
        !valid_pc(addr as int),
    ensures
        step(s, Instruction::Jp(addr), rnd) == Err::<CpuState, CpuError>(CpuError::MemoryOutOfBounds),
        s.stack.len() < STACK_SIZE ==> step(s, Instruction::Call(addr), rnd) == Err::<
            CpuState,
            CpuError,
        >(CpuError::MemoryOutOfBounds),
{
}

/// A call succeeds while fewer than sixteen calls are pending, pushing one
/// return address and jumping; with sixteen pending the next call fails with
/// `StackOverflow`.
pub proof fn lemma_call_depth(s: CpuState, addr: u16, rnd: u8)
    requires
        s.wf(),
        valid_pc(addr as int),
    ensures
        s.stack.len() < STACK_SIZE ==> (step(s, Instruction::Call(addr), rnd) matches Ok(s2) && s2.pc
            == addr && s2.stack == s.stack.push(s.pc)),
        s.stack.len() == STACK_SIZE ==> step(s, Instruction::Call(addr), rnd) == Err::<
            CpuState,
            CpuError,
        >(CpuError::StackOverflow),
{
}

/// A return with no pending call fails with `EmptyStack`.
pub proof fn lemma_ret_empty(s: CpuState, rnd: u8)
    requires
        s.stack.len() == 0,
    ensures
        step(s, Instruction::Ret, rnd) == Err::<CpuState, CpuError>(CpuError::EmptyStack),
{
}

/// A return right after a call restores the program counter that the call
/// pushed, and the stack as it was before the call.
pub proof fn lemma_call_then_ret(s: CpuState, addr: u16, rnd: u8)
    requires
        s.wf(),
        valid_pc(addr as int),
        s.stack.len() < STACK_SIZE,
    ensures
        step(s, Instruction::Call(addr), rnd) matches Ok(s2) && step(s2, Instruction::Ret, rnd) == Ok::<
            CpuState,
            CpuError,
        >(s),
{
    let s2 = CpuState { stack: s.stack.push(s.pc), ..s }.with_pc(addr as int);
    assert(s2.stack.drop_last() =~= s.stack);
}

/// Counting the timers down keeps the machine invariant.
pub proof fn lemma_timers_keep_wf(s: CpuState, elapsed: nat)
    requires
        s.wf(),
    ensures
        timers_after(s, elapsed as int).wf(),
{
}

/// The timers count down by the whole periods in the total elapsed time,
/// however that time is split between calls.
pub proof fn lemma_timers_compose(s: CpuState, a: nat, b: nat)
    requires
        s.wf(),
    ensures
        timers_after(timers_after(s, a as int), b as int) == timers_after(s, (a + b) as int),
{
    let p = TIMER_PERIOD_NANOS as int;
    let total = s.timer_phase + a;
    lemma_fundamental_div_mod(total, p);
    let q = total / p;
    let r = total % p;
    lemma_hoist_over_denominator(r + b, q, p as nat);
    lemma_mod_multiples_vanish(q, r + b, p);
    assert(p * q + (r + b) == (r + b) + q * p) by (nonlinear_arith);
    assert(s.timer_phase + (a + b) == (r + b) + q * p);
}

/// From the start of a period, `k` whole periods count each timer down by
/// exactly `k`, stopping at zero.
pub proof fn lemma_timers_exact(s: CpuState, k: nat)
    requires
        s.wf(),
        s.timer_phase == 0,
    ensures
        timers_after(s, k * TIMER_PERIOD_NANOS as int).dt == (if k >= s.dt { 0 } else { s.dt - k }),
        timers_after(s, k * TIMER_PERIOD_NANOS as int).st == (if k >= s.st { 0 } else { s.st - k }),
        timers_after(s, k * TIMER_PERIOD_NANOS as int).timer_phase == 0,
{
    let p = TIMER_PERIOD_NANOS as int;
    vstd::arithmetic::div_mod::lemma_div_multiples_vanish(k as int, p);
    vstd::arithmetic::div_mod::lemma_mod_multiples_basic(k as int, p);
    assert(k * p == p * k) by (nonlinear_arith);
}

} // verus!
