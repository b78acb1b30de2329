//! The decisions of the fixed-rate run loop: what one tick does with the key
//! events and quit signal that arrived, the time that passed, and the machine.
//! The loop itself, its clock, its sleep and its channels stand outside.

use vstd::prelude::*;
use crate::cpu::{
    Cpu, CpuState, MEMORY_SIZE, PROGRAM_ENTRY_POINT, fetch, initial_state, lemma_run_one_keeps_wf,
    lemma_timers_keep_wf, loaded_memory, run_one, timers_after, unblocked,
};
use crate::input::{KeyStatus, updated_bits};
use crate::opcode::{CpuError, Instruction, decode_spec};

verus! {

/// Nanoseconds per tick of the run loop (600 Hz).
pub const CLOCK_PERIOD_NANOS: u64 = 1_666_666;

/// Where the run loop stands.
#[derive(Debug, Clone, Copy, PartialEq, Eq, Structural)]
pub enum RunState {
    /// Instructions run, one per tick.
    Running,
    /// An instruction failed; none run any more.
    Paused,
    /// Waiting for a key press; no instruction runs until one arrives.
    Blocked,
    /// A quit signal arrived; the loop stops.
    Terminated,
}

/// What one tick did, for the loop around it to act on.
#[derive(Debug, Clone, Copy, PartialEq, Eq, Structural)]
pub enum TickOutcome {
    /// An instruction ran.
    Executed,
    /// No instruction ran: the machine is paused or waits for a key.
    Idle,
    /// The instruction failed with this error, and the machine is now paused.
    Faulted(CpuError),
    /// A quit signal arrived, now or earlier: the loop stops.
    Quit,
}

/// The machine as the run loop sees it.
pub struct MachineState {
    pub cpu: CpuState,
    /// A quit signal has arrived.
    pub halted: bool,
}

/// The run state of `m`.
pub open spec fn run_state_of(m: MachineState) -> RunState {
    if m.halted {
        RunState::Terminated
    } else if m.cpu.paused {
        RunState::Paused
    } else if m.cpu.blocking {
        RunState::Blocked
    } else {
        RunState::Running
    }
}

/// The state after one key event: the key state takes it, and a press ends a
/// wait for a key, delivering that key.
pub open spec fn apply_input(s: CpuState, key: u8, status: KeyStatus) -> CpuState {
    let s1 = CpuState { keys: updated_bits(s.keys, key, status), ..s };
    if s1.blocking && status == KeyStatus::Pressed {
        unblocked(s1, key)
    } else {
        s1
    }
}

/// The state after the key events `inputs`, in order.
pub open spec fn apply_inputs(s: CpuState, inputs: Seq<(u8, KeyStatus)>) -> CpuState
    decreases inputs.len(),
{
    if inputs.len() == 0 {
        s
    } else {
        let (key, status) = inputs.last();
        apply_input(apply_inputs(s, inputs.drop_last()), key, status)
    }
}

/// One tick: the key events that arrived are applied; then a quit signal
/// stops the machine; else, unless it is paused or waits for a key, the
/// timers count the elapsed time and one instruction runs, with `rnd` as
/// its random byte. A failing instruction pauses the machine.
pub open spec fn tick_spec(
    m: MachineState,
    inputs: Seq<(u8, KeyStatus)>,
    quit: bool,
    elapsed: int,
    rnd: u8,
) -> (MachineState, TickOutcome) {
    if m.halted {
        (m, TickOutcome::Quit)
    } else {
        let s1 = apply_inputs(m.cpu, inputs);
        if quit {
            (MachineState { cpu: s1, halted: true }, TickOutcome::Quit)
        } else if s1.paused || s1.blocking {
            (MachineState { cpu: s1, halted: false }, TickOutcome::Idle)
        } else {
            let s2 = timers_after(s1, elapsed);
            match run_one(s2, rnd) {
                Ok(s3) => (MachineState { cpu: s3, halted: false }, TickOutcome::Executed),
                Err(e) => (
                    MachineState { cpu: CpuState { paused: true, ..s2 }, halted: false },
                    TickOutcome::Faulted(e),
                ),
            }
        }
    }
}

/// How long to sleep after a tick that took `spent` nanoseconds, to hold the
/// tick rate: the rest of the period, or nothing after an overrun.
pub open spec fn sleep_spec(spent: int) -> int {
    if spent < CLOCK_PERIOD_NANOS {
        CLOCK_PERIOD_NANOS - spent
    } else {
        0
    }
}

/// How long to sleep after a tick that took `spent_nanos`, to hold the tick
/// rate. After an overrun the next tick starts at once, with no catching up.
pub fn sleep_nanos(spent_nanos: u64) -> (r: u64)
    ensures
        r == sleep_spec(spent_nanos as int),
{
    if spent_nanos < CLOCK_PERIOD_NANOS {
        CLOCK_PERIOD_NANOS - spent_nanos
    } else {
        0
    }
}

/// A machine and its run state.
pub struct Chip8 {
    cpu: Cpu,
    halted: bool,
}

impl View for Chip8 {
    type V = MachineState;

    closed spec fn view(&self) -> MachineState {
        MachineState { cpu: self.cpu@, halted: self.halted }
    }
}

impl Default for Chip8 {
    fn default() -> (r: Self)
        ensures
            r.wf(),
            r@ == (MachineState { cpu: initial_state(), halted: false }),
    {
        Chip8::new()
    }
}

impl Chip8 {
    /// The machine invariant holds.
    pub open spec fn wf(&self) -> bool {
        self@.cpu.wf()
    }

    /// A fresh machine, running.
    pub fn new() -> (r: Self)
        ensures
            r.wf(),
            r@ == (MachineState { cpu: initial_state(), halted: false }),
    {
        Chip8 { cpu: Cpu::new(), halted: false }
    }

    /// The instruction engine.
    pub fn cpu(&self) -> (r: &Cpu)
        ensures
            r@ == self@.cpu,
    {
        &self.cpu
    }

    /// Loads `program` into program space and points the program counter at its start.
    pub fn load_program(&mut self, program: &Vec<u8>)
        requires
            old(self).wf(),
        ensures
            final(self).wf(),
            final(self)@ == (MachineState {
                cpu: CpuState {
                    mem: loaded_memory(old(self)@.cpu.mem, program@),
                    pc: PROGRAM_ENTRY_POINT as u16,
                    ..old(self)@.cpu
                },
                ..old(self)@
            }),
    {
        self.cpu.load_program(program);
        let r = self.cpu.set_pc(PROGRAM_ENTRY_POINT as u16);
        assert(r is Ok);
    }

    /// Where the run loop stands.
    pub fn run_state(&self) -> (r: RunState)
        ensures
            r == run_state_of(self@),
    {
        if self.halted {
            RunState::Terminated
        } else if self.cpu.paused() {
            RunState::Paused
        } else if self.cpu.is_blocking() {
            RunState::Blocked
        } else {
            RunState::Running
        }
    }

    /// The frame buffer, packed eight pixels to a byte, row-major.
    pub fn frame(&self) -> (r: Vec<u8>)
        ensures
            r@ == self@.cpu.display,
    {
        self.cpu.display().frame()
    }

    /// Applies one key event; a press during a wait for a key delivers it.
    pub fn handle_input(&mut self, key: u8, status: KeyStatus)
        requires
            old(self).wf(),
        ensures
            final(self).wf(),
            final(self)@ == (MachineState { cpu: apply_input(old(self)@.cpu, key, status), ..old(self)@ }),
    {
        self.cpu.update_key(key, &status);
        if self.cpu.is_blocking() && status == KeyStatus::Pressed {
            self.cpu.unblock(key);
        }
    }

    /// One tick of the run loop, with `rnd` as the random byte an instruction may use.
    pub fn tick_with(&mut self, inputs: &Vec<(u8, KeyStatus)>, quit: bool, elapsed_nanos: u64, rnd: u8) -> (r: TickOutcome)
        requires
            old(self).wf(),
        ensures
            final(self).wf(),
            (final(self)@, r) == tick_spec(old(self)@, inputs@, quit, elapsed_nanos as int, rnd),
    {
        if self.halted {
            return TickOutcome::Quit;
        }
        let mut k: usize = 0;
        while k < inputs.len()
            invariant
                self.wf(),
                !self.halted,
                k <= inputs@.len(),
                self@.cpu == apply_inputs(old(self)@.cpu, inputs@.take(k as int)),
            decreases inputs@.len() - k,
        {
            proof {
                assert(inputs@.take(k + 1).drop_last() =~= inputs@.take(k as int));
            }
            let (key, status) = inputs[k];
            self.handle_input(key, status);
            k = k + 1;
        }
        proof {
            assert(inputs@.take(k as int) =~= inputs@);
        }
        if quit {
            self.halted = true;
            return TickOutcome::Quit;
        }
        if self.cpu.paused() || self.cpu.is_blocking() {
            return TickOutcome::Idle;
        }
        self.cpu.timer_tick(elapsed_nanos);
        match self.cpu.exec_routine_with(rnd) {
            Ok(()) => TickOutcome::Executed,
            Err(e) => {
                self.cpu.pause();
                TickOutcome::Faulted(e)
            },
        }
    }

    /// One tick of the run loop, drawing a fresh random byte for an instruction that uses one.
    pub fn tick(&mut self, inputs: &Vec<(u8, KeyStatus)>, quit: bool, elapsed_nanos: u64) -> (r: TickOutcome)
        requires
            old(self).wf(),
        ensures
            final(self).wf(),
            exists|rnd: u8|
                (final(self)@, r) == #[trigger] tick_spec(old(self)@, inputs@, quit, elapsed_nanos as int, rnd),
    {
        let rnd: u8 = rand::random::<u8>();
        self.tick_with(inputs, quit, elapsed_nanos, rnd)
    }
}

/// Key events keep the machine invariant.
pub proof fn lemma_apply_inputs_keeps_wf(s: CpuState, inputs: Seq<(u8, KeyStatus)>)
    requires
        s.wf(),
    ensures
        apply_inputs(s, inputs).wf(),
    decreases inputs.len(),
{
    if inputs.len() > 0 {
        lemma_apply_inputs_keeps_wf(s, inputs.drop_last());
    }
}

/// A tick keeps the machine invariant: every state the run loop reaches has
/// an even program counter inside memory.
pub proof fn lemma_tick_keeps_wf(
    m: MachineState,
    inputs: Seq<(u8, KeyStatus)>,
    quit: bool,
    elapsed: nat,
    rnd: u8,
)
    requires
        m.cpu.wf(),
    ensures
        tick_spec(m, inputs, quit, elapsed as int, rnd).0.cpu.wf(),
{
    let s1 = apply_inputs(m.cpu, inputs);
    lemma_apply_inputs_keeps_wf(m.cpu, inputs);
    lemma_timers_keep_wf(s1, elapsed);
    lemma_run_one_keeps_wf(timers_after(s1, elapsed as int), rnd);
}

/// Applying two batches of key events is applying them as one.
proof fn lemma_apply_inputs_append(s: CpuState, a: Seq<(u8, KeyStatus)>, b: Seq<(u8, KeyStatus)>)
    ensures
        apply_inputs(s, a + b) == apply_inputs(apply_inputs(s, a), b),
    decreases b.len(),
{
    if b.len() == 0 {
        assert(a + b =~= a);
    } else {
        assert((a + b).drop_last() =~= a + b.drop_last());
        lemma_apply_inputs_append(s, a, b.drop_last());
    }
}

/// Key releases change the key state and nothing else.
proof fn lemma_releases_change_only_keys(s: CpuState, inputs: Seq<(u8, KeyStatus)>)
    requires
        forall|k: int| 0 <= k < inputs.len() ==> (#[trigger] inputs[k]).1 == KeyStatus::Unpressed,
    ensures
        apply_inputs(s, inputs) == (CpuState { keys: apply_inputs(s, inputs).keys, ..s }),
    decreases inputs.len(),
{
    if inputs.len() > 0 {
        let rest = inputs.drop_last();
        assert forall|k: int| 0 <= k < rest.len() implies (#[trigger] rest[k]).1 == KeyStatus::Unpressed by {
            assert(rest[k] == inputs[k]);
        }
        lemma_releases_change_only_keys(s, rest);
        assert(inputs.last() == inputs[inputs.len() - 1]);
    }
}

/// Without a wait for a key, key events change the key state and nothing else.
proof fn lemma_events_without_wait(s: CpuState, inputs: Seq<(u8, KeyStatus)>)
    requires
        !s.blocking,
    ensures
        apply_inputs(s, inputs) == (CpuState { keys: apply_inputs(s, inputs).keys, ..s }),
    decreases inputs.len(),
{
    if inputs.len() > 0 {
        lemma_events_without_wait(s, inputs.drop_last());
    }
}

/// Running `Fx0A` starts a wait for a key: the tick runs it and leaves the
/// machine blocked, waiting to put a key in Vx.
pub proof fn lemma_wait_for_key_blocks(m: MachineState, x: u8, elapsed: nat, rnd: u8)
    requires
        m.cpu.wf(),
        run_state_of(m) == RunState::Running,
        decode_spec(fetch(m.cpu)) == Some(Instruction::LdKey(x)),
        m.cpu.pc + 2 < MEMORY_SIZE,
    ensures
        tick_spec(m, Seq::empty(), false, elapsed as int, rnd).1 == TickOutcome::Executed,
        run_state_of(tick_spec(m, Seq::empty(), false, elapsed as int, rnd).0) == RunState::Blocked,
        tick_spec(m, Seq::empty(), false, elapsed as int, rnd).0.cpu.pending == Some(x),
{
}

/// While the machine waits for a key, a tick whose events hold no key press
/// runs no instruction: only the key state changes, and it stays blocked.
pub proof fn lemma_blocked_without_press(
    m: MachineState,
    inputs: Seq<(u8, KeyStatus)>,
    elapsed: nat,
    rnd: u8,
)
    requires
        m.cpu.wf(),
        run_state_of(m) == RunState::Blocked,
        forall|k: int| 0 <= k < inputs.len() ==> (#[trigger] inputs[k]).1 == KeyStatus::Unpressed,
    ensures
        tick_spec(m, inputs, false, elapsed as int, rnd) == (
            MachineState {
                cpu: CpuState { keys: apply_inputs(m.cpu, inputs).keys, ..m.cpu },
                halted: false,
            },
            TickOutcome::Idle,
        ),
{
    lemma_releases_change_only_keys(m.cpu, inputs);
}

/// A key press during a wait puts that key in the waiting register and ends
/// the wait, and the same tick goes on to run the next instruction.
pub proof fn lemma_press_resumes(
    m: MachineState,
    inputs: Seq<(u8, KeyStatus)>,
    k: int,
    elapsed: nat,
    rnd: u8,
)
    requires
        m.cpu.wf(),
        run_state_of(m) == RunState::Blocked,
        0 <= k < inputs.len(),
        inputs[k].1 == KeyStatus::Pressed,
        forall|j: int| 0 <= j < k ==> (#[trigger] inputs[j]).1 == KeyStatus::Unpressed,
    ensures
        !apply_inputs(m.cpu, inputs).blocking,
        apply_inputs(m.cpu, inputs).reg[m.cpu.pending.unwrap() as int] == inputs[k].0,
        tick_spec(m, inputs, false, elapsed as int, rnd).1 != TickOutcome::Idle,
{
    let before = inputs.take(k);
    let press = inputs.subrange(k, k + 1);
    let after = inputs.skip(k + 1);
    assert(inputs =~= (before + press) + after);
    assert forall|j: int| 0 <= j < before.len() implies (#[trigger] before[j]).1 == KeyStatus::Unpressed by {
        assert(before[j] == inputs[j]);
    }
    lemma_releases_change_only_keys(m.cpu, before);
    lemma_apply_inputs_append(m.cpu, before, press);
    lemma_apply_inputs_append(m.cpu, before + press, after);
    let s0 = apply_inputs(m.cpu, before);
    let s1 = apply_inputs(m.cpu, before + press);
    assert(press.drop_last() =~= Seq::<(u8, KeyStatus)>::empty());
    assert(press.last() == inputs[k]);
    assert(apply_inputs(s0, press.drop_last()) == s0);
    assert(s1 == apply_input(s0, inputs[k].0, inputs[k].1));
    assert(s0.blocking && s0.pending == m.cpu.pending);
    assert(!s1.blocking);
    lemma_events_without_wait(s1, after);
}

} // verus!
