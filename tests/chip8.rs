use chip8_lib::chip8::{sleep_nanos, Chip8, RunState, TickOutcome, CLOCK_PERIOD_NANOS};
use chip8_lib::cpu::TIMER_PERIOD_NANOS;
use chip8_lib::input::KeyStatus;
use chip8_lib::opcode::CpuError;

fn machine_with_program(program: &[u8]) -> Chip8 {
    let mut m = Chip8::new();
    m.load_program(&program.to_vec());
    m
}

#[test]
fn load_program_starts_at_entry_point() {
    let m = machine_with_program(&[0x60, 0x01]);
    assert_eq!(m.cpu().pc(), 0x200);
    assert_eq!(m.cpu().memory(0x200), 0x60);
    assert_eq!(m.run_state(), RunState::Running);
}

#[test]
fn wait_for_key_blocks_until_press() {
    // F30A: wait for a key into V3; 6501: V5 = 1
    let mut m = machine_with_program(&[0xF3, 0x0A, 0x65, 0x01]);
    assert_eq!(m.tick(&vec![], false, 0), TickOutcome::Executed);
    assert_eq!(m.run_state(), RunState::Blocked);
    assert_eq!(m.cpu().pc(), 0x202);
    // releases and idle ticks run nothing
    assert_eq!(m.tick(&vec![], false, 0), TickOutcome::Idle);
    assert_eq!(m.tick(&vec![(4, KeyStatus::Unpressed)], false, 0), TickOutcome::Idle);
    assert_eq!(m.cpu().pc(), 0x202);
    assert_eq!(m.cpu().register(5), 0);
    // a press delivers the key and execution resumes in the same tick
    assert_eq!(m.tick(&vec![(7, KeyStatus::Pressed)], false, 0), TickOutcome::Executed);
    assert_eq!(m.run_state(), RunState::Running);
    assert_eq!(m.cpu().register(3), 7);
    assert_eq!(m.cpu().register(5), 1);
    assert!(m.cpu().input().key_pressed(7));
}

#[test]
fn handle_input_unblocks_on_press_only() {
    let mut m = machine_with_program(&[0xF2, 0x0A]);
    m.tick(&vec![], false, 0);
    m.handle_input(9, KeyStatus::Unpressed);
    assert_eq!(m.run_state(), RunState::Blocked);
    m.handle_input(9, KeyStatus::Pressed);
    assert_eq!(m.run_state(), RunState::Running);
    assert_eq!(m.cpu().register(2), 9);
}

#[test]
fn error_pauses_machine() {
    let mut m = machine_with_program(&[0xFF, 0xFF, 0x60, 0x01]);
    assert_eq!(m.tick(&vec![], false, 0), TickOutcome::Faulted(CpuError::UnknownOpcode));
    assert_eq!(m.run_state(), RunState::Paused);
    assert_eq!(m.tick(&vec![], false, 0), TickOutcome::Idle);
    assert_eq!(m.cpu().pc(), 0x200);
}

#[test]
fn quit_terminates() {
    let mut m = machine_with_program(&[0x60, 0x01, 0x60, 0x02]);
    assert_eq!(m.tick(&vec![], true, 0), TickOutcome::Quit);
    assert_eq!(m.run_state(), RunState::Terminated);
    assert_eq!(m.tick(&vec![], false, 0), TickOutcome::Quit);
    assert_eq!(m.cpu().register(0), 0);
}

#[test]
fn ticks_count_timers_by_elapsed_time() {
    // V0 = 5; DT = V0; then jump to self
    let mut m = machine_with_program(&[0x60, 0x05, 0xF0, 0x15, 0x12, 0x04]);
    m.tick(&vec![], false, 0);
    m.tick(&vec![], false, 0);
    assert_eq!(m.cpu().delay_timer(), 5);
    m.tick(&vec![], false, 2 * TIMER_PERIOD_NANOS);
    assert_eq!(m.cpu().delay_timer(), 3);
    m.tick(&vec![], false, 10 * TIMER_PERIOD_NANOS);
    assert_eq!(m.cpu().delay_timer(), 0);
}

#[test]
fn frame_follows_draws() {
    // A050: I = glyph 0; D005: draw it at (V0, V0)
    let mut m = machine_with_program(&[0xA0, 0x50, 0xD0, 0x05]);
    m.tick(&vec![], false, 0);
    m.tick(&vec![], false, 0);
    let f = m.frame();
    assert_eq!(f.len(), 256);
    assert_eq!(&[f[0], f[8], f[16], f[24], f[32]], &[0xF0, 0x90, 0x90, 0x90, 0xF0]);
}

#[test]
fn sleep_holds_tick_rate() {
    assert_eq!(sleep_nanos(0), CLOCK_PERIOD_NANOS);
    assert_eq!(sleep_nanos(666_666), 1_000_000);
    assert_eq!(sleep_nanos(CLOCK_PERIOD_NANOS), 0);
    assert_eq!(sleep_nanos(5_000_000), 0);
}
