use chip8_lib::cpu::{Cpu, FONT_START_ADDR, TIMER_PERIOD_NANOS};
use chip8_lib::opcode::CpuError;

fn cpu_with_code(code: &[u8]) -> Cpu {
    let mut c = Cpu::default();
    for (k, b) in code.iter().enumerate() {
        c.set_memory(k as u16, *b).unwrap();
    }
    c
}

// Execute a known opcode loaded to address 0x0000
#[test]
fn exec_routine_success() {
    let mut c = Cpu::default();
    c.set_memory(0, 0x00).unwrap();
    c.set_memory(1, 0xE0).unwrap();
    c.exec_routine().expect("exec_routine failed");
    assert_eq!(c.pc(), 2);
}

// Execute an unknown opcode loaded to address 0x0000
#[test]
#[should_panic]
fn exec_routine_failure() {
    let mut c = Cpu::default();
    c.set_memory(0, 0xFF).unwrap();
    c.set_memory(1, 0xFF).unwrap();
    c.exec_routine().unwrap();
    assert_eq!(c.pc(), 2);
}

// Execute a known opcode at 0xFFE, moving the program counter past memory
#[test]
#[should_panic]
fn exec_routine_out_of_memory() {
    let mut c = Cpu::default();
    c.set_pc(4094).unwrap();
    c.set_memory(4094, 0x00).unwrap();
    c.set_memory(4095, 0xE0).unwrap();
    c.exec_routine().unwrap();
}

#[test]
fn exec_routine_jp() {
    let mut c = cpu_with_code(&[0x1B, 0xEE]);
    c.exec_routine().expect("exec_routine failed");
    assert_eq!(c.pc(), 0xBEE);
}

#[test]
fn exec_routine_call() {
    let mut c = cpu_with_code(&[0x2B, 0xEE]);
    c.exec_routine().expect("exec_routine failed");
    assert_eq!(c.stack().last().copied(), Some(0), "testing if PC has been saved on stack");
    assert_eq!(c.pc(), 0xBEE);
}

#[test]
fn exec_routine_sexb() {
    let mut c = cpu_with_code(&[0x3A, 0xBE]);
    c.set_register(0xA, 0xBE);
    c.exec_routine().expect("exec_routine failed");
    assert_eq!(c.pc(), 4);
}

#[test]
fn exec_routine_snexb() {
    let mut c = cpu_with_code(&[0x4A, 0xBE]);
    c.set_register(0xA, 0xBE);
    c.exec_routine().expect("exec_routine failed");
    assert_eq!(c.pc(), 2);
}

#[test]
fn exec_routine_sexy() {
    let mut c = cpu_with_code(&[0x5A, 0xC0]);
    c.set_register(0xA, 0xBE);
    c.set_register(0xC, 0xBE);
    c.exec_routine().expect("exec_routine failed");
    assert_eq!(c.pc(), 4);
}

#[test]
fn exec_routine_ldxb() {
    let mut c = cpu_with_code(&[0x6A, 0x22]);
    c.exec_routine().expect("exec_routine failed");
    assert_eq!(c.register(0x0A), 0x22);
    assert_eq!(c.pc(), 2);
}

#[test]
fn exec_routine_addxb() {
    let mut c = cpu_with_code(&[0x7A, 0x15]);
    c.set_register(0xA, 2);
    c.exec_routine().expect("exec_routine failed");
    assert_eq!(c.register(0x0A), 0x17);
    assert_eq!(c.pc(), 2);
}

#[test]
fn exec_routine_ldxy() {
    let mut c = cpu_with_code(&[0x8B, 0xC0]);
    c.set_register(0xC, 2);
    c.exec_routine().expect("exec_routine failed");
    assert_eq!(c.register(0x0B), 2);
    assert_eq!(c.pc(), 2);
}

#[test]
fn exec_routine_orxy() {
    let mut c = cpu_with_code(&[0x8B, 0xC1]);
    c.set_register(0xB, 4);
    c.set_register(0xC, 2);
    c.exec_routine().expect("exec_routine failed");
    assert_eq!(c.register(0x0B), 6);
    assert_eq!(c.pc(), 2);
}

#[test]
fn exec_routine_andxy() {
    let mut c = cpu_with_code(&[0x8B, 0xC2]);
    c.set_register(0xB, 4);
    c.set_register(0xC, 2);
    c.exec_routine().expect("exec_routine failed");
    assert_eq!(c.register(0x0B), 0);
    assert_eq!(c.pc(), 2);
}

#[test]
fn exec_routine_xorxy() {
    let mut c = cpu_with_code(&[0x8B, 0xC3]);
    c.set_register(0xB, 4);
    c.set_register(0xC, 3);
    c.exec_routine().expect("exec_routine failed");
    assert_eq!(c.register(0x0B), 7);
    assert_eq!(c.pc(), 2);
}

#[test]
fn exec_routine_addxy() {
    let mut c = cpu_with_code(&[0x8B, 0xC4]);
    c.set_register(0xB, 255);
    c.set_register(0xC, 20);
    c.exec_routine().expect("exec_routine failed");
    assert_eq!(c.register(0x0F), 1);
    assert_eq!(c.register(0x0B), 19);
    assert_eq!(c.pc(), 2);
}

#[test]
fn exec_routine_subxy() {
    let mut c = cpu_with_code(&[0x8B, 0xC5]);
    c.set_register(0xB, 10);
    c.set_register(0xC, 100);
    c.exec_routine().expect("exec_routine failed");
    assert_eq!(c.register(0x0F), 0);
    assert_eq!(c.register(0x0B), 166);
    assert_eq!(c.pc(), 2);
}

#[test]
fn exec_routine_shrx() {
    let mut c = cpu_with_code(&[0x8B, 0x06]);
    c.set_register(0xB, 11);
    c.exec_routine().expect("exec_routine failed");
    assert_eq!(c.register(0x0F), 1);
    assert_eq!(c.register(0x0B), 5);
    assert_eq!(c.pc(), 2);
}

#[test]
fn exec_routine_subnxy() {
    let mut c = cpu_with_code(&[0x8B, 0xC7]);
    c.set_register(0xB, 100);
    c.set_register(0xC, 10);
    c.exec_routine().expect("exec_routine failed");
    assert_eq!(c.register(0x0F), 0);
    assert_eq!(c.register(0x0B), 166);
    assert_eq!(c.pc(), 2);
}

#[test]
fn exec_routine_shlx() {
    let mut c = cpu_with_code(&[0x8B, 0x0E]);
    c.set_register(0xB, 0x80);
    c.exec_routine().expect("exec_routine failed");
    assert_eq!(c.register(0x0F), 1);
    assert_eq!(c.register(0x0B), 0);
    assert_eq!(c.pc(), 2);
}

#[test]
fn exec_routine_snexy() {
    let mut c = cpu_with_code(&[0x9A, 0xC0]);
    c.set_register(0xA, 0x20);
    c.set_register(0xC, 0xBE);
    c.exec_routine().expect("exec_routine failed");
    assert_eq!(c.pc(), 4);
}

#[test]
fn exec_routine_ldi() {
    let mut c = cpu_with_code(&[0xAB, 0xBB]);
    c.exec_routine().expect("exec_routine failed");
    assert_eq!(c.index(), 0xBBB);
    assert_eq!(c.pc(), 2);
}

// The target 0xCBC + 1 is odd, and the program counter only holds even
// addresses: the jump is refused and nothing changes.
#[test]
fn exec_routine_jp0() {
    let mut c = cpu_with_code(&[0xBC, 0xBC]);
    c.set_register(0, 1);
    assert!(matches!(c.exec_routine(), Err(CpuError::MemoryOutOfBounds)));
    assert_eq!(c.pc(), 0);
}

#[test]
fn exec_routine_jp0_even_target() {
    let mut c = cpu_with_code(&[0xBC, 0xBC]);
    c.set_register(0, 2);
    c.exec_routine().expect("exec_routine failed");
    assert_eq!(c.pc(), 0xCBE);
}

#[test]
fn exec_routine_drwxy() {
    let mut c = cpu_with_code(&[0xD0, 0x05]);
    c.set_index(FONT_START_ADDR as u16);
    c.exec_routine().expect("exec_routine failed");
    // Frame buffer starts empty, so collision should not occur
    assert_eq!(c.register(0xF), 0);
    assert_eq!(c.pc(), 2);
    let d = c.display();
    assert_eq!(d.frame_byte(0), 0xF0);
    assert_eq!(d.frame_byte(8), 0x90);
    assert_eq!(d.frame_byte(32), 0xF0);
}

#[test]
fn exec_routine_addix() {
    let mut c = cpu_with_code(&[0xF0, 0x1E]);
    c.set_index(0x700);
    c.set_register(0, 5);
    c.exec_routine().expect("exec_routine failed");
    assert_eq!(c.pc(), 2);
    assert_eq!(c.index() as usize, 0x705);
}

#[test]
fn exec_routine_ldfx() {
    let mut c = cpu_with_code(&[0xF0, 0x29, 0xF0, 0x29]);
    c.set_register(0, 1);
    c.exec_routine().expect("exec_routine failed");
    assert_eq!(c.pc(), 2);
    assert_eq!(c.index() as usize, 0x55);
    c.set_register(0, 2);
    c.exec_routine().expect("exec_routine failed");
    assert_eq!(c.pc(), 4);
    assert_eq!(c.index() as usize, 0x5A);
}

#[test]
fn exec_routine_ldbx() {
    let mut c = cpu_with_code(&[0xF0, 0x33]);
    c.set_register(0, 123);
    c.exec_routine().expect("exec_routine failed");
    assert_eq!(c.pc(), 2);
    assert_eq!(c.memory(c.index()), 1);
    assert_eq!(c.memory(c.index() + 1), 2);
    assert_eq!(c.memory(c.index() + 2), 3);
}

#[test]
fn exec_routine_ldiax() {
    let mut c = cpu_with_code(&[0xF2, 0x55]);
    c.set_register(0, 1);
    c.set_register(1, 2);
    c.set_register(2, 3);
    c.exec_routine().expect("exec_routine failed");
    assert_eq!(c.pc(), 2);
    assert_eq!(c.memory(c.index()), 1);
    assert_eq!(c.memory(c.index() + 1), 2);
    assert_eq!(c.memory(c.index() + 2), 3);
}

#[test]
fn exec_routine_ldxia() {
    let mut c = cpu_with_code(&[0xF2, 0x65]);
    c.set_index(0x700);
    c.set_memory(0x700, 1).unwrap();
    c.set_memory(0x701, 2).unwrap();
    c.set_memory(0x702, 3).unwrap();
    c.exec_routine().expect("exec_routine failed");
    assert_eq!(c.pc(), 2);
    assert_eq!(c.register(0), 1);
    assert_eq!(c.register(1), 2);
    assert_eq!(c.register(2), 3);
}

#[test]
fn bcd_writes_leading_zeros() {
    let mut c = cpu_with_code(&[0xF4, 0x33]);
    c.set_index(0x300);
    c.set_memory(0x300, 9).unwrap();
    c.set_memory(0x301, 9).unwrap();
    c.set_register(4, 7);
    c.exec_routine().unwrap();
    assert_eq!(c.memory(0x300), 0);
    assert_eq!(c.memory(0x301), 0);
    assert_eq!(c.memory(0x302), 7);
}

#[test]
fn sixteen_nested_calls_then_overflow() {
    let mut c = Cpu::default();
    // each call jumps to the next instruction word, which calls again
    for k in 0..17u16 {
        let target = 0x202 + 2 * k;
        c.set_memory(0x200 + 2 * k, 0x20 | (target >> 8) as u8).unwrap();
        c.set_memory(0x201 + 2 * k, target as u8).unwrap();
    }
    c.set_pc(0x200).unwrap();
    for _ in 0..16 {
        c.exec_routine().expect("nested call failed");
    }
    assert_eq!(c.stack().len(), 16);
    assert_eq!(c.pc(), 0x220);
    assert!(matches!(c.exec_routine(), Err(CpuError::StackOverflow)));
    assert_eq!(c.stack().len(), 16);
    assert_eq!(c.pc(), 0x220);
}

#[test]
fn ret_with_empty_stack() {
    let mut c = cpu_with_code(&[0x00, 0xEE]);
    assert!(matches!(c.exec_routine(), Err(CpuError::EmptyStack)));
    assert_eq!(c.pc(), 0);
}

// RET sets the program counter to the address that CALL pushed: that of the CALL itself
#[test]
fn call_then_ret_restores_pushed_pc() {
    let mut c = cpu_with_code(&[0x20, 0x10]);
    c.set_memory(0x10, 0x00).unwrap();
    c.set_memory(0x11, 0xEE).unwrap();
    c.exec_routine().unwrap();
    assert_eq!(c.pc(), 0x10);
    assert_eq!(c.stack().as_slice(), &[0]);
    c.exec_routine().unwrap();
    assert_eq!(c.pc(), 0);
    assert!(c.stack().is_empty());
}

#[test]
fn ret_to_last_instruction_word() {
    let mut c = Cpu::default();
    c.set_memory(4094, 0x20).unwrap();
    c.set_memory(4095, 0x10).unwrap();
    c.set_memory(0x10, 0x00).unwrap();
    c.set_memory(0x11, 0xEE).unwrap();
    c.set_pc(4094).unwrap();
    c.exec_routine().unwrap();
    c.exec_routine().unwrap();
    assert_eq!(c.pc(), 4094);
}

#[test]
fn jump_to_odd_address_is_refused() {
    let mut c = cpu_with_code(&[0x12, 0x01]);
    assert!(matches!(c.exec_routine(), Err(CpuError::MemoryOutOfBounds)));
    assert_eq!(c.pc(), 0);
}

#[test]
fn jump_past_memory_is_refused() {
    let mut c = cpu_with_code(&[0xBF, 0xFE]);
    c.set_register(0, 2);
    assert!(matches!(c.exec_routine(), Err(CpuError::MemoryOutOfBounds)));
    assert_eq!(c.pc(), 0);
}

#[test]
fn skip_past_memory_is_refused() {
    let mut c = Cpu::default();
    c.set_pc(4092).unwrap();
    c.set_memory(4092, 0x30).unwrap();
    c.set_memory(4093, 0x00).unwrap();
    assert!(matches!(c.exec_routine(), Err(CpuError::MemoryOutOfBounds)));
    assert_eq!(c.pc(), 4092);
}

#[test]
fn unknown_opcodes() {
    for word in [0x0123u16, 0x5AB1, 0x9AB2, 0x8AB8, 0x8ABF, 0xE1FF, 0xF1FF] {
        let mut c = cpu_with_code(&[(word >> 8) as u8, word as u8]);
        assert!(matches!(c.exec_routine(), Err(CpuError::UnknownOpcode)), "{word:#06x}");
        assert_eq!(c.pc(), 0);
    }
}

#[test]
fn store_into_font_is_refused() {
    let mut c = cpu_with_code(&[0xF3, 0x55]);
    c.set_index(0x4E);
    assert!(matches!(c.exec_routine(), Err(CpuError::MemoryOutOfBounds)));
    assert_eq!(c.memory(0x50), 0xF0);
    assert!(matches!(c.set_memory(0x60, 1), Err(CpuError::MemoryOutOfBounds)));
}

#[test]
fn sprite_read_past_memory_is_refused() {
    let mut c = cpu_with_code(&[0xD0, 0x05]);
    c.set_index(4093);
    assert!(matches!(c.exec_routine(), Err(CpuError::MemoryOutOfBounds)));
    assert_eq!(c.register(0xF), 0);
}

#[test]
fn index_overflow_is_refused() {
    let mut c = cpu_with_code(&[0xF0, 0x1E]);
    c.set_index(0xFFFF);
    c.set_register(0, 1);
    assert!(matches!(c.exec_routine(), Err(CpuError::MemoryOutOfBounds)));
    assert_eq!(c.index(), 0xFFFF);
}

#[test]
fn add_byte_wraps_without_flag() {
    let mut c = cpu_with_code(&[0x73, 0x05]);
    c.set_register(3, 0xFE);
    c.set_register(0xF, 9);
    c.exec_routine().unwrap();
    assert_eq!(c.register(3), 3);
    assert_eq!(c.register(0xF), 9);
}

#[test]
fn random_byte_is_masked() {
    let mut c = cpu_with_code(&[0xC3, 0x0F, 0xC4, 0x00]);
    c.exec_routine().unwrap();
    assert!(c.register(3) <= 0x0F);
    c.set_register(4, 0xFF);
    c.exec_routine().unwrap();
    assert_eq!(c.register(4), 0);
}

#[test]
fn random_byte_given() {
    let mut c = cpu_with_code(&[0xC3, 0x0F]);
    c.exec_routine_with(0xAB).unwrap();
    assert_eq!(c.register(3), 0x0B);
}

#[test]
fn wait_for_key_and_unblock() {
    let mut c = cpu_with_code(&[0xF5, 0x0A]);
    c.exec_routine().unwrap();
    assert!(c.is_blocking());
    assert_eq!(c.pending_register(), Some(5));
    assert_eq!(c.pc(), 2);
    c.unblock(0xC);
    assert!(!c.is_blocking());
    assert_eq!(c.pending_register(), None);
    assert_eq!(c.register(5), 0xC);
}

#[test]
fn unblock_without_wait_changes_nothing() {
    let mut c = Cpu::default();
    c.unblock(3);
    assert!(!c.is_blocking());
    for x in 0..16 {
        assert_eq!(c.register(x), 0);
    }
}

#[test]
fn timers_set_from_registers() {
    let mut c = cpu_with_code(&[0xF3, 0x15, 0xF4, 0x18, 0xF6, 0x07]);
    c.set_register(3, 10);
    c.set_register(4, 20);
    c.exec_routine().unwrap();
    c.exec_routine().unwrap();
    assert_eq!(c.delay_timer(), 10);
    assert_eq!(c.sound_timer(), 20);
    c.exec_routine().unwrap();
    assert_eq!(c.register(6), 10);
}

#[test]
fn timers_count_elapsed_periods() {
    let mut c = cpu_with_code(&[0xF3, 0x15, 0xF3, 0x18]);
    c.set_register(3, 10);
    c.exec_routine().unwrap();
    c.exec_routine().unwrap();
    c.timer_tick(3 * TIMER_PERIOD_NANOS);
    assert_eq!(c.delay_timer(), 7);
    assert_eq!(c.sound_timer(), 7);
    // two half periods make one
    c.timer_tick(TIMER_PERIOD_NANOS / 2);
    assert_eq!(c.delay_timer(), 7);
    c.timer_tick(TIMER_PERIOD_NANOS - TIMER_PERIOD_NANOS / 2);
    assert_eq!(c.delay_timer(), 6);
    // many small steps count the same as one large one
    for _ in 0..100 {
        c.timer_tick(TIMER_PERIOD_NANOS / 10);
    }
    assert_eq!(c.delay_timer(), 0);
    c.timer_tick(u64::MAX);
    assert_eq!(c.delay_timer(), 0);
    assert_eq!(c.sound_timer(), 0);
}

#[test]
fn font_is_loaded() {
    let c = Cpu::new();
    assert_eq!(c.memory(0x50), 0xF0);
    assert_eq!(c.memory(0x55), 0x20);
    assert_eq!(c.memory(0x9F), 0x80);
    assert_eq!(c.memory(0x4F), 0);
    assert_eq!(c.memory(0xA0), 0);
}

#[test]
fn load_program_truncates_to_program_space() {
    let mut c = Cpu::new();
    let program: Vec<u8> = (0..4000u32).map(|k| (k % 251) as u8 + 1).collect();
    c.load_program(&program);
    assert_eq!(c.memory(0x200), 1);
    assert_eq!(c.memory(0x201), 2);
    assert_eq!(c.memory(4095), ((4095 - 0x200) % 251) as u8 + 1);
    assert_eq!(c.memory(0x50), 0xF0);
    c.load_program(&vec![0xAA, 0xBB]);
    assert_eq!(c.memory(0x200), 0xAA);
    assert_eq!(c.memory(0x201), 0xBB);
    assert_eq!(c.memory(0x202), 0);
    assert_eq!(c.pc(), 0);
}

#[test]
fn error_messages() {
    assert_eq!(CpuError::StackOverflow.message(), "stack nesting limit exceeded");
    assert_eq!(CpuError::EmptyStack.message(), "attempted to pop from empty stack");
}
