use chip8::processor::Processor;
use chip8::Chip8Error;

fn boot(program: &[u8]) -> Processor {
    let mut p = Processor::new();
    let image: Vec<u8> = program.to_vec();
    p.load_program(&image).unwrap();
    p
}

fn step(p: &mut Processor) {
    p.fetch().unwrap();
    p.execute(0).unwrap();
}

fn step_rand(p: &mut Processor, rand: u8) {
    p.fetch().unwrap();
    p.execute(rand).unwrap();
}

#[test]
fn load_immediate_sets_only_target() {
    let mut p = boot(&[0x6A, 0x42]);
    step(&mut p);
    assert_eq!(p.read_register(0xA), 0x42);
    for r in 0..16u8 {
        if r != 0xA {
            assert_eq!(p.read_register(r), 0);
        }
    }
    assert_eq!(p.pc(), 0x202);
}

#[test]
fn add_registers_wraps_and_sets_carry() {
    let mut p = boot(&[0x80, 0x14]);
    p.write_register(0, 0xFF);
    p.write_register(1, 0x01);
    step(&mut p);
    assert_eq!(p.read_register(0), 0x00);
    assert_eq!(p.read_register(0xF), 1);
}

#[test]
fn add_registers_without_carry() {
    let mut p = boot(&[0x80, 0x14]);
    p.write_register(0, 0x10);
    p.write_register(1, 0x20);
    step(&mut p);
    assert_eq!(p.read_register(0), 0x30);
    assert_eq!(p.read_register(0xF), 0);
}

#[test]
fn sub_registers_equal_sets_no_borrow_flag() {
    let mut p = boot(&[0x80, 0x15]);
    p.write_register(0, 0x01);
    p.write_register(1, 0x01);
    step(&mut p);
    assert_eq!(p.read_register(0), 0x00);
    assert_eq!(p.read_register(0xF), 1);
}

#[test]
fn sub_registers_borrow_wraps() {
    let mut p = boot(&[0x80, 0x15]);
    p.write_register(0, 0x01);
    p.write_register(1, 0x03);
    step(&mut p);
    assert_eq!(p.read_register(0), 0xFE);
    assert_eq!(p.read_register(0xF), 0);
}

#[test]
fn skip_if_equal_immediate_taken() {
    let mut p = boot(&[0x3A, 0x05]);
    p.write_register(0xA, 5);
    step(&mut p);
    assert_eq!(p.pc(), 0x204);
}

#[test]
fn skip_if_equal_immediate_not_taken() {
    let mut p = boot(&[0x3A, 0x05]);
    p.write_register(0xA, 6);
    step(&mut p);
    assert_eq!(p.pc(), 0x202);
}

#[test]
fn skip_if_not_equal_immediate() {
    let mut p = boot(&[0x4A, 0x05]);
    p.write_register(0xA, 6);
    step(&mut p);
    assert_eq!(p.pc(), 0x204);
}

#[test]
fn skip_if_registers_equal() {
    let mut p = boot(&[0x5A, 0xB0]);
    p.write_register(0xA, 7);
    p.write_register(0xB, 7);
    step(&mut p);
    assert_eq!(p.pc(), 0x204);
}

#[test]
fn skip_if_registers_not_equal() {
    let mut p = boot(&[0x9A, 0xB0]);
    p.write_register(0xA, 7);
    p.write_register(0xB, 8);
    step(&mut p);
    assert_eq!(p.pc(), 0x204);
}

#[test]
fn call_then_ret_returns_past_call() {
    let mut p = boot(&[0x23, 0x00]);
    p.write_byte(0x300, 0x00).unwrap();
    p.write_byte(0x301, 0xEE).unwrap();
    step(&mut p);
    assert_eq!(p.pc(), 0x300);
    assert_eq!(p.stack_depth(), 1);
    step(&mut p);
    assert_eq!(p.pc(), 0x202);
    assert_eq!(p.stack_depth(), 0);
}

#[test]
fn nested_calls_return_in_order() {
    let mut p = boot(&[0x23, 0x00]);
    p.write_byte(0x300, 0x24).unwrap();
    p.write_byte(0x301, 0x00).unwrap();
    p.write_byte(0x400, 0x00).unwrap();
    p.write_byte(0x401, 0xEE).unwrap();
    p.write_byte(0x302, 0x00).unwrap();
    p.write_byte(0x303, 0xEE).unwrap();
    step(&mut p);
    step(&mut p);
    assert_eq!(p.pc(), 0x400);
    assert_eq!(p.stack_depth(), 2);
    step(&mut p);
    assert_eq!(p.pc(), 0x302);
    step(&mut p);
    assert_eq!(p.pc(), 0x202);
    assert_eq!(p.stack_depth(), 0);
}

#[test]
fn call_past_capacity_overflows() {
    // 0x2200 at 0x200 calls its own address over and over; every call
    // pushes one return address.
    let mut p = boot(&[0x22, 0x00]);
    for _ in 0..16 {
        p.fetch().unwrap();
        p.execute(0).unwrap();
    }
    assert_eq!(p.stack_depth(), 16);
    p.fetch().unwrap();
    assert_eq!(p.execute(0), Err(Chip8Error::StackOverflow));
    assert_eq!(p.stack_depth(), 16);
}

#[test]
fn ret_on_empty_stack_underflows() {
    let mut p = boot(&[0x00, 0xEE]);
    p.fetch().unwrap();
    assert_eq!(p.execute(0), Err(Chip8Error::StackUnderflow));
}

#[test]
fn draw_twice_erases_and_collides() {
    // I = 0x206 (one 0xFF sprite row), draw twice at (V0, V1) = (0, 0).
    let mut p = boot(&[0xA2, 0x06, 0xD0, 0x11, 0xD0, 0x11, 0xFF, 0x00]);
    step(&mut p);
    step(&mut p);
    for col in 0..8 {
        assert!(p.pixel(col, 0));
    }
    assert_eq!(p.read_register(0xF), 0);
    step(&mut p);
    for col in 0..8 {
        assert!(!p.pixel(col, 0));
    }
    assert_eq!(p.read_register(0xF), 1);
}

#[test]
fn draw_wraps_both_coordinates() {
    let mut p = boot(&[0xA2, 0x06, 0xD0, 0x12, 0xFF, 0xFF, 0x80, 0x80]);
    p.write_register(0, 62);
    p.write_register(1, 31);
    step(&mut p);
    step(&mut p);
    // Two rows of a single leftmost-set-bit byte at (62, 31): the first
    // lands on row 31, the second wraps to row 0.
    assert!(p.pixel(62, 31));
    assert!(p.pixel(62, 0));
    assert_eq!(p.read_register(0xF), 0);
}

#[test]
fn draw_wraps_columns() {
    let mut p = boot(&[0xA2, 0x04, 0xD0, 0x11, 0xFF, 0x00]);
    p.write_register(0, 60);
    step(&mut p);
    step(&mut p);
    assert!(p.pixel(60, 0));
    assert!(p.pixel(63, 0));
    assert!(p.pixel(0, 0));
    assert!(p.pixel(3, 0));
    assert!(!p.pixel(4, 0));
}

#[test]
fn clear_screen_blanks_display() {
    let mut p = boot(&[0xA2, 0x06, 0xD0, 0x11, 0x00, 0xE0, 0xFF, 0x00]);
    step(&mut p);
    step(&mut p);
    assert!(p.pixel(0, 0));
    step(&mut p);
    let grid = p.display_snapshot();
    assert_eq!(grid.len(), 2048);
    for bit in grid {
        assert!(!bit);
    }
}

#[test]
fn draw_out_of_bounds_sprite_is_fatal() {
    let mut p = boot(&[0xAF, 0xFF, 0xD0, 0x12]);
    step(&mut p);
    p.fetch().unwrap();
    assert_eq!(p.execute(0), Err(Chip8Error::OutOfBounds(0xFFF)));
}

#[test]
fn delay_timer_decays_to_zero_and_clamps() {
    let mut p = boot(&[0xF0, 0x15]);
    p.write_register(0, 5);
    step(&mut p);
    assert_eq!(p.delay_timer(), 5);
    for _ in 0..5 {
        p.tick_timers();
    }
    assert_eq!(p.delay_timer(), 0);
    p.tick_timers();
    assert_eq!(p.delay_timer(), 0);
}

#[test]
fn sound_timer_drives_audio_signal() {
    let mut p = boot(&[0xF0, 0x18]);
    p.write_register(0, 3);
    step(&mut p);
    assert!(p.sound_active());
    for _ in 0..3 {
        p.tick_timers();
    }
    assert!(!p.sound_active());
}

#[test]
fn read_delay_timer_into_register() {
    let mut p = boot(&[0xF0, 0x15, 0xF2, 0x07]);
    p.write_register(0, 5);
    step(&mut p);
    p.tick_timers();
    step(&mut p);
    assert_eq!(p.read_register(2), 4);
}

#[test]
fn invalid_opcode_is_fatal_not_a_noop() {
    let mut p = boot(&[0x50, 0x01]);
    p.fetch().unwrap();
    assert_eq!(p.execute(0), Err(Chip8Error::InvalidInstruction(0x5001)));
    assert_eq!(p.pc(), 0x202);
}

#[test]
fn invalid_misc_opcode_is_fatal() {
    let mut p = boot(&[0xF0, 0x99]);
    p.fetch().unwrap();
    assert_eq!(p.execute(0), Err(Chip8Error::InvalidInstruction(0xF099)));
}

#[test]
fn fetch_at_last_byte_is_fatal() {
    // Jump to 0xFFF: only one byte remains there.
    let mut p = boot(&[0x1F, 0xFF]);
    step(&mut p);
    assert_eq!(p.pc(), 0xFFF);
    assert_eq!(p.fetch(), Err(Chip8Error::OutOfBounds(0xFFF)));
}

#[test]
fn sys_opcode_is_ignored() {
    let mut p = boot(&[0x02, 0x22]);
    step(&mut p);
    assert_eq!(p.pc(), 0x202);
    assert_eq!(p.stack_depth(), 0);
}

#[test]
fn jump_sets_program_counter() {
    let mut p = boot(&[0x12, 0x34]);
    step(&mut p);
    assert_eq!(p.pc(), 0x234);
}

#[test]
fn jump_with_offset_adds_v0() {
    let mut p = boot(&[0xB3, 0x00]);
    p.write_register(0, 5);
    step(&mut p);
    assert_eq!(p.pc(), 0x305);
}

#[test]
fn add_immediate_wraps_without_flag() {
    let mut p = boot(&[0x70, 0x02]);
    p.write_register(0, 0xFF);
    step(&mut p);
    assert_eq!(p.read_register(0), 0x01);
    assert_eq!(p.read_register(0xF), 0);
}

#[test]
fn register_copy_and_logic_ops() {
    let mut p = boot(&[0x80, 0x10, 0x82, 0x31, 0x84, 0x52, 0x86, 0x73]);
    p.write_register(1, 0x5A);
    p.write_register(2, 0b1100);
    p.write_register(3, 0b1010);
    p.write_register(4, 0b1100);
    p.write_register(5, 0b1010);
    p.write_register(6, 0b1100);
    p.write_register(7, 0b1010);
    step(&mut p);
    assert_eq!(p.read_register(0), 0x5A);
    step(&mut p);
    assert_eq!(p.read_register(2), 0b1110);
    step(&mut p);
    assert_eq!(p.read_register(4), 0b1000);
    step(&mut p);
    assert_eq!(p.read_register(6), 0b0110);
}

#[test]
fn shift_right_keeps_low_bit_in_flag() {
    let mut p = boot(&[0x80, 0x06]);
    p.write_register(0, 5);
    step(&mut p);
    assert_eq!(p.read_register(0), 2);
    assert_eq!(p.read_register(0xF), 1);
}

#[test]
fn shift_left_keeps_high_bit_in_flag() {
    let mut p = boot(&[0x80, 0x0E]);
    p.write_register(0, 0x81);
    step(&mut p);
    assert_eq!(p.read_register(0), 0x02);
    assert_eq!(p.read_register(0xF), 1);
}

#[test]
fn reverse_sub_sets_flag_when_no_borrow() {
    let mut p = boot(&[0x80, 0x17]);
    p.write_register(0, 1);
    p.write_register(1, 3);
    step(&mut p);
    assert_eq!(p.read_register(0), 2);
    assert_eq!(p.read_register(0xF), 1);
}

#[test]
fn load_index_register() {
    let mut p = boot(&[0xA1, 0x23]);
    step(&mut p);
    assert_eq!(p.index_register(), 0x123);
}

#[test]
fn add_register_to_index() {
    let mut p = boot(&[0xA1, 0x00, 0xF0, 0x1E]);
    p.write_register(0, 0x22);
    step(&mut p);
    step(&mut p);
    assert_eq!(p.index_register(), 0x122);
}

#[test]
fn random_masks_with_immediate() {
    let mut p = boot(&[0xC0, 0x0F]);
    p.fetch().unwrap();
    p.execute(0xAA).unwrap();
    assert_eq!(p.read_register(0), 0x0A);
}

#[test]
fn font_address_for_digit() {
    let mut p = boot(&[0xF0, 0x29]);
    p.write_register(0, 0xA);
    step(&mut p);
    assert_eq!(p.index_register(), 0x50 + 10 * 5);
}

#[test]
fn font_table_is_loaded_bit_for_bit() {
    let p = Processor::new();
    let expected: [u8; 80] = [
        0xF0, 0x90, 0x90, 0x90, 0xF0, 0x20, 0x60, 0x20, 0x20, 0x70, 0xF0, 0x10, 0xF0, 0x80, 0xF0,
        0xF0, 0x10, 0xF0, 0x10, 0xF0, 0x90, 0x90, 0xF0, 0x10, 0x10, 0xF0, 0x80, 0xF0, 0x10, 0xF0,
        0xF0, 0x80, 0xF0, 0x90, 0xF0, 0xF0, 0x10, 0x20, 0x40, 0x40, 0xF0, 0x90, 0xF0, 0x90, 0xF0,
        0xF0, 0x90, 0xF0, 0x10, 0xF0, 0xF0, 0x90, 0xF0, 0x90, 0x90, 0xE0, 0x90, 0xE0, 0x90, 0xE0,
        0xF0, 0x80, 0x80, 0x80, 0xF0, 0xE0, 0x90, 0x90, 0x90, 0xE0, 0xF0, 0x80, 0xF0, 0x80, 0xF0,
        0xF0, 0x80, 0xF0, 0x80, 0x80,
    ];
    for (k, byte) in expected.iter().enumerate() {
        assert_eq!(p.read_byte(0x50 + k as u16), Ok(*byte));
    }
}

#[test]
fn binary_coded_decimal_digits() {
    let mut p = boot(&[0xA3, 0x00, 0xF0, 0x33]);
    p.write_register(0, 234);
    step(&mut p);
    step(&mut p);
    assert_eq!(p.read_byte(0x300), Ok(2));
    assert_eq!(p.read_byte(0x301), Ok(3));
    assert_eq!(p.read_byte(0x302), Ok(4));
}

#[test]
fn binary_coded_decimal_out_of_bounds() {
    let mut p = boot(&[0xAF, 0xFE, 0xF0, 0x33]);
    step(&mut p);
    p.fetch().unwrap();
    assert_eq!(p.execute(0), Err(Chip8Error::OutOfBounds(0xFFE)));
}

#[test]
fn store_and_load_register_block() {
    let mut p = boot(&[0xA3, 0x00, 0xF2, 0x55, 0x63, 0x00, 0xF2, 0x65]);
    p.write_register(0, 11);
    p.write_register(1, 22);
    p.write_register(2, 33);
    step(&mut p);
    step(&mut p);
    assert_eq!(p.read_byte(0x300), Ok(11));
    assert_eq!(p.read_byte(0x301), Ok(22));
    assert_eq!(p.read_byte(0x302), Ok(33));
    p.write_register(0, 0);
    p.write_register(1, 0);
    p.write_register(2, 0);
    step(&mut p);
    step(&mut p);
    assert_eq!(p.read_register(0), 11);
    assert_eq!(p.read_register(1), 22);
    assert_eq!(p.read_register(2), 33);
    assert_eq!(p.read_register(3), 0);
}

#[test]
fn store_register_block_out_of_bounds() {
    let mut p = boot(&[0xAF, 0xFF, 0xF1, 0x55]);
    step(&mut p);
    p.fetch().unwrap();
    assert_eq!(p.execute(0), Err(Chip8Error::OutOfBounds(0xFFF)));
}

#[test]
fn skip_when_key_pressed() {
    let mut p = boot(&[0xE0, 0x9E]);
    p.write_register(0, 4);
    p.press_key(4);
    step(&mut p);
    assert_eq!(p.pc(), 0x204);
}

#[test]
fn no_skip_when_key_released() {
    let mut p = boot(&[0xE0, 0x9E]);
    p.write_register(0, 4);
    p.press_key(4);
    p.release_key(4);
    step(&mut p);
    assert_eq!(p.pc(), 0x202);
}

#[test]
fn skip_when_key_not_pressed() {
    let mut p = boot(&[0xE0, 0xA1]);
    p.write_register(0, 4);
    step(&mut p);
    assert_eq!(p.pc(), 0x204);
}

#[test]
fn wait_for_key_suspends_until_delivery() {
    let mut p = boot(&[0xF3, 0x0A]);
    step(&mut p);
    assert!(p.is_waiting());
    // Timers keep decaying during the wait.
    p.tick_timers();
    p.deliver_key(7);
    assert!(!p.is_waiting());
    assert_eq!(p.read_register(3), 7);
}

#[test]
fn deliver_key_without_wait_is_ignored() {
    let mut p = Processor::new();
    p.deliver_key(7);
    assert!(!p.is_waiting());
    for r in 0..16u8 {
        assert_eq!(p.read_register(r), 0);
    }
}

#[test]
fn memory_access_bounds() {
    let mut p = Processor::new();
    assert_eq!(p.read_byte(4096), Err(Chip8Error::OutOfBounds(4096)));
    assert_eq!(p.write_byte(4096, 1), Err(Chip8Error::OutOfBounds(4096)));
    assert_eq!(p.write_byte(0x400, 0xAB), Ok(()));
    assert_eq!(p.read_byte(0x400), Ok(0xAB));
}

#[test]
fn oversized_program_is_refused() {
    let mut p = Processor::new();
    let image: Vec<u8> = vec![0; 3585];
    assert_eq!(p.load_program(&image), Err(Chip8Error::OutOfBounds(4096)));
    let fits: Vec<u8> = vec![0; 3584];
    assert_eq!(p.load_program(&fits), Ok(()));
}

#[test]
fn fresh_machine_state() {
    let p = Processor::new();
    assert_eq!(p.pc(), 0x200);
    assert_eq!(p.index_register(), 0);
    assert_eq!(p.delay_timer(), 0);
    assert_eq!(p.sound_timer(), 0);
    assert_eq!(p.stack_depth(), 0);
    assert_eq!(p.current_instruction(), 0);
    assert!(!p.is_waiting());
    assert!(!p.sound_active());
    let grid = p.display_snapshot();
    assert_eq!(grid.len(), 2048);
    for bit in grid {
        assert!(!bit);
    }
}

#[test]
fn fetch_is_big_endian_and_advances() {
    let mut p = boot(&[0x6A, 0x42]);
    p.fetch().unwrap();
    assert_eq!(p.current_instruction(), 0x6A42);
    assert_eq!(p.pc(), 0x202);
}
