use chip8::types::Point;
use chip8::types::VmFault;
use chip8::vm::EmulatorContext;

fn vm_with_program(program: &[u8]) -> EmulatorContext {
    let mut vm = EmulatorContext::new();
    vm.load_sprites_into_memory();
    vm.load_program_into_memory(program).unwrap();
    vm
}

#[test]
fn skip_eq_imm_taken_advances_pc_by_four() {
    // 3105: skip if V1 == 0x05.
    let mut vm = vm_with_program(&[0x31, 0x05]);
    vm.registers[1] = 0x05;
    vm.execute_opcode_with(0).unwrap();
    assert_eq!(vm.pc, 0x204);
}

#[test]
fn skip_eq_imm_not_taken_advances_pc_by_two() {
    let mut vm = vm_with_program(&[0x31, 0x05]);
    vm.registers[1] = 0x06;
    vm.execute_opcode_with(0).unwrap();
    assert_eq!(vm.pc, 0x202);
}

#[test]
fn skip_ne_imm() {
    // 4105: skip if V1 != 0x05.
    let mut vm = vm_with_program(&[0x41, 0x05]);
    vm.registers[1] = 0x06;
    vm.execute_opcode_with(0).unwrap();
    assert_eq!(vm.pc, 0x204);

    let mut vm = vm_with_program(&[0x41, 0x05]);
    vm.registers[1] = 0x05;
    vm.execute_opcode_with(0).unwrap();
    assert_eq!(vm.pc, 0x202);
}

#[test]
fn skip_eq_reg_and_ne_reg() {
    // 5120: skip if V1 == V2.
    let mut vm = vm_with_program(&[0x51, 0x20]);
    vm.registers[1] = 7;
    vm.registers[2] = 7;
    vm.execute_opcode_with(0).unwrap();
    assert_eq!(vm.pc, 0x204);

    // 9120: skip if V1 != V2.
    let mut vm = vm_with_program(&[0x91, 0x20]);
    vm.registers[1] = 7;
    vm.registers[2] = 8;
    vm.execute_opcode_with(0).unwrap();
    assert_eq!(vm.pc, 0x204);

    let mut vm = vm_with_program(&[0x91, 0x20]);
    vm.registers[1] = 7;
    vm.registers[2] = 7;
    vm.execute_opcode_with(0).unwrap();
    assert_eq!(vm.pc, 0x202);
}

#[test]
fn add_imm_wraps_without_flag_effect() {
    // 7101: V1 += 1 with V1 = 0xFF wraps to 0 and leaves VF alone.
    let mut vm = vm_with_program(&[0x71, 0x01]);
    vm.registers[1] = 0xFF;
    vm.registers[15] = 0x2A;
    vm.execute_opcode_with(0).unwrap();
    assert_eq!(vm.registers[1], 0x00);
    assert_eq!(vm.registers[15], 0x2A);
}

#[test]
fn add_reg_sets_carry() {
    // 8124: V1 += V2 with carry in VF.
    let mut vm = vm_with_program(&[0x81, 0x24]);
    vm.registers[1] = 0xFF;
    vm.registers[2] = 0x01;
    vm.execute_opcode_with(0).unwrap();
    assert_eq!(vm.registers[1], 0x00);
    assert_eq!(vm.registers[15], 1);

    let mut vm = vm_with_program(&[0x81, 0x24]);
    vm.registers[1] = 0x10;
    vm.registers[2] = 0x01;
    vm.execute_opcode_with(0).unwrap();
    assert_eq!(vm.registers[1], 0x11);
    assert_eq!(vm.registers[15], 0);
}

#[test]
fn sub_reg_wraps_and_reports_no_borrow() {
    // 8125: V1 -= V2; VF = 1 when V1 > V2.
    let mut vm = vm_with_program(&[0x81, 0x25]);
    vm.registers[1] = 0x01;
    vm.registers[2] = 0x02;
    vm.execute_opcode_with(0).unwrap();
    assert_eq!(vm.registers[1], 0xFF);
    assert_eq!(vm.registers[15], 0);

    // 8127: V1 = V2 - V1; VF = 1 when V2 > V1.
    let mut vm = vm_with_program(&[0x81, 0x27]);
    vm.registers[1] = 0x01;
    vm.registers[2] = 0x03;
    vm.execute_opcode_with(0).unwrap();
    assert_eq!(vm.registers[1], 0x02);
    assert_eq!(vm.registers[15], 1);
}

#[test]
fn shift_right_sets_vf_to_pre_shift_low_bit() {
    // 8106: V1 >>= 1 with VF = pre-shift bit 0.
    let mut vm = vm_with_program(&[0x81, 0x06]);
    vm.registers[1] = 0x03;
    vm.execute_opcode_with(0).unwrap();
    assert_eq!(vm.registers[15], 1);
    assert_eq!(vm.registers[1], 0x01);
}

#[test]
fn shift_left_sets_vf_to_pre_shift_high_bit() {
    // 810E: V1 <<= 1 with VF = pre-shift bit 7.
    let mut vm = vm_with_program(&[0x81, 0x0E]);
    vm.registers[1] = 0x81;
    vm.execute_opcode_with(0).unwrap();
    assert_eq!(vm.registers[15], 1);
    assert_eq!(vm.registers[1], 0x02);
}

#[test]
fn bitwise_ops_clear_vf() {
    // 8121 / 8122 / 8123 compute and force VF to 0.
    let mut vm = vm_with_program(&[0x81, 0x21]);
    vm.registers[1] = 0x0F;
    vm.registers[2] = 0xF0;
    vm.registers[15] = 1;
    vm.execute_opcode_with(0).unwrap();
    assert_eq!(vm.registers[1], 0xFF);
    assert_eq!(vm.registers[15], 0);

    let mut vm = vm_with_program(&[0x81, 0x22]);
    vm.registers[1] = 0x0F;
    vm.registers[2] = 0x03;
    vm.registers[15] = 1;
    vm.execute_opcode_with(0).unwrap();
    assert_eq!(vm.registers[1], 0x03);
    assert_eq!(vm.registers[15], 0);

    let mut vm = vm_with_program(&[0x81, 0x23]);
    vm.registers[1] = 0x0F;
    vm.registers[2] = 0x03;
    vm.registers[15] = 1;
    vm.execute_opcode_with(0).unwrap();
    assert_eq!(vm.registers[1], 0x0C);
    assert_eq!(vm.registers[15], 0);
}

#[test]
fn bcd_of_156_writes_digits() {
    // A300: I = 0x300; F133: BCD of V1.
    let mut vm = vm_with_program(&[0xA3, 0x00, 0xF1, 0x33]);
    vm.registers[1] = 156;
    vm.execute_opcode_with(0).unwrap();
    vm.execute_opcode_with(0).unwrap();
    assert_eq!(vm.memory[0x300], 1);
    assert_eq!(vm.memory[0x301], 5);
    assert_eq!(vm.memory[0x302], 6);
}

#[test]
fn index_relative_writes_wrap_at_the_memory_boundary() {
    // AFFF: I = 0xFFF; F133: the BCD store's second and third cells
    // wrap around to addresses 0 and 1.
    let mut vm = vm_with_program(&[0xAF, 0xFF, 0xF1, 0x33]);
    vm.registers[1] = 42;
    vm.execute_opcode_with(0).unwrap();
    vm.execute_opcode_with(0).unwrap();
    assert_eq!(vm.memory[0xFFF], 0);
    assert_eq!(vm.memory[0], 4);
    assert_eq!(vm.memory[1], 2);
}

#[test]
fn store_and_load_register_block() {
    // A300: I = 0x300; F255: store V0..=V2.
    let mut vm = vm_with_program(&[0xA3, 0x00, 0xF2, 0x55]);
    vm.registers[0] = 10;
    vm.registers[1] = 20;
    vm.registers[2] = 30;
    vm.registers[3] = 40;
    vm.execute_opcode_with(0).unwrap();
    vm.execute_opcode_with(0).unwrap();
    assert_eq!(&vm.memory[0x300..0x304], &[10, 20, 30, 0]);

    // A300: I = 0x300; F165: load V0..=V1.
    let mut vm2 = vm_with_program(&[0xA3, 0x00, 0xF1, 0x65]);
    vm2.memory[0x300] = 9;
    vm2.memory[0x301] = 8;
    vm2.memory[0x302] = 7;
    vm2.execute_opcode_with(0).unwrap();
    vm2.execute_opcode_with(0).unwrap();
    assert_eq!(vm2.registers[0], 9);
    assert_eq!(vm2.registers[1], 8);
    assert_eq!(vm2.registers[2], 0);
}

#[test]
fn jump_and_jump_plus_v0() {
    let mut vm = vm_with_program(&[0x13, 0x45]);
    vm.execute_opcode_with(0).unwrap();
    assert_eq!(vm.pc, 0x345);

    let mut vm = vm_with_program(&[0xB3, 0x40]);
    vm.registers[0] = 5;
    vm.execute_opcode_with(0).unwrap();
    assert_eq!(vm.pc, 0x345);
}

#[test]
fn set_imm_copy_and_index_ops() {
    let mut vm = vm_with_program(&[0x61, 0x2A, 0x82, 0x10, 0xA1, 0x23, 0xF2, 0x1E, 0xF1, 0x29]);
    vm.execute_opcode_with(0).unwrap();
    assert_eq!(vm.registers[1], 0x2A);
    vm.execute_opcode_with(0).unwrap();
    assert_eq!(vm.registers[2], 0x2A);
    vm.execute_opcode_with(0).unwrap();
    assert_eq!(vm.i, 0x123);
    vm.execute_opcode_with(0).unwrap();
    assert_eq!(vm.i, 0x123 + 0x2A);
    vm.execute_opcode_with(0).unwrap();
    assert_eq!(vm.i, 0x2A * 5);
}

#[test]
fn random_masked_by_zero_is_zero() {
    // C100: Vx = random & 0x00, which is 0 whatever was drawn.
    let mut vm = vm_with_program(&[0xC1, 0x00]);
    vm.registers[1] = 0xAA;
    vm.execute_opcode().unwrap();
    assert_eq!(vm.registers[1], 0);
}

#[test]
fn random_mask_applies() {
    let mut vm = vm_with_program(&[0xC1, 0x0F]);
    vm.execute_opcode_with(0xAB).unwrap();
    assert_eq!(vm.registers[1], 0x0B);
}

#[test]
fn timer_instructions() {
    // F115: delay = V1; F218: sound = V2; F307: V3 = delay.
    let mut vm = vm_with_program(&[0xF1, 0x15, 0xF2, 0x18, 0xF3, 0x07]);
    vm.registers[1] = 30;
    vm.registers[2] = 12;
    vm.execute_opcode_with(0).unwrap();
    vm.execute_opcode_with(0).unwrap();
    vm.execute_opcode_with(0).unwrap();
    assert_eq!(vm.delay_timer, 30);
    assert_eq!(vm.sound_timer, 12);
    assert_eq!(vm.registers[3], 30);
}

#[test]
fn update_timers_floor_at_zero() {
    let mut vm = EmulatorContext::new();
    vm.delay_timer = 1;
    vm.sound_timer = 0;
    vm.update_timers();
    assert_eq!(vm.delay_timer, 0);
    assert_eq!(vm.sound_timer, 0);
    vm.update_timers();
    assert_eq!(vm.delay_timer, 0);
}

#[test]
fn unknown_opcode_is_a_nop() {
    // 0xE155 matches no documented instruction.
    let mut vm = vm_with_program(&[0xE1, 0x55]);
    vm.registers[1] = 3;
    vm.execute_opcode_with(0).unwrap();
    assert_eq!(vm.pc, 0x202);
    assert_eq!(vm.registers[1], 3);
}

#[test]
fn return_on_empty_stack_faults_and_leaves_state() {
    let mut vm = vm_with_program(&[0x00, 0xEE]);
    let r = vm.execute_opcode_with(0);
    assert_eq!(r, Err(VmFault::EmptyStack));
    assert_eq!(vm.pc, 0x200);
    assert!(vm.stack.is_empty());
}

#[test]
fn oversized_program_is_rejected() {
    let mut vm = EmulatorContext::new();
    let too_big = vec![0u8; 3585];
    assert_eq!(vm.load_program_into_memory(&too_big), Err(VmFault::ProgramTooLarge));
    assert_eq!(vm.memory[0x200], 0);
    let just_fits = vec![0x11u8; 3584];
    assert_eq!(vm.load_program_into_memory(&just_fits), Ok(()));
    assert_eq!(vm.memory[0x200], 0x11);
    assert_eq!(vm.memory[0xFFF], 0x11);
}

#[test]
fn font_is_loaded_at_zero() {
    let mut vm = EmulatorContext::new();
    vm.load_sprites_into_memory();
    assert_eq!(&vm.memory[0..5], &[0xF0, 0x90, 0x90, 0x90, 0xF0]);
    assert_eq!(&vm.memory[75..80], &[0xF0, 0x80, 0xF0, 0x80, 0x80]);
    assert_eq!(vm.memory[80], 0);
}

#[test]
fn draw_lights_pixels_and_clear_screen_empties() {
    // 6105 / 620A: V1 = 5, V2 = 10; D125: draw glyph "0" at (5, 10).
    let mut vm = vm_with_program(&[0x61, 0x05, 0x62, 0x0A, 0xD1, 0x25, 0x00, 0xE0]);
    vm.execute_opcode_with(0).unwrap();
    vm.execute_opcode_with(0).unwrap();
    vm.execute_opcode_with(0).unwrap();
    assert!(vm.display.contains(&Point(5, 10)));
    assert_eq!(vm.registers[15], 0);
    vm.execute_opcode_with(0).unwrap();
    assert!(vm.display.is_empty());
}
