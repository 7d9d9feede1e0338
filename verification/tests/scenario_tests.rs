use chip8::keyboard::Keyboard;
use chip8::types::EmulatorState;
use chip8::types::Point;
use chip8::types::VmFault;
use chip8::vm::EmulatorContext;

fn vm_with_program(program: &[u8]) -> EmulatorContext {
    let mut vm = EmulatorContext::new();
    vm.load_sprites_into_memory();
    vm.load_program_into_memory(program).unwrap();
    vm
}

#[test]
fn keyboard_latch_tracks_presses() {
    let mut kb = Keyboard::new();
    assert!(!kb.is_key_pressed(0x5));
    kb.key_down(0x5);
    kb.key_down(0xA);
    kb.key_down(0x5);
    assert!(kb.is_key_pressed(0x5));
    assert!(kb.is_key_pressed(0xA));
    kb.key_up(0x5);
    assert!(!kb.is_key_pressed(0x5));
    assert!(kb.is_key_pressed(0xA));
}

#[test]
fn skip_if_key_pressed() {
    // E19E: skip if key V1 pressed.
    let mut vm = vm_with_program(&[0xE1, 0x9E]);
    vm.registers[1] = 0x7;
    vm.keyboard.key_down(0x7);
    vm.execute_opcode_with(0).unwrap();
    assert_eq!(vm.pc, 0x204);

    // E1A1: skip if key V1 not pressed.
    let mut vm = vm_with_program(&[0xE1, 0xA1]);
    vm.registers[1] = 0x7;
    vm.execute_opcode_with(0).unwrap();
    assert_eq!(vm.pc, 0x204);
}

#[test]
fn wait_key_stalls_until_a_key_arrives() {
    // F10A: wait for a key into V1.
    let mut vm = vm_with_program(&[0xF1, 0x0A]);
    for _ in 0..3 {
        vm.execute_opcode_with(0).unwrap();
        assert_eq!(vm.pc, 0x200);
    }
    vm.keyboard.key_down(0xC);
    vm.execute_opcode_with(0).unwrap();
    assert_eq!(vm.pc, 0x202);
    assert_eq!(vm.registers[1], 0xC);
}

#[test]
fn wait_key_takes_the_oldest_press() {
    let mut vm = vm_with_program(&[0xF1, 0x0A]);
    vm.keyboard.key_down(0x3);
    vm.keyboard.key_down(0x9);
    vm.execute_opcode_with(0).unwrap();
    assert_eq!(vm.registers[1], 0x3);
}

#[test]
fn call_then_return_resumes_after_the_call() {
    // 0x200: 2204 (call 0x204); 0x202: unreachable; 0x204: 00EE (return).
    let mut vm = vm_with_program(&[0x22, 0x04, 0x00, 0x00, 0x00, 0xEE]);
    vm.execute_opcode_with(0).unwrap();
    assert_eq!(vm.pc, 0x204);
    assert_eq!(vm.stack, vec![0x202]);
    vm.execute_opcode_with(0).unwrap();
    assert_eq!(vm.pc, 0x202);
    assert!(vm.stack.is_empty());
}

#[test]
fn drawing_twice_erases_and_reports_collision() {
    // Draw glyph "0" at (5, 10) twice: the second draw collides
    // everywhere and restores the empty screen.
    let mut vm = vm_with_program(&[0x61, 0x05, 0x62, 0x0A, 0xD1, 0x25, 0xD1, 0x25]);
    vm.execute_opcode_with(0).unwrap();
    vm.execute_opcode_with(0).unwrap();
    vm.execute_opcode_with(0).unwrap();
    assert_eq!(vm.registers[15], 0);
    assert!(!vm.display.is_empty());
    vm.execute_opcode_with(0).unwrap();
    assert_eq!(vm.registers[15], 1);
    assert!(vm.display.is_empty());
}

#[test]
fn draw_beyond_the_grid_keeps_raw_coordinates() {
    // The core applies no wrapping: a draw at (62, 30) produces cells
    // past the 64 x 32 edge, left to the renderer.
    let mut vm = vm_with_program(&[0x61, 0x3E, 0x62, 0x1E, 0xD1, 0x25]);
    vm.execute_opcode_with(0).unwrap();
    vm.execute_opcode_with(0).unwrap();
    vm.execute_opcode_with(0).unwrap();
    // Glyph "0" row 0 (0xF0) lights columns 0..4: x = 62..66.
    assert!(vm.display.contains(&Point(62, 30)));
    assert!(vm.display.contains(&Point(65, 30)));
    // Row 4 lies at y = 34, below the logical grid.
    assert!(vm.display.contains(&Point(62, 34)));
}

#[test]
fn glyph_zero_scenario_end_to_end() {
    // Clear screen; V0 = 5; V1 = 10; draw the 5-byte sprite at I = 0
    // (glyph "0") at (5, 10); jump back to the start. One pass over the
    // 4-instruction loop leaves exactly glyph "0" offset by (5, 10).
    let program = [0x00, 0xE0, 0x60, 0x05, 0x61, 0x0A, 0xD0, 0x15, 0x12, 0x00];
    let mut vm = vm_with_program(&program);
    for _ in 0..4 {
        vm.execute_opcode().unwrap();
    }
    assert_eq!(vm.registers[15], 0);
    // Glyph "0" is F0 90 90 90 F0: a 4-wide ring, 14 lit cells.
    let mut expected: Vec<Point> = Vec::new();
    let rows: [u8; 5] = [0xF0, 0x90, 0x90, 0x90, 0xF0];
    for (dy, row) in rows.iter().enumerate() {
        for dx in 0..8 {
            if row & (0x80 >> dx) != 0 {
                expected.push(Point(5 + dx, 10 + dy as i32));
            }
        }
    }
    assert_eq!(expected.len(), 14);
    assert_eq!(vm.display.len(), 14);
    for p in &expected {
        assert!(vm.display.contains(p));
    }
    // The fifth instruction is the jump back to the start of the loop.
    assert_eq!(vm.pc, 0x208);
    vm.execute_opcode().unwrap();
    assert_eq!(vm.pc, 0x200);
}

#[test]
fn paused_machine_does_not_move() {
    let mut vm = vm_with_program(&[0x61, 0x2A]);
    vm.toggle_pause();
    assert!(matches!(vm.state, EmulatorState::Paused));
    vm.cycle().unwrap();
    assert_eq!(vm.pc, 0x200);
    assert_eq!(vm.registers[1], 0);
    vm.toggle_pause();
    assert!(matches!(vm.state, EmulatorState::Playing));
    vm.execute_opcode().unwrap();
    assert_eq!(vm.registers[1], 0x2A);
}

#[test]
fn cycle_runs_ten_steps_and_ticks_timers() {
    // Ten 7101 instructions: V1 goes up by one per step; the timers
    // tick once for the whole frame.
    let mut program = Vec::new();
    for _ in 0..10 {
        program.push(0x71);
        program.push(0x01);
    }
    let mut vm = vm_with_program(&program);
    vm.delay_timer = 5;
    vm.sound_timer = 1;
    vm.cycle().unwrap();
    assert_eq!(vm.registers[1], 10);
    assert_eq!(vm.pc, 0x200 + 20);
    assert_eq!(vm.delay_timer, 4);
    assert_eq!(vm.sound_timer, 0);
}

#[test]
fn cycle_stops_at_a_fault() {
    // Two harmless steps, then a return with an empty stack.
    let mut vm = vm_with_program(&[0x61, 0x01, 0x62, 0x02, 0x00, 0xEE]);
    vm.delay_timer = 5;
    let r = vm.cycle();
    assert_eq!(r, Err(VmFault::EmptyStack));
    assert_eq!(vm.registers[1], 1);
    assert_eq!(vm.registers[2], 2);
    assert_eq!(vm.pc, 0x204);
    // The frame never reached the timer tick.
    assert_eq!(vm.delay_timer, 5);
}

#[test]
fn wait_key_consumes_cycle_budget_without_moving() {
    let mut vm = vm_with_program(&[0xF1, 0x0A]);
    vm.delay_timer = 3;
    vm.cycle().unwrap();
    assert_eq!(vm.pc, 0x200);
    assert_eq!(vm.delay_timer, 2);
}
