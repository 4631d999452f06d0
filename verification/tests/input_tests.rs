use compositor::interrupts::{InterruptIndex, PIC_1_OFFSET, PIC_2_OFFSET};
use compositor::keyboard::{
    add_keyboard_scancode, add_mouse_scancode, get_keyboard_scancode, get_mouse_scancode,
    mouse_handle_scancode, scancode_queues_empty, MousePhase, MouseStatus, ScancodeQueues,
    KEYBOARD_QUEUE_CAPACITY,
};

#[test]
fn scancode_queues_are_fifo() {
    let mut q = ScancodeQueues::new();
    assert!(scancode_queues_empty(&q));
    add_keyboard_scancode(&mut q, 0x1c);
    add_keyboard_scancode(&mut q, 0x2a);
    add_mouse_scancode(&mut q, 0xfa);
    assert!(!scancode_queues_empty(&q));
    assert_eq!(get_keyboard_scancode(&mut q), Some(0x1c));
    assert_eq!(get_keyboard_scancode(&mut q), Some(0x2a));
    assert_eq!(get_keyboard_scancode(&mut q), None);
    assert_eq!(get_mouse_scancode(&mut q), Some(0xfa));
    assert_eq!(get_mouse_scancode(&mut q), None);
    assert!(scancode_queues_empty(&q));
}

#[test]
fn full_keyboard_queue_drops_new_scancodes() {
    let mut q = ScancodeQueues::new();
    for i in 0..(KEYBOARD_QUEUE_CAPACITY as u32 + 5) {
        add_keyboard_scancode(&mut q, i as u8);
    }
    for i in 0..KEYBOARD_QUEUE_CAPACITY as u32 {
        assert_eq!(get_keyboard_scancode(&mut q), Some(i as u8));
    }
    assert_eq!(get_keyboard_scancode(&mut q), None);
}

#[test]
fn mouse_decoder_waits_for_acknowledge() {
    let mut s = MouseStatus::new(100, 100);
    assert_eq!(s.phase, MousePhase::Ack);
    assert_eq!(mouse_handle_scancode(&mut s, 0x55, 100, 100), None);
    assert_eq!(s.phase, MousePhase::Ack);
    assert_eq!(mouse_handle_scancode(&mut s, 0xfa, 100, 100), None);
    assert_eq!(s.phase, MousePhase::Byte1);
}

#[test]
fn mouse_decoder_rejects_invalid_first_packet_byte() {
    let mut s = MouseStatus::new(100, 100);
    mouse_handle_scancode(&mut s, 0xfa, 100, 100);
    // bit 3 must be set and bits 6..7 clear
    assert_eq!(mouse_handle_scancode(&mut s, 0b0100_1000, 100, 100), None);
    assert_eq!(s.phase, MousePhase::Byte1);
    assert_eq!(mouse_handle_scancode(&mut s, 0b0000_0000, 100, 100), None);
    assert_eq!(s.phase, MousePhase::Byte1);
}

#[test]
fn mouse_decoder_decodes_a_complete_packet() {
    let mut s = MouseStatus::new(100, 100);
    mouse_handle_scancode(&mut s, 0xfa, 100, 100);
    // left button pressed, positive deltas
    assert_eq!(mouse_handle_scancode(&mut s, 0b0000_1001, 100, 100), None);
    assert_eq!(s.phase, MousePhase::Byte2);
    assert_eq!(mouse_handle_scancode(&mut s, 5, 100, 100), None);
    assert_eq!(s.phase, MousePhase::Byte3);
    let completed = mouse_handle_scancode(&mut s, 3, 100, 100);
    assert_eq!(completed, Some((50, 50)));
    assert_eq!(s.phase, MousePhase::Byte1);
    assert!(s.left_button);
    assert!(!s.right_button);
    assert!(!s.middle_button);
    assert_eq!(s.x_delta, 5);
    // the vertical protocol axis points up, the screen axis down
    assert_eq!(s.y_delta, -3);
    assert_eq!(s.x_pos, 55);
    assert_eq!(s.y_pos, 47);
}

#[test]
fn mouse_decoder_sign_extends_and_clamps() {
    let mut s = MouseStatus::new(100, 100);
    mouse_handle_scancode(&mut s, 0xfa, 100, 100);
    // bits 4 and 5 set: both deltas negative; 0xff means -1
    mouse_handle_scancode(&mut s, 0b0011_1000, 100, 100);
    mouse_handle_scancode(&mut s, 0x01, 100, 100);  // x delta 1 - 256 = -255
    let completed = mouse_handle_scancode(&mut s, 0xff, 100, 100);  // y: -(255 - 256) = 1
    assert_eq!(completed, Some((50, 50)));
    assert_eq!(s.x_delta, -255);
    assert_eq!(s.y_delta, 1);
    assert_eq!(s.x_pos, 0);  // clamped to the left edge
    assert_eq!(s.y_pos, 51);
}

#[test]
fn mouse_position_clamps_to_the_far_edges() {
    let mut s = MouseStatus::new(10, 10);
    mouse_handle_scancode(&mut s, 0xfa, 10, 10);
    mouse_handle_scancode(&mut s, 0b0000_1000, 10, 10);
    mouse_handle_scancode(&mut s, 200, 10, 10);  // far right
    mouse_handle_scancode(&mut s, 200, 10, 10);  // far up -> y clamps at 0
    assert_eq!(s.x_pos, 9);
    assert_eq!(s.y_pos, 0);
}

#[test]
fn interrupt_vectors_follow_the_controller_offsets() {
    assert_eq!(PIC_1_OFFSET, 32);
    assert_eq!(PIC_2_OFFSET, 40);
    assert_eq!(InterruptIndex::Timer.as_u8(), 32);
    assert_eq!(InterruptIndex::Keyboard.as_u8(), 33);
    assert_eq!(InterruptIndex::Mouse.as_u8(), 44);
    assert_eq!(InterruptIndex::SecondaryATAHardDisk.as_usize(), 47);
}
