use ddos_kernel::drivers::console::{Console, PixelOp, CONSOLE_BG, DEFAULT_COLOR};
use ddos_kernel::drivers::framebuffer::FrameBuffer;
use ddos_kernel::drivers::mailbox::{Mailbox, MboxMessage, MBOX_RESPONSE_OK};
use ddos_kernel::drivers::uart::{RegWrite, Uart};
use ddos_kernel::hardwareselect;
use ddos_kernel::hardwareselect::Platform;

fn test_fb() -> FrameBuffer {
    FrameBuffer { width: 1920, height: 1080, pitch: 7680, base_addr: 0x100000 }
}

#[test]
fn console_new_starts_at_origin_in_white() {
    let c = Console::new(test_fb());
    assert_eq!((c.cursor_x, c.cursor_y), (0, 0));
    assert_eq!(c.current_color, DEFAULT_COLOR);
}

#[test]
fn console_set_color_changes_only_color() {
    let mut c = Console::new(test_fb());
    c.set_color(0xFF00FF00);
    assert_eq!(c.current_color, 0xFF00FF00);
    assert_eq!((c.cursor_x, c.cursor_y), (0, 0));
}

#[test]
fn glyph_index_maps_printable_ascii() {
    assert_eq!(Console::glyph_index('A'), 0x41 - 0x20);
    assert_eq!(Console::glyph_index(' '), 0);
    assert_eq!(Console::glyph_index('~'), 0x7E - 0x20);
    // control and non-ASCII characters fall back to the space glyph
    assert_eq!(Console::glyph_index('\n'), 0);
    assert_eq!(Console::glyph_index('\u{00e9}'), 0);
}

#[test]
fn draw_char_emits_cell_pixels_and_advances() {
    let mut c = Console::new(test_fb());
    c.set_color(0xFF00FF00);
    // top row 0b10100000: leftmost pixel lit, third pixel lit
    let glyph: [u8; 8] = [0xA0, 0, 0, 0, 0, 0, 0, 0];
    let ops = c.draw_char('a', &glyph);
    assert_eq!(ops.len(), 64);
    assert_eq!(ops[0], PixelOp { x: 0, y: 0, color: 0xFF00FF00 });
    assert_eq!(ops[1], PixelOp { x: 1, y: 0, color: CONSOLE_BG });
    assert_eq!(ops[2], PixelOp { x: 2, y: 0, color: 0xFF00FF00 });
    // second row is entirely background
    assert_eq!(ops[8], PixelOp { x: 0, y: 1, color: CONSOLE_BG });
    assert_eq!(ops[63], PixelOp { x: 7, y: 7, color: CONSOLE_BG });
    assert_eq!((c.cursor_x, c.cursor_y), (8, 0));
}

#[test]
fn draw_char_newline_moves_cursor_only() {
    let mut c = Console::new(test_fb());
    let glyph: [u8; 8] = [0; 8];
    c.draw_char('x', &glyph);
    let ops = c.draw_char('\n', &glyph);
    assert!(ops.is_empty());
    assert_eq!((c.cursor_x, c.cursor_y), (0, 8));
}

#[test]
fn draw_char_wraps_at_right_edge() {
    let mut c = Console::new(test_fb());
    c.cursor_x = 1916; // 1916 + 8 overruns the 1920-pixel line
    let glyph: [u8; 8] = [0; 8];
    let ops = c.draw_char('x', &glyph);
    assert_eq!(ops[0], PixelOp { x: 0, y: 8, color: CONSOLE_BG });
    assert_eq!((c.cursor_x, c.cursor_y), (8, 8));
}

#[test]
fn newline_wraps_from_bottom_to_top() {
    let mut c = Console::new(test_fb());
    c.cursor_y = 1076; // 1076 + 8 passes the 1080-pixel screen
    let glyph: [u8; 8] = [0; 8];
    c.draw_char('\n', &glyph);
    assert_eq!((c.cursor_x, c.cursor_y), (0, 0));
}

#[test]
fn backspace_at_line_start_does_nothing() {
    let mut c = Console::new(test_fb());
    let ops = c.backspace();
    assert!(ops.is_empty());
    assert_eq!((c.cursor_x, c.cursor_y), (0, 0));
}

#[test]
fn backspace_erases_previous_cell() {
    let mut c = Console::new(test_fb());
    let glyph: [u8; 8] = [0xFF; 8];
    c.draw_char('x', &glyph);
    let ops = c.backspace();
    assert_eq!((c.cursor_x, c.cursor_y), (0, 0));
    assert_eq!(ops.len(), 64);
    for (k, op) in ops.iter().enumerate() {
        assert_eq!(
            *op,
            PixelOp { x: (k % 8) as u32, y: (k / 8) as u32, color: CONSOLE_BG }
        );
    }
}

#[test]
fn fb_request_carries_property_tags() {
    let m = FrameBuffer::request();
    assert_eq!(m.data[0], 140);
    assert_eq!(m.data[1], 0);
    assert_eq!(m.data[2], 0x00048003);
    assert_eq!(m.data[5], 1920);
    assert_eq!(m.data[6], 1080);
    assert_eq!(m.data[12], 0x00048009);
    assert_eq!(m.data[17], 0x00048005);
    assert_eq!(m.data[20], 32);
    assert_eq!(m.data[21], 0x00040001);
    assert_eq!(m.data[24], 4096);
    assert_eq!(m.data[26], 0);
}

#[test]
fn fb_new_reads_gpu_response() {
    let mut m = FrameBuffer::request();
    m.data[1] = MBOX_RESPONSE_OK;
    m.data[24] = 0x3E000000;
    let fb = FrameBuffer::new(&m).unwrap();
    assert_eq!(fb.width, 1920);
    assert_eq!(fb.height, 1080);
    assert_eq!(fb.pitch, 7680);
    assert_eq!(fb.base_addr, 0x3E000000);
}

#[test]
fn fb_new_rejects_gpu_errors() {
    let mut m = FrameBuffer::request();
    m.data[1] = 0x80000001; // not the success code: handed back verbatim
    m.data[24] = 0x3E000000;
    assert_eq!(FrameBuffer::new(&m), Err(0x80000001));

    m.data[1] = MBOX_RESPONSE_OK;
    m.data[24] = 0; // a null buffer address is its own error
    assert_eq!(FrameBuffer::new(&m), Err(2));
}

#[test]
fn pixel_address_clips_to_screen() {
    let fb = test_fb();
    assert_eq!(fb.pixel_address(0, 0), Some(0x100000));
    assert_eq!(fb.pixel_address(10, 2), Some(0x100000 + 2 * 7680 + 40));
    assert_eq!(fb.pixel_address(1920, 0), None);
    assert_eq!(fb.pixel_address(0, 1080), None);
}

#[test]
fn mailbox_encode_call_packs_channel() {
    let _mb = Mailbox::new();
    assert_eq!(Mailbox::encode_call(0x2000, 8), Some(0x2008));
    // the channel lives in the low four bits only
    assert_eq!(Mailbox::encode_call(0x2000, 0x18), Some(0x2008));
    // an unaligned message buffer cannot be submitted
    assert_eq!(Mailbox::encode_call(0x2004, 8), None);
}

#[test]
fn mailbox_response_ok_checks_code() {
    let mut m = MboxMessage { data: [0; 36] };
    assert!(!Mailbox::response_ok(&m));
    m.data[1] = MBOX_RESPONSE_OK;
    assert!(Mailbox::response_ok(&m));
}

#[test]
fn uart_init_sequence_is_fixed() {
    let u = Uart::new();
    let w = u.init_writes();
    assert_eq!(w.len(), 7);
    assert_eq!(w[0], RegWrite { offset: 0x30, value: 0 }); // disable
    assert_eq!(w[1], RegWrite { offset: 0x38, value: 0 }); // mask interrupts
    assert_eq!(w[2], RegWrite { offset: 0x44, value: 0x7FF }); // clear them
    assert_eq!(w[3], RegWrite { offset: 0x24, value: 26 }); // baud, integer
    assert_eq!(w[4], RegWrite { offset: 0x28, value: 3 }); // baud, fraction
    assert_eq!(w[5], RegWrite { offset: 0x2C, value: 0x70 }); // 8n1 + FIFOs
    assert_eq!(w[6], RegWrite { offset: 0x30, value: 0x301 }); // enable
}

#[test]
fn platform_names_and_bases() {
    assert_eq!(hardwareselect::get_platform_name(Platform::Qemu), "QEMU (RPi3 Model)");
    assert_eq!(hardwareselect::get_platform_name(Platform::Rpi3), "Raspberry Pi 3");
    assert_eq!(hardwareselect::get_platform_name(Platform::Rpi4), "Raspberry Pi 4");
    assert_eq!(hardwareselect::get_peripheral_base_display(Platform::Qemu), "0x3F000000");
    assert_eq!(hardwareselect::get_peripheral_base_display(Platform::Rpi4), "0xFE000000");
    assert_eq!(hardwareselect::peripheral_base(Platform::Rpi3), 0x3F000000);
    assert_eq!(hardwareselect::peripheral_base(Platform::Rpi4), 0xFE000000);
    assert_eq!(hardwareselect::uart0_base(Platform::Rpi4), 0xFE201000);
    assert_eq!(hardwareselect::mailbox_base(Platform::Qemu), 0x3F00B880);
    assert_eq!(hardwareselect::gpio_base(Platform::Rpi3), 0x3F200000);
    assert_eq!(hardwareselect::timer_base(Platform::Qemu), 0x3F003000);
    assert_eq!(hardwareselect::watchdog_base(Platform::Qemu), 0x3F100000);
    assert_eq!(hardwareselect::UART_CLOCK_HZ, 48_000_000);
}
