use led_pulse::color::Color;

#[test]
fn pack_puts_green_first() {
    let color = Color::new(1, 2, 4);
    assert_eq!(color.pack(), (2 << 16) | (1 << 8) | 4);
    assert_eq!(color.pack(), 0x020104);
    assert_eq!(color.pack(), 0b0000_0010_0000_0001_0000_0100);
}

#[test]
fn pack_of_single_channels() {
    assert_eq!(Color::new(0xff, 0, 0).pack(), 0x00ff00);
    assert_eq!(Color::new(0, 0xff, 0).pack(), 0xff0000);
    assert_eq!(Color::new(0, 0, 0xff).pack(), 0x0000ff);
    assert_eq!(Color::new(0, 0, 0).pack(), 0);
    assert_eq!(Color::new(255, 255, 255).pack(), 0xffffff);
}

#[test]
fn new_keeps_the_channels() {
    let color = Color::new(10, 20, 30);
    assert_eq!(color, Color { r: 10, g: 20, b: 30 });
}

#[test]
fn unpack_inverts_pack() {
    for color in [
        Color::new(1, 2, 4),
        Color::new(0, 0, 0),
        Color::new(255, 255, 255),
        Color::new(0x12, 0x34, 0x56),
        Color::new(128, 0, 1),
    ] {
        assert_eq!(Color::unpack(color.pack()), color);
    }
    assert_eq!(Color::unpack(0x020104), Color::new(1, 2, 4));
}

#[test]
fn unpack_leaves_out_the_top_byte() {
    assert_eq!(Color::unpack(0xab02_0104), Color::new(1, 2, 4));
    assert_eq!(Color::unpack(u32::MAX), Color::new(255, 255, 255));
}
