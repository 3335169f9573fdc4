use segment_display::color::Color;
use segment_display::color::Rgb565;
use segment_display::led::encode_pixel;

#[test]
fn encode_pixel_puts_green_first() {
    assert_eq!(encode_pixel((255, 0, 0)), [0, 255, 0]);
    assert_eq!(encode_pixel((0, 255, 0)), [255, 0, 0]);
    assert_eq!(encode_pixel((10, 20, 30)), [20, 10, 30]);
}

#[test]
fn encode_pixel_keeps_blue_last() {
    assert_eq!(encode_pixel((0, 0, 255)), [0, 0, 255]);
    assert_eq!(encode_pixel((1, 2, 3)), [2, 1, 3]);
}

#[test]
fn encode_pixel_extremes() {
    assert_eq!(encode_pixel((0, 0, 0)), [0, 0, 0]);
    assert_eq!(encode_pixel((255, 255, 255)), [255, 255, 255]);
}

#[test]
fn encode_pixel_swaps_red_and_green_for_every_pair() {
    for r in 0..=255u8 {
        for g in [0u8, 1, 127, 128, 254, 255] {
            assert_eq!(encode_pixel((r, g, 77)), [g, r, 77]);
        }
    }
}

#[test]
fn preset_channels() {
    assert_eq!(Color::Red.rgb(), (255, 0, 0));
    assert_eq!(Color::Orange.rgb(), (255, 165, 0));
    assert_eq!(Color::Green.rgb(), (0, 255, 0));
}

#[test]
fn presets_on_the_wire() {
    assert_eq!(encode_pixel(Color::Red.rgb()), [0, 255, 0]);
    assert_eq!(encode_pixel(Color::Orange.rgb()), [165, 255, 0]);
    assert_eq!(encode_pixel(Color::Green.rgb()), [255, 0, 0]);
}

#[test]
fn segment_colors() {
    assert_eq!(Rgb565::for_segment(true), Rgb565::new(0, 63, 0));
    assert_eq!(Rgb565::for_segment(false), Rgb565::new(2, 2, 2));
    assert_ne!(Rgb565::for_segment(true), Rgb565::for_segment(false));
}
