use terminal_display::Color;
use terminal_display::NativeColor;

#[test]
fn default_color_is_background_sentinel() {
    assert_eq!(Color::default(), Color::BgColor);
}

#[test]
fn sentinels_map_to_reset() {
    assert_eq!(Color::BgColor.to_native_color(), NativeColor::Reset);
    assert_eq!(Color::FgColor.to_native_color(), NativeColor::Reset);
}

#[test]
fn concrete_colors_map_to_themselves() {
    assert_eq!(Color::Black.to_native_color(), NativeColor::Black);
    assert_eq!(Color::DarkGrey.to_native_color(), NativeColor::DarkGrey);
    assert_eq!(Color::Red.to_native_color(), NativeColor::Red);
    assert_eq!(Color::DarkRed.to_native_color(), NativeColor::DarkRed);
    assert_eq!(Color::Green.to_native_color(), NativeColor::Green);
    assert_eq!(Color::DarkGreen.to_native_color(), NativeColor::DarkGreen);
    assert_eq!(Color::Yellow.to_native_color(), NativeColor::Yellow);
    assert_eq!(Color::DarkYellow.to_native_color(), NativeColor::DarkYellow);
    assert_eq!(Color::Blue.to_native_color(), NativeColor::Blue);
    assert_eq!(Color::DarkBlue.to_native_color(), NativeColor::DarkBlue);
    assert_eq!(Color::Magenta.to_native_color(), NativeColor::Magenta);
    assert_eq!(Color::DarkMagenta.to_native_color(), NativeColor::DarkMagenta);
    assert_eq!(Color::Cyan.to_native_color(), NativeColor::Cyan);
    assert_eq!(Color::DarkCyan.to_native_color(), NativeColor::DarkCyan);
    assert_eq!(Color::White.to_native_color(), NativeColor::White);
    assert_eq!(Color::Grey.to_native_color(), NativeColor::Grey);
    assert_eq!(Color::Rgb(1, 2, 3).to_native_color(), NativeColor::Rgb(1, 2, 3));
    assert_eq!(Color::AnsiValue(42).to_native_color(), NativeColor::AnsiValue(42));
}
