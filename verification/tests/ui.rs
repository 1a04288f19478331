use sound_link::ui::{
    accent_color_hex, create_tray_icon, is_dark_theme, load_icon_from_bytes, popup_position,
    tray_png, AppConfig, WorkArea,
};

#[test]
fn accent_color_reads_bgr_bytes() {
    assert_eq!(accent_color_hex(0xFF332211), "#112233");
    assert_eq!(accent_color_hex(0x00ABCDEF), "#EFCDAB");
    assert_eq!(accent_color_hex(0), "#000000");
}

#[test]
fn theme_value() {
    assert!(is_dark_theme(0));
    assert!(!is_dark_theme(1));
}

#[test]
fn popup_goes_above_tray_near_the_bottom() {
    let area = WorkArea { x: 0, y: 0, width: 1920, height: 1040 };
    assert_eq!(popup_position(100, 1000, 40, Some(area)), Some((100, 510)));
}

#[test]
fn popup_moves_in_from_the_right_edge() {
    let area = WorkArea { x: 0, y: 0, width: 1920, height: 1040 };
    assert_eq!(popup_position(1800, 10, 20, Some(area)), Some((1410, 25)));
}

#[test]
fn popup_without_monitor_stays_below_tray() {
    assert_eq!(popup_position(7, 8, 9, None), Some((7, 12)));
}

#[test]
fn popup_overflow_is_refused() {
    assert_eq!(popup_position(0, i32::MAX, 1, None), None);
    let area = WorkArea { x: i32::MAX - 10, y: 0, width: 100, height: 100 };
    assert_eq!(popup_position(0, 0, 0, Some(area)), None);
}

#[test]
fn config_updates() {
    let mut config = AppConfig::default();
    config.apply_update(Some("dev".to_string()), Some(true));
    assert_eq!(config.default_device_id, Some("dev".to_string()));
    assert!(config.advanced_material);
    config.apply_update(None, None);
    assert_eq!(config.default_device_id, Some("dev".to_string()));
    config.apply_update(Some(String::new()), Some(false));
    assert_eq!(config.default_device_id, None);
    assert!(!config.advanced_material);
}

fn png(width: u32, height: u32, rgba: Vec<u8>) -> Vec<u8> {
    let img = image::RgbaImage::from_raw(width, height, rgba).unwrap();
    let mut bytes = Vec::new();
    image::DynamicImage::ImageRgba8(img)
        .write_to(&mut std::io::Cursor::new(&mut bytes), image::ImageFormat::Png)
        .unwrap();
    bytes
}

#[test]
fn tray_icon_is_decoded_for_the_theme() {
    let white = png(2, 1, vec![255, 255, 255, 255, 255, 255, 255, 0]);
    let black = png(1, 1, vec![0, 0, 0, 255]);
    let icon = create_tray_icon(true, &white, &black).unwrap();
    assert_eq!((icon.width, icon.height), (2, 1));
    assert_eq!(icon.rgba, vec![255, 255, 255, 255, 255, 255, 255, 0]);
    let icon = create_tray_icon(false, &white, &black).unwrap();
    assert_eq!((icon.width, icon.height), (1, 1));
    assert_eq!(icon.rgba, vec![0, 0, 0, 255]);
}

#[test]
fn undecodable_icon_is_none() {
    assert!(load_icon_from_bytes(&[1, 2, 3]).is_none());
}

#[test]
fn tray_png_follows_the_theme() {
    let white = [1u8, 2, 3];
    let black = [4u8, 5];
    assert_eq!(tray_png(true, &white, &black), &white[..]);
    assert_eq!(tray_png(false, &white, &black), &black[..]);
}
