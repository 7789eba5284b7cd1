use side_panel::theme::{invert_pixels, is_black_monochrome, is_dark_theme, should_invert};

#[test]
fn dark_theme_by_name_or_flags() {
    assert!(is_dark_theme(false, "Adwaita-dark", false));
    assert!(is_dark_theme(false, "HighContrastInverse", false));
    assert!(!is_dark_theme(false, "Adwaita", false));
    assert!(is_dark_theme(true, "Adwaita", false));
    assert!(is_dark_theme(false, "Adwaita", true));
}

#[test]
fn monochrome_icons_are_inverted_on_dark_themes() {
    let black = vec![0, 0, 0, 255, 0, 0, 0, 10];
    let red = vec![200, 0, 0, 255];
    assert!(is_black_monochrome(&black));
    assert!(!is_black_monochrome(&red));
    assert_eq!(invert_pixels(&black), vec![255, 255, 255, 255, 255, 255, 255, 10]);
    assert_eq!(invert_pixels(&red), vec![55, 255, 255, 255]);
    assert!(should_invert(false, "Adwaita-dark", &black));
    assert!(!should_invert(false, "Adwaita", &black));
    assert!(!should_invert(true, "Adwaita", &red));
}
