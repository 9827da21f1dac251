use diane::calendar::{Date, Time};
use diane::theme::{diane, AlertKind, BackgroundArt, Color, StyleSpec, Theme, TITLE};

#[test]
fn named_theme_is_diane() {
    assert_eq!(Theme::named("anything"), diane());
    assert_eq!(Theme::default(), diane());
    assert_eq!(diane().title, Color { r: 0xff, g: 0x52, b: 0x8b });
    assert_eq!(diane().bg, Color { r: 0x26, g: 0x1d, b: 0x2a });
    assert!(TITLE.ends_with("DIANE:"));
}

#[test]
fn heading_styles() {
    let t = diane();
    assert_eq!(
        t.heading(1),
        StyleSpec { fg: Some(t.selected_fg), bg: Some(t.selected_bg), bold: true, italic: false, underlined: false }
    );
    assert_eq!(t.heading(2), StyleSpec { fg: Some(t.title), bg: None, bold: true, italic: false, underlined: false });
    assert_eq!(t.heading(3), StyleSpec { fg: Some(t.title), bg: None, bold: true, italic: true, underlined: false });
    assert_eq!(t.heading(6), StyleSpec { fg: Some(t.hint), bg: None, bold: false, italic: true, underlined: false });
    assert!(t.link().underlined);
    assert_eq!(t.code().bg, Some(t.selected_bg_dim));
    let _ = t.alert(AlertKind::Warning);
}

#[test]
fn background_art_pattern() {
    let art = BackgroundArt::default();
    assert_eq!(art.spacing, 5);
    assert_eq!(art.at(0, 0), ' ');
    assert_eq!(art.at(6, 0), '∙');
    for y in 0..12 {
        for x in 0..30 {
            assert_eq!(art.at(x, y), art.at(x + 12, y));
            assert_eq!(art.at(x, y), art.at(x, y + 5));
        }
    }
}

#[test]
fn dates_check_and_order() {
    assert!(Date { year: 2024, month: 2, day: 29 }.is_valid());
    assert!(!Date { year: 2023, month: 2, day: 29 }.is_valid());
    assert!(!Date { year: 1900, month: 2, day: 29 }.is_valid());
    assert!(Date { year: 2000, month: 2, day: 29 }.is_valid());
    assert!(Date { year: -4, month: 2, day: 29 }.is_valid());
    assert!(!Date { year: 2024, month: 4, day: 31 }.is_valid());
    assert!(!Date { year: 2024, month: 13, day: 1 }.is_valid());
    assert!(!Date { year: 300000, month: 1, day: 1 }.is_valid());
    assert!(Date { year: 2024, month: 1, day: 31 }.before(&Date { year: 2024, month: 2, day: 1 }));
    assert!(!Date { year: 2024, month: 2, day: 1 }.before(&Date { year: 2024, month: 2, day: 1 }));
}

#[test]
fn checked_background_matches_and_guards() {
    let art = BackgroundArt::default();
    for y in 0..8 {
        for x in 0..20 {
            assert_eq!(art.checked_at(x, y), Some(art.at(x, y)));
        }
    }
    let flat = BackgroundArt { amp: 0, ..BackgroundArt::default() };
    assert_eq!(flat.checked_at(3, 3), None);
    let huge = BackgroundArt { amp: isize::MAX, ..BackgroundArt::default() };
    assert_eq!(huge.checked_at(0, 0), None);
    let still = BackgroundArt { spacing: 0, ..BackgroundArt::default() };
    assert_eq!(still.checked_at(1, 1), None);
}

#[test]
fn times_check() {
    assert!(Time { hour: 23, minute: 59, second: 59 }.is_valid());
    assert!(!Time { hour: 24, minute: 0, second: 0 }.is_valid());
    assert!(!Time { hour: 1, minute: 60, second: 0 }.is_valid());
}

#[test]
fn background_waves_mirror_about_their_crest() {
    let art = BackgroundArt::default();
    for y in 0..10 {
        for d in 0..=6 {
            assert_eq!(art.at(6 + d, y), art.at(6 - d, y));
        }
    }
}
