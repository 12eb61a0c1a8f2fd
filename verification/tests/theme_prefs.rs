use enkronio::theme::ThemePreference;

/// Tests `ThemePreference::from_str` for valid theme strings.
#[test]
fn test_theme_preference_from_str_valid() {
    assert_eq!(ThemePreference::from_str("light"), ThemePreference::Light);
    assert_eq!(ThemePreference::from_str("dark"), ThemePreference::Dark);
    assert_eq!(ThemePreference::from_str("auto"), ThemePreference::Auto);
}

/// Tests `ThemePreference::from_str` fallback for invalid strings.
#[test]
fn test_theme_preference_from_str_invalid() {
    assert_eq!(ThemePreference::from_str(""), ThemePreference::Auto);
    assert_eq!(ThemePreference::from_str("invalid"), ThemePreference::Auto);
    assert_eq!(ThemePreference::from_str("LIGHT"), ThemePreference::Auto);
}

/// Tests `ThemePreference::as_str` conversion.
#[test]
fn test_theme_preference_as_str() {
    assert_eq!(ThemePreference::Light.as_str(), "light");
    assert_eq!(ThemePreference::Dark.as_str(), "dark");
    assert_eq!(ThemePreference::Auto.as_str(), "auto");
}

/// Tests bidirectional string conversion.
#[test]
fn test_theme_preference_round_trip() {
    let themes = [
        ThemePreference::Light,
        ThemePreference::Dark,
        ThemePreference::Auto,
    ];

    for theme in themes {
        let string = theme.as_str();
        let parsed = ThemePreference::from_str(string);
        assert_eq!(parsed, theme);
    }
}

/// Tests `ThemePreference::icon` for all variants.
#[test]
fn test_theme_preference_icon() {
    assert_eq!(ThemePreference::Light.icon(), "✸");
    assert_eq!(ThemePreference::Dark.icon(), "☽");
    assert_eq!(ThemePreference::Auto.icon(), "◐");
}

/// Tests `ThemePreference::next` cycling behavior.
#[test]
fn test_theme_preference_next() {
    assert_eq!(ThemePreference::Light.next(), ThemePreference::Dark);
    assert_eq!(ThemePreference::Dark.next(), ThemePreference::Auto);
    assert_eq!(ThemePreference::Auto.next(), ThemePreference::Light);
}

/// Tests complete theme preference cycle.
#[test]
fn test_theme_preference_full_cycle() {
    let start = ThemePreference::Light;
    let after_one = start.next();
    let after_two = after_one.next();
    let after_three = after_two.next();
    assert_eq!(after_three, start);
}

/// Tests `ThemePreference` Debug trait implementation.
#[test]
fn test_theme_preference_debug() {
    assert_eq!(format!("{:?}", ThemePreference::Light), "Light");
    assert_eq!(format!("{:?}", ThemePreference::Dark), "Dark");
    assert_eq!(format!("{:?}", ThemePreference::Auto), "Auto");
}

/// Tests `ThemePreference` `PartialEq` implementation.
#[test]
fn test_theme_preference_equality() {
    assert_eq!(ThemePreference::Light, ThemePreference::Light);
    assert_eq!(ThemePreference::Dark, ThemePreference::Dark);
    assert_eq!(ThemePreference::Auto, ThemePreference::Auto);

    assert_ne!(ThemePreference::Light, ThemePreference::Dark);
    assert_ne!(ThemePreference::Dark, ThemePreference::Auto);
    assert_ne!(ThemePreference::Auto, ThemePreference::Light);
}

/// Tests `ThemePreference` Clone trait implementation.
#[test]
fn test_theme_preference_clone() {
    let original = ThemePreference::Light;
    let cloned = original;
    assert_eq!(original, cloned);
}
