use shotori::theme::{
    ColorField, PALETTE, Source, Theme, ThemeError, ThemeFile, ThemeRequest, apply, built_in, color_lines,
    error_message, field_name, hex, resolve_built_in, source_line, theme_from_file, theme_request, to_hex,
};

#[test]
fn hex_accepts_six_eight_and_optional_hash() {
    assert_eq!(hex("#FF6A00").unwrap(), 0xFF6A00FF);
    assert_eq!(hex("FF6A0099").unwrap(), 0xFF6A0099);
    assert_eq!(hex("#00000000").unwrap(), 0x00000000);
    assert!(hex("#12345").is_err());
    assert!(hex("GGHHII").is_err());
}

#[test]
fn hex_error_messages() {
    assert_eq!(hex("#12345").unwrap_err(), "\"12345\": expected #RRGGBB or #RRGGBBAA");
    assert_eq!(hex("GGHHII").unwrap_err(), "\"GGHHII\": not a hex color");
    // only hexadecimal digits follow the optional `#`: no sign
    assert_eq!(hex("+FFFFF").unwrap_err(), "\"+FFFFF\": not a hex color");
    assert!(hex("+FF6A0").is_err());
    assert!(hex("#+FF6A0").is_err());
    // lowercase digits parse too
    assert_eq!(hex("#ff6a00").unwrap(), 0xFF6A00FF);
}

#[test]
fn to_hex_round_trips_through_hex() {
    for v in [0u32, 0xFF6A00FF, 0x12345678, u32::MAX] {
        assert_eq!(hex(&to_hex(v)).unwrap(), v);
    }
    assert_eq!(to_hex(0xFF6A00FF), "#FF6A00FF");
}

#[test]
fn partial_override_touches_only_that_field() {
    let mut t = Theme::dark();
    let f = ThemeFile {
        accent: Some("#00FF00".to_string()),
        ..Default::default()
    };
    apply(&mut t, &f).unwrap();
    assert_eq!(t.accent, 0x00FF00FF);
    assert_eq!(t.chip_bg, Theme::dark().chip_bg);
    assert_eq!(t.dim_opacity_bits, Theme::dark().dim_opacity_bits);
}

#[test]
fn short_palette_overrides_prefix_long_palette_errors() {
    let mut t = Theme::dark();
    let f = ThemeFile {
        annotation_colors: Some(vec!["#111111".to_string()]),
        ..Default::default()
    };
    apply(&mut t, &f).unwrap();
    assert_eq!(t.annotation_colors[0], 0x111111FF);
    assert_eq!(t.annotation_colors[1], Theme::dark().annotation_colors[1]);

    let f = ThemeFile {
        annotation_colors: Some(
            ["#111", "#222", "#333", "#444", "#555", "#666", "#777", "#888"]
                .iter()
                .map(|s| s.to_string())
                .collect(),
        ),
        ..Default::default()
    };
    assert!(apply(&mut t, &f).is_err());
}

#[test]
fn bad_values_collect_errors_but_good_ones_apply() {
    let mut t = Theme::dark();
    let f = ThemeFile {
        accent: Some("#00FF00".to_string()),
        dim_opacity_bits: Some(9.5f32.to_bits()),
        chip_bg: Some("zzz".to_string()),
        ..Default::default()
    };
    let errs = apply(&mut t, &f).unwrap_err();
    assert_eq!(errs.len(), 2);
    assert_eq!(t.accent, 0x00FF00FF);
    assert_eq!(errs[0], ThemeError::DimOpacity { bits: 9.5f32.to_bits() });
    assert!(matches!(errs[1], ThemeError::Color { .. }));
    assert_eq!(t.chip_bg, Theme::dark().chip_bg);
}

#[test]
fn valid_dim_opacity_applies() {
    let mut t = Theme::light();
    let f = ThemeFile {
        dim_opacity_bits: Some(0.2f32.to_bits()),
        ..Default::default()
    };
    apply(&mut t, &f).unwrap();
    assert_eq!(f32::from_bits(t.dim_opacity_bits), 0.2);
    let f = ThemeFile {
        dim_opacity_bits: Some((-0.0f32).to_bits()),
        ..Default::default()
    };
    apply(&mut t, &f).unwrap();
    let f = ThemeFile {
        dim_opacity_bits: Some(f32::NAN.to_bits()),
        ..Default::default()
    };
    assert!(apply(&mut t, &f).is_err());
}

#[test]
fn builtin_palette_is_opaque_and_full() {
    for t in [Theme::dark(), Theme::light(), Theme::high_contrast()] {
        assert_eq!(t.annotation_colors.len(), PALETTE);
        assert!(t.annotation_colors.iter().all(|c| c & 0xFF == 0xFF));
    }
}

#[test]
fn built_in_names() {
    assert_eq!(built_in("dark").unwrap(), Theme::dark());
    assert_eq!(built_in("light").unwrap(), Theme::light());
    assert_eq!(built_in("high_contrast").unwrap(), Theme::high_contrast());
    assert_eq!(
        built_in("solarized").unwrap_err(),
        "unknown theme \"solarized\" (want dark | light | high_contrast)"
    );
}

#[test]
fn dark_dim_strength_is_the_legacy_value() {
    assert_eq!(f32::from_bits(Theme::dark().dim_opacity_bits), 0.55);
}

#[test]
fn applying_a_file_twice_equals_applying_it_once() {
    let f = ThemeFile {
        accent: Some("#00FF00".to_string()),
        chip_bg: Some("zzz".to_string()),
        dim_opacity_bits: Some(0.25f32.to_bits()),
        annotation_colors: Some(vec!["#010203".to_string(), "bad".to_string()]),
        ..Default::default()
    };
    let mut once = Theme::light();
    let _ = apply(&mut once, &f);
    let mut twice = once;
    let _ = apply(&mut twice, &f);
    assert_eq!(once, twice);
}

#[test]
fn empty_file_keeps_the_theme() {
    let mut t = Theme::high_contrast();
    assert!(apply(&mut t, &ThemeFile::default()).is_ok());
    assert_eq!(t, Theme::high_contrast());
}

#[test]
fn theme_file_starts_from_its_base() {
    let f = ThemeFile { base: Some("light".to_string()), accent: Some("#123456".to_string()), ..Default::default() };
    let (t, errs) = theme_from_file(&f).unwrap();
    assert!(errs.is_empty());
    assert_eq!(t.accent, 0x123456FF);
    assert_eq!(t.chip_bg, Theme::light().chip_bg);

    let (t, errs) = theme_from_file(&ThemeFile::default()).unwrap();
    assert!(errs.is_empty());
    assert_eq!(t, Theme::dark());

    let f = ThemeFile { base: Some("neon".to_string()), ..Default::default() };
    assert_eq!(
        theme_from_file(&f).unwrap_err(),
        "unknown theme \"neon\" (want dark | light | high_contrast)"
    );

    let f = ThemeFile { chip_bg: Some("zzz".to_string()), ..Default::default() };
    let (t, errs) = theme_from_file(&f).unwrap();
    assert_eq!(errs.len(), 1);
    assert_eq!(t, Theme::dark());
}

#[test]
fn theme_flag_picks_file_or_built_in() {
    assert_eq!(theme_request(&Some("light".to_string()), false), ThemeRequest::BuiltIn("light".to_string()));
    assert_eq!(theme_request(&Some("my.json".to_string()), true), ThemeRequest::File("my.json".to_string()));
    assert_eq!(theme_request(&Some("themes/x".to_string()), false), ThemeRequest::File("themes/x".to_string()));
    assert_eq!(theme_request(&None, false), ThemeRequest::ConfigFile);
    assert_eq!(theme_request(&None, true), ThemeRequest::Default);
}

#[test]
fn unknown_built_in_falls_back_to_dark_with_the_error() {
    let (t, src, errs) = resolve_built_in("high_contrast");
    assert_eq!(t, Theme::high_contrast());
    assert_eq!(src, Source::BuiltIn("high_contrast".to_string()));
    assert!(errs.is_empty());

    let (t, src, errs) = resolve_built_in("sepia");
    assert_eq!(t, Theme::dark());
    assert_eq!(src, Source::Default);
    assert_eq!(errs, vec!["unknown theme \"sepia\" (want dark | light | high_contrast)".to_string()]);
}

#[test]
fn print_theme_lines() {
    assert_eq!(source_line(&Source::Default), "shotori theme — source: default (dark)");
    assert_eq!(source_line(&Source::BuiltIn("light".to_string())), "shotori theme — source: built-in light");
    assert_eq!(source_line(&Source::File("/tmp/t.json".to_string())), "shotori theme — source: /tmp/t.json");
    let lines = color_lines(&Theme::dark());
    assert_eq!(lines.len(), 15);
    assert_eq!(lines[0], "accent         #FF6A00FF");
    assert_eq!(lines[10], format!("toolbar_selected {}", to_hex(Theme::dark().toolbar_selected)));
    assert_eq!(lines[11], format!("swatch_border   {}", to_hex(Theme::dark().swatch_border)));
    assert_eq!(
        lines[14],
        "annotation_colors #FF4545FF #FF8A32FF #FFD43BFF #40C878FF #409CFFFF #222222FF #FFFFFFFF"
    );
}

#[test]
fn rejected_overrides_report_their_field() {
    assert_eq!(field_name(ColorField::ToolbarSelected), "toolbar_selected");
    let e = ThemeError::Color { field: ColorField::ChipBg, message: "\"zzz\": expected #RRGGBB or #RRGGBBAA".to_string() };
    assert_eq!(error_message(&e).unwrap(), "chip_bg: \"zzz\": expected #RRGGBB or #RRGGBBAA");
    assert_eq!(
        error_message(&ThemeError::TooManyColors { count: 12 }).unwrap(),
        "annotation_colors: 12 entries, max 7"
    );
    assert_eq!(error_message(&ThemeError::DimOpacity { bits: 9.5f32.to_bits() }), None);
}
