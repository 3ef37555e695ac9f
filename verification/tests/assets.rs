use nexxus::assets::{
    icon, icons, is_utf8, recolor_symbolic_svg, resolve_application_icon, wallpaper,
    AppCategory, ApplicationIcon, RecolorError, SYMBOLIC_PALETTE_TOKEN,
};

#[test]
fn preserves_external_desktop_icon() {
    assert_eq!(
        resolve_application_icon(Some("firefox"), AppCategory::Network),
        ApplicationIcon::External("firefox")
    );
}

#[test]
fn category_fallback_is_deterministic() {
    let ApplicationIcon::Builtin(spec) = resolve_application_icon(Some(" "), AppCategory::Office)
    else {
        panic!("expected fallback")
    };
    assert_eq!(spec.name, "applications-office");
}

#[test]
fn recolors_palette_token() {
    assert_eq!(
        recolor_symbolic_svg(br##"<path stroke="#FFFFFF"/>"##, [0x36, 0xF5, 0x7B]).unwrap(),
        br##"<path stroke="#36F57B"/>"##
    );
}

#[test]
fn icon_names_are_unique() {
    let catalog = icons();
    for (i, left) in catalog.iter().enumerate() {
        assert!(
            catalog.iter().skip(i + 1).all(|right| left.name != right.name),
            "duplicate icon: {}",
            left.name
        );
    }
}

#[test]
fn declared_icons_are_trimmed_and_absent_ones_fall_back() {
    assert_eq!(
        resolve_application_icon(Some("  gimp \t"), AppCategory::Graphics),
        ApplicationIcon::External("gimp")
    );
    for (category, name) in [
        (AppCategory::AudioVideo, "applications-multimedia"),
        (AppCategory::Development, "applications-development"),
        (AppCategory::Education, "application-x-generic"),
        (AppCategory::Other, "application-x-generic"),
        (AppCategory::Game, "applications-other"),
        (AppCategory::Settings, "preferences-system"),
        (AppCategory::System, "applications-system"),
        (AppCategory::Utility, "applications-utilities"),
    ] {
        match resolve_application_icon(None, category) {
            ApplicationIcon::Builtin(spec) => assert_eq!(spec.name, name),
            other => panic!("unexpected {other:?}"),
        }
    }
}

#[test]
fn icon_lookup_by_name() {
    assert_eq!(icon("applications-office").unwrap().name, "applications-office");
    assert!(icon("no-such-icon").is_none());
    assert!(wallpaper("anything").is_none());
    let settings = icon("preferences-workspaces").unwrap();
    assert_eq!(settings.relative_path, "categories/preferences-workspaces.svg");
    assert!(settings.tintable);
}

#[test]
fn recoloring_replaces_every_token_and_keeps_the_rest() {
    let svg = "<g fill=\"#FFFFFF\" stroke=\"#FFFFFF\">é</g>".as_bytes();
    let out = recolor_symbolic_svg(svg, [0, 0x0a, 0xff]).unwrap();
    assert_eq!(
        String::from_utf8(out).unwrap(),
        "<g fill=\"#000AFF\" stroke=\"#000AFF\">é</g>"
    );
    assert_eq!(SYMBOLIC_PALETTE_TOKEN, "#FFFFFF");
}

#[test]
fn recoloring_refuses_bad_input() {
    assert_eq!(
        recolor_symbolic_svg(&[0xff, 0xfe], [1, 2, 3]),
        Err(RecolorError::InvalidUtf8)
    );
    assert_eq!(
        recolor_symbolic_svg(b"<path stroke=\"#ffffff\"/>", [1, 2, 3]),
        Err(RecolorError::PaletteTokenMissing)
    );
    assert_eq!(
        RecolorError::PaletteTokenMissing.message(),
        "symbolic SVG does not contain the Nexxus palette token"
    );
}

#[test]
fn utf8_validation_matches_std() {
    let samples: [&[u8]; 9] = [
        b"plain",
        "ação 🚀".as_bytes(),
        &[0xc0, 0x80],
        &[0xed, 0xa0, 0x80],
        &[0xf4, 0x90, 0x80, 0x80],
        &[0xe2, 0x82],
        &[0xf0, 0x9f, 0x98, 0x80],
        &[0x80],
        &[],
    ];
    for sample in samples {
        assert_eq!(is_utf8(sample), std::str::from_utf8(sample).is_ok(), "{sample:?}");
    }
}
