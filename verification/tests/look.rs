use optix::color::{Rgba, Shade};
use optix::config::{
    config_dir, config_path, merged_keybindings, reload_plan, Changes, ConfigWatch, ParsedTheme,
    Theme, EXAMPLE_CONFIG,
};
use optix::bindings::Bindings;
use optix::fonts::{
    after_load, current_locale, family_keys, is_font_extension, resolved_family, system_font_dirs,
    wants_font_file, AfterLoad,
};
use optix::palette::{
    Color, Palette, Rgb, NAMED_BACKGROUND, NAMED_BRIGHT_FOREGROUND, NAMED_CURSOR, NAMED_DIM,
    NAMED_DIM_FOREGROUND, NAMED_FOREGROUND,
};
use optix::themes::{builtin, by_name, names, theme_file, BUILTIN_NAMES};

fn exact(r: u8, g: u8, b: u8) -> Shade {
    Shade::Exact(Rgba { r, g, b, a: 255 })
}

fn some(s: &str) -> Option<String> {
    Some(s.to_string())
}

#[test]
fn all_builtin_themes_parse() {
    for name in BUILTIN_NAMES {
        let theme = builtin(name);
        assert!(theme.is_some(), "theme `{name}` should parse");
    }
}

#[test]
fn by_name_is_case_insensitive_and_handles_unknown() {
    assert!(by_name("CATPPUCCIN", None).is_some());
    assert!(by_name("gruvbox", None).is_some());
    assert!(by_name("no-such-theme", None).is_none());
}

#[test]
fn themes_have_distinct_backgrounds() {
    let cat = by_name("catppuccin", None).unwrap();
    let gruv = by_name("gruvbox", None).unwrap();
    assert_ne!(cat.background, gruv.background);
}

#[test]
fn user_themes_come_first() {
    let user = ParsedTheme::from_raw(&Theme { bell: "#010203".to_string(), ..Theme::default() });
    let found = by_name("nord", Some(user.clone())).unwrap();
    assert_eq!(found, user);
    assert_eq!(found.bell, exact(1, 2, 3));
    assert_eq!(
        theme_file("/home/u/.config/optix", " Nord "),
        "/home/u/.config/optix/themes/nord.toml"
    );
    let listed = names(&vec!["mine".to_string(), "nord".to_string(), "mine".to_string()]);
    assert_eq!(listed.len(), 7);
    assert_eq!(listed[6], "mine");
}

#[test]
fn preset_colors() {
    let nord = builtin("nord").unwrap();
    assert_eq!(nord.background, exact(0x2e, 0x34, 0x40));
    assert_eq!(nord.bright[6], exact(0x8f, 0xbc, 0xbb));
    assert_eq!(nord.dim[1], Shade::Dimmed(Rgba { r: 0xbf, g: 0x61, b: 0x6a, a: 255 }));
    assert_eq!(nord.bell, exact(0xeb, 0xcb, 0x8b));
    assert_eq!(nord.search_match_foreground, Some(Rgba { r: 0x1e, g: 0x1e, b: 0x2e, a: 255 }));
    assert_eq!(
        nord.background_gradient,
        Some((exact(0x35, 0x3b, 0x4a), exact(0x24, 0x29, 0x33)))
    );
}

#[test]
fn the_default_theme_is_catppuccin() {
    assert_eq!(ParsedTheme::from_raw(&Theme::default()), builtin("catppuccin").unwrap());
}

#[test]
fn bad_colors_fall_back() {
    let raw = Theme {
        background: "nope".to_string(),
        split_border: "#12".to_string(),
        cursor_text: some("zz"),
        dim: Some(Theme::default().normal),
        ..Theme::default()
    };
    let theme = ParsedTheme::from_raw(&raw);
    assert_eq!(theme.background, exact(30, 30, 46));
    assert_eq!(theme.split_border, Shade::Permille(270, 290, 350));
    assert_eq!(theme.cursor_text, None);
    assert_eq!(theme.dim[0], exact(0x45, 0x47, 0x5a));
}

#[test]
fn hex_colors() {
    assert_eq!(Rgba::from_hex("#fff"), Ok(Rgba::from_u8(255, 255, 255, 255)));
    assert_eq!(Rgba::from_hex(" 1a2B3c "), Ok(Rgba::from_u8(0x1a, 0x2b, 0x3c, 255)));
    assert_eq!(Rgba::from_hex("#1234"), Ok(Rgba::from_u8(0x11, 0x22, 0x33, 0x44)));
    assert_eq!(Rgba::from_hex("##01020304"), Ok(Rgba::from_u8(1, 2, 3, 4)));
    assert_eq!(Rgba::from_hex("+f+a00"), Ok(Rgba::from_u8(15, 10, 0, 255)));
    assert_eq!(Rgba::from_hex("#12345"), Err("invalid hex color `#12345`".to_string()));
    assert_eq!(Rgba::from_hex("#ggg"), Err("invalid hex color `#ggg`".to_string()));
    assert!(Rgba::from_hex("éé1").is_err());
    assert_eq!(Rgba::default(), Rgba::from_u8(0, 0, 0, 255));
}

#[test]
fn color_texts_read_back() {
    let c = Rgba::from_u8(0x0a, 0xbc, 0xf0, 7);
    assert_eq!(c.to_text(), "#0abcf0");
    assert_eq!(c.to_u32(), 0x0abcf0);
    assert_eq!(Rgba::from_hex(&c.to_text()), Ok(Rgba { a: 255, ..c }));
}

#[test]
fn palette_resolves_colors() {
    let theme = builtin("dracula").unwrap();
    let palette = Palette::from_theme(&theme);
    let mut dynamic = palette.dynamic.clone();
    assert_eq!(dynamic.len(), 269);
    assert_eq!(palette.resolve(Color::Spec(Rgb { r: 1, g: 2, b: 3 }), &dynamic), exact(1, 2, 3));
    assert_eq!(Palette::rgb(Rgb { r: 1, g: 2, b: 3 }), exact(1, 2, 3));
    assert_eq!(palette.resolve(Color::Named(1), &dynamic), theme.normal[1]);
    assert_eq!(palette.resolve(Color::Indexed(9), &dynamic), theme.bright[1]);
    assert_eq!(palette.resolve(Color::Indexed(16), &dynamic), exact(0, 0, 0));
    assert_eq!(palette.resolve(Color::Indexed(208), &dynamic), exact(255, 135, 0));
    assert_eq!(palette.resolve(Color::Indexed(255), &dynamic), exact(238, 238, 238));
    assert_eq!(palette.resolve(Color::Named(NAMED_FOREGROUND), &dynamic), theme.foreground);
    assert_eq!(palette.resolve(Color::Named(NAMED_BACKGROUND), &dynamic), theme.background);
    assert_eq!(palette.resolve(Color::Named(NAMED_CURSOR), &dynamic), theme.cursor);
    assert_eq!(palette.resolve(Color::Named(NAMED_DIM + 2), &dynamic), theme.dim[2]);
    dynamic[NAMED_BACKGROUND] = Some(Rgb { r: 4, g: 5, b: 6 });
    assert_eq!(palette.resolve(Color::Named(NAMED_BACKGROUND), &dynamic), exact(4, 5, 6));
    dynamic[1] = Some(Rgb { r: 9, g: 9, b: 9 });
    assert_eq!(palette.resolve(Color::Named(1), &dynamic), exact(9, 9, 9));
    assert_eq!(palette.resolve(Color::Indexed(1), &dynamic), exact(9, 9, 9));
    assert_eq!(palette.theme_color_at(17), theme.background);
    assert_eq!(palette.theme_color_at(20), theme.dim[1]);
    assert_eq!(palette.theme_color_at(200), theme.foreground);
    assert_eq!(palette.requested_color(9), theme.bright[1]);
    assert_eq!(palette.named(NAMED_BRIGHT_FOREGROUND), Some(theme.bright[7]));
    assert_eq!(palette.named(NAMED_DIM_FOREGROUND), Some(theme.dim[7]));
    assert_eq!(palette.named(17), None);
    assert_eq!(palette.named(269), None);
}

#[test]
fn configuration_paths() {
    assert_eq!(config_path(&some("/x"), &some("/home/u")), "/x/optix/config.toml");
    assert_eq!(config_path(&None, &some("/home/u")), "/home/u/.config/optix/config.toml");
    assert_eq!(config_dir(&None, &None), "optix");
}

#[test]
fn user_bindings_replace_defaults() {
    let mut user = Bindings::new();
    user.insert("shift+ctrl+q", "copy");
    let all = merged_keybindings(&user);
    assert_eq!(all.get("ctrl+shift+q"), some("copy"));
    assert_eq!(all.get("ctrl+shift+v"), some("paste"));
}

#[test]
fn config_watch() {
    let mut watch = ConfigWatch { last: Some(5) };
    assert!(!watch.check(false, Some(6)));
    assert!(!watch.check(true, Some(5)));
    assert!(watch.check(true, Some(6)));
    assert_eq!(watch.last, Some(6));
    assert!(watch.check(true, None));
    assert!(watch.check(true, None));
}

#[test]
fn reload_plans() {
    let same = Changes {
        font_family: false,
        font_size: false,
        padding: false,
        corner_radius: false,
        background_image: false,
        has_background_image: true,
        title: false,
        shows_old_title: true,
        window_size: false,
        transparent: false,
    };
    let plan = reload_plan(same, true);
    assert!(!plan.rebuild_fonts && !plan.load_image && !plan.resize_panes && !plan.warn_restart);
    let plan = reload_plan(Changes { font_family: true, ..same }, true);
    assert!(plan.rebuild_fonts && plan.resize_panes && !plan.adopt_font_size);
    let image = Changes { background_image: true, has_background_image: false, ..same };
    assert!(reload_plan(image, true).clear_image);
    assert!(!reload_plan(image, false).clear_image);
}

#[test]
fn example_config_has_the_default_colors() {
    let table: toml::Table = EXAMPLE_CONFIG.parse().unwrap();
    let theme = table["theme"].as_table().unwrap();
    assert_eq!(theme["background"].as_str(), Some(Theme::default().background.as_str()));
    let normal = theme["normal"].as_array().unwrap();
    assert_eq!(normal[3].as_str(), Some(Theme::default().normal[3].as_str()));
    let keys = table["keybindings"].as_table().unwrap();
    let all = merged_keybindings(&Bindings::new());
    for (combination, action) in keys {
        assert_eq!(all.get(combination).as_deref(), action.as_str());
    }
}

#[test]
fn family_names() {
    assert_eq!(
        family_keys("JetBrainsMono NF"),
        vec!["jetbrainsmono".to_string(), "jetbrainsmononf".to_string()]
    );
    assert_eq!(
        family_keys("Fira-Code É"),
        vec!["fira".to_string(), "code".to_string(), "firacodeé".to_string()]
    );
}

#[test]
fn font_files() {
    let keys = family_keys("JetBrainsMono NF");
    assert!(wants_font_file("/usr/share/fonts/JetBrainsMonoNerdFont-Bold.ttf", &keys));
    assert!(!wants_font_file("/f/JetBrainsMonoNerdFontMono-Bold.ttf", &keys));
    assert!(!wants_font_file("/f/JetBrainsMonoNLNerdFont-Bold.ttf", &keys));
    assert!(wants_font_file("/f/DejaVuSansMono.ttf", &keys));
    assert!(wants_font_file("/f/NotoSansMono-Regular.ttf", &keys));
    assert!(!wants_font_file("/f/NotoSansMonoCJK.ttc", &keys));
    assert!(wants_font_file("/f/NotoSansCJK.ttc", &keys));
    assert!(!wants_font_file("/f/Comic.ttf", &keys));
    assert!(is_font_extension("TTF") && is_font_extension("otc") && !is_font_extension("woff"));
    assert_eq!(after_load(false, true), AfterLoad::LoadAll);
    assert_eq!(after_load(true, false), AfterLoad::SetMonospace);
    assert_eq!(after_load(true, true), AfterLoad::Keep);
    assert_eq!(resolved_family("X", true), "X");
    assert_eq!(resolved_family("X", false), "monospace");
}

#[test]
fn font_places() {
    assert_eq!(
        system_font_dirs(&some("/home/u"), &some("/data"), &some("/a::/b/")),
        vec![
            "/usr/share/fonts",
            "/usr/local/share/fonts",
            "/home/u/.fonts",
            "/home/u/.local/share/fonts",
            "/data/fonts",
            "/a/fonts",
            "/b/fonts",
        ]
    );
    assert_eq!(system_font_dirs(&None, &None, &None).len(), 2);
}

#[test]
fn locales() {
    assert_eq!(current_locale(&some("de_DE.UTF-8"), &None, &some("fr")), "de-DE");
    assert_eq!(current_locale(&some(".UTF-8"), &some("fr_FR"), &None), "fr-FR");
    assert_eq!(current_locale(&None, &None, &some("C")), "C");
    assert_eq!(current_locale(&None, &None, &None), "en-US");
}
