use tobyscope_x11::config::{
    choose_source, load, parse_color, AppConfig, ColorFault, ColorField, ConfigError,
    ConfigSource, RawColorConfig, RawConfig, RawDaemonConfig, RawLayoutConfig,
    RawThumbnailConfig, RawUiConfig,
};

fn empty() -> RawConfig {
    RawConfig { ui: None, colors: None, layout: None, thumbnails: None, daemon: None }
}

fn no_ui() -> RawUiConfig {
    RawUiConfig {
        font: None,
        show_overlay_background: None,
        show_workspace_number: None,
        show_program_name: None,
        rounded_corners: None,
        corner_radius: None,
        shadows: None,
        shadow_offset_x: None,
        shadow_offset_y: None,
        shadow_radius: None,
    }
}

fn no_colors() -> RawColorConfig {
    RawColorConfig {
        background: None,
        cell: None,
        cell_hover: None,
        border: None,
        selected: None,
        text: None,
        muted: None,
        error: None,
        empty: None,
        shadow: None,
        close_button: None,
        close_button_border: None,
        close_button_text: None,
    }
}

fn with_ui(ui: RawUiConfig) -> RawConfig {
    RawConfig { ui: Some(ui), ..empty() }
}

fn message(raw: RawConfig) -> String {
    match AppConfig::merge(raw) {
        Ok(_) => panic!("accepted"),
        Err(error) => error.message(),
    }
}

#[test]
fn defaults_are_the_documented_ones() {
    let config = AppConfig::default();
    assert_eq!(config.ui.font, "fixed");
    assert!(config.ui.show_overlay_background);
    assert!(config.ui.show_workspace_number);
    assert!(config.ui.show_program_name);
    assert!(!config.ui.rounded_corners);
    assert_eq!(config.ui.corner_radius, 14);
    assert!(!config.ui.shadows);
    assert_eq!((config.ui.shadow_offset_x, config.ui.shadow_offset_y), (0, 8));
    assert_eq!(config.ui.shadow_radius, 18);
    assert_eq!(config.colors.background, 0x101418);
    assert_eq!(config.colors.selected, 0x4ea1ff);
    assert_eq!(config.colors.close_button_text, 0);
    assert_eq!(config.layout.margin, 24);
    assert_eq!(config.layout.gap_small, 12);
    assert_eq!(config.layout.top_meta_height, 40);
    assert_eq!(config.layout.label_height, 34);
    assert_eq!(config.thumbnails.refresh_after_seconds, 60);
    assert_eq!(config.thumbnails.max_cache_edge, 960);
    assert!(config.daemon.background_current_workspace_refresh);
    assert_eq!(config.daemon.idle_refresh_ms, 750);
    assert_eq!(config.daemon.stale_show_ms, 250);
}

#[test]
fn an_empty_file_keeps_the_defaults() {
    let merged = AppConfig::merge(with_ui(no_ui())).unwrap();
    assert_eq!(format!("{merged:?}"), format!("{:?}", AppConfig::default()));
    let loaded = load(None).unwrap();
    assert_eq!(format!("{:?}", loaded.config), format!("{:?}", AppConfig::default()));
    let copy = loaded.clone();
    assert_eq!(format!("{:?}", copy.config), format!("{:?}", AppConfig::default()));
}

#[test]
fn settings_override_the_defaults() {
    let raw = RawConfig {
        ui: Some(RawUiConfig {
            font: Some("  9x15\t".to_string()),
            show_overlay_background: Some(false),
            show_workspace_number: Some(false),
            show_program_name: Some(false),
            rounded_corners: Some(true),
            corner_radius: Some(3),
            shadows: Some(true),
            shadow_offset_x: Some(-4),
            shadow_offset_y: Some(5),
            shadow_radius: Some(6),
        }),
        colors: Some(RawColorConfig {
            background: Some("#010203".to_string()),
            muted: Some(" abcDEF ".to_string()),
            close_button_text: Some("#FFFFFF".to_string()),
            ..no_colors()
        }),
        layout: Some(RawLayoutConfig {
            margin: Some(1),
            gap_small: Some(2),
            gap: Some(3),
            padding: Some(4),
            top_meta_height: Some(5),
            label_height: Some(0),
        }),
        thumbnails: Some(RawThumbnailConfig {
            refresh_after_seconds: Some(0),
            max_cache_edge: Some(1),
        }),
        daemon: Some(RawDaemonConfig {
            background_current_workspace_refresh: Some(false),
            idle_refresh_ms: Some(1),
            stale_show_ms: Some(2),
        }),
    };
    let config = load(Some(raw)).unwrap().config;
    assert_eq!(config.ui.font, "9x15");
    assert!(!config.ui.show_overlay_background);
    assert!(config.ui.rounded_corners);
    assert_eq!(config.ui.corner_radius, 3);
    assert_eq!((config.ui.shadow_offset_x, config.ui.shadow_offset_y), (-4, 5));
    assert_eq!(config.colors.background, 0x010203);
    assert_eq!(config.colors.cell, 0x202832);
    assert_eq!(config.colors.muted, 0xabcdef);
    assert_eq!(config.colors.close_button_text, 0xffffff);
    assert_eq!(config.layout.label_height, 0);
    assert_eq!(config.layout.padding, 4);
    assert_eq!(config.thumbnails.refresh_after_seconds, 0);
    assert_eq!(config.thumbnails.max_cache_edge, 1);
    assert!(!config.daemon.background_current_workspace_refresh);
    assert_eq!((config.daemon.idle_refresh_ms, config.daemon.stale_show_ms), (1, 2));
}

#[test]
fn unusable_settings_are_refused() {
    assert_eq!(
        message(with_ui(RawUiConfig { font: Some(" \n ".to_string()), ..no_ui() })),
        "ui.font must not be empty"
    );
    assert_eq!(
        message(with_ui(RawUiConfig { corner_radius: Some(0), ..no_ui() })),
        "ui.corner_radius must be at least 1"
    );
    assert_eq!(
        message(with_ui(RawUiConfig { shadow_radius: Some(0), ..no_ui() })),
        "ui.shadow_radius must be at least 1"
    );
    assert_eq!(
        message(RawConfig {
            thumbnails: Some(RawThumbnailConfig {
                refresh_after_seconds: None,
                max_cache_edge: Some(0),
            }),
            ..empty()
        }),
        "thumbnails.max_cache_edge must be at least 1"
    );
    assert_eq!(
        message(RawConfig {
            daemon: Some(RawDaemonConfig {
                background_current_workspace_refresh: None,
                idle_refresh_ms: Some(0),
                stale_show_ms: Some(0),
            }),
            ..empty()
        }),
        "daemon.idle_refresh_ms must be at least 1"
    );
    assert_eq!(
        message(RawConfig {
            daemon: Some(RawDaemonConfig {
                background_current_workspace_refresh: None,
                idle_refresh_ms: None,
                stale_show_ms: Some(0),
            }),
            ..empty()
        }),
        "daemon.stale_show_ms must be at least 1"
    );
}

#[test]
fn the_first_fault_is_told() {
    let raw = RawConfig {
        ui: Some(RawUiConfig { shadow_radius: Some(0), ..no_ui() }),
        colors: Some(RawColorConfig { cell: Some("red".to_string()), ..no_colors() }),
        ..empty()
    };
    assert_eq!(message(raw), "ui.shadow_radius must be at least 1");
    let raw = RawConfig {
        colors: Some(RawColorConfig {
            close_button_border: Some("#12345".to_string()),
            ..no_colors()
        }),
        ..empty()
    };
    assert_eq!(message(raw), "colors.close_button_border must be a #RRGGBB hex color");
}

#[test]
fn colors_are_six_hex_digits() {
    assert_eq!(parse_color(ColorField::Cell, "#4ea1ff"), Ok(0x4ea1ff));
    assert_eq!(parse_color(ColorField::Cell, "\t00000f\n"), Ok(15));
    assert_eq!(parse_color(ColorField::Cell, " #ABCdef"), Ok(0xabcdef));
    for signed in ["+12345", "#+0ff00", "-12345"] {
        assert_eq!(
            parse_color(ColorField::Cell, signed),
            Err(ConfigError::Color(ColorField::Cell, ColorFault::Digits))
        );
    }
    assert_eq!(
        parse_color(ColorField::Cell, "#fff"),
        Err(ConfigError::Color(ColorField::Cell, ColorFault::Length))
    );
    assert_eq!(
        parse_color(ColorField::Muted, "#gggggg"),
        Err(ConfigError::Color(ColorField::Muted, ColorFault::Digits))
    );
    assert_eq!(
        parse_color(ColorField::Text, "##12345"),
        Err(ConfigError::Color(ColorField::Text, ColorFault::Digits))
    );
    assert_eq!(
        parse_color(ColorField::Text, "äöü"),
        Err(ConfigError::Color(ColorField::Text, ColorFault::Digits))
    );
    assert_eq!(
        ConfigError::Color(ColorField::Text, ColorFault::Digits).message(),
        "colors.text must be a #RRGGBB hex color"
    );
}

#[test]
fn the_file_that_the_user_names_comes_first() {
    let named = Some("/etc/a.toml".to_string());
    let usual = Some("/home/u/.config/tobyscope-x11/config.toml".to_string());
    let source = choose_source(named.clone(), usual.clone(), true);
    assert!(matches!(&source, ConfigSource::Explicit(path) if path == "/etc/a.toml"));
    assert_eq!(source.note(), "config: loaded /etc/a.toml");
    let source = choose_source(None, usual.clone(), true);
    assert!(matches!(&source, ConfigSource::Xdg(_)));
    assert_eq!(source.note(), "config: loaded /home/u/.config/tobyscope-x11/config.toml");
    let source = choose_source(None, usual, false);
    assert_eq!(
        source.note(),
        "config: using built-in defaults; no config at /home/u/.config/tobyscope-x11/config.toml"
    );
    let source = choose_source(None, None, true);
    assert_eq!(
        source.note(),
        "config: using built-in defaults; XDG config dir is unavailable"
    );
}
