//! Settings: the built-in defaults, and how a configuration file changes them.

use vstd::prelude::*;
use vstd::utf8::*;

use crate::text;

verus! {

/// All settings.
#[derive(Debug)]
pub struct AppConfig {
    pub ui: UiConfig,
    pub colors: ColorConfig,
    pub layout: LayoutConfig,
    pub thumbnails: ThumbnailConfig,
    pub daemon: DaemonConfig,
}

#[derive(Debug)]
pub struct UiConfig {
    pub font: String,
    pub show_overlay_background: bool,
    pub show_workspace_number: bool,
    pub show_program_name: bool,
    pub rounded_corners: bool,
    pub corner_radius: u16,
    pub shadows: bool,
    pub shadow_offset_x: i16,
    pub shadow_offset_y: i16,
    pub shadow_radius: u16,
}

/// Colors as `0xRRGGBB`.
#[derive(Debug, Clone, Copy)]
pub struct ColorConfig {
    pub background: u32,
    pub cell: u32,
    pub cell_hover: u32,
    pub border: u32,
    pub selected: u32,
    pub text: u32,
    pub muted: u32,
    pub error: u32,
    pub empty: u32,
    pub shadow: u32,
    pub close_button: u32,
    pub close_button_border: u32,
    pub close_button_text: u32,
}

#[derive(Debug, Clone, Copy)]
pub struct LayoutConfig {
    pub margin: u16,
    pub gap_small: u16,
    pub gap: u16,
    pub padding: u16,
    pub top_meta_height: u16,
    pub label_height: u16,
}

#[derive(Debug, Clone, Copy)]
pub struct ThumbnailConfig {
    pub refresh_after_seconds: u64,
    pub max_cache_edge: u32,
}

#[derive(Debug, Clone, Copy)]
pub struct DaemonConfig {
    pub background_current_workspace_refresh: bool,
    pub idle_refresh_ms: u64,
    pub stale_show_ms: u64,
}

/// The settings in use.
#[derive(Debug)]
pub struct LoadedConfig {
    pub config: AppConfig,
}

impl Clone for UiConfig {
    fn clone(&self) -> (copy: Self)
        ensures
            copy == *self,
    {
        UiConfig {
            font: self.font.clone(),
            show_overlay_background: self.show_overlay_background,
            show_workspace_number: self.show_workspace_number,
            show_program_name: self.show_program_name,
            rounded_corners: self.rounded_corners,
            corner_radius: self.corner_radius,
            shadows: self.shadows,
            shadow_offset_x: self.shadow_offset_x,
            shadow_offset_y: self.shadow_offset_y,
            shadow_radius: self.shadow_radius,
        }
    }
}

impl Clone for AppConfig {
    fn clone(&self) -> (copy: Self)
        ensures
            copy == *self,
    {
        AppConfig {
            ui: self.ui.clone(),
            colors: self.colors,
            layout: self.layout,
            thumbnails: self.thumbnails,
            daemon: self.daemon,
        }
    }
}

impl Clone for LoadedConfig {
    fn clone(&self) -> (copy: Self)
        ensures
            copy == *self,
    {
        LoadedConfig { config: self.config.clone() }
    }
}

/// A configuration file as it was read: every section and every setting may be missing.
#[derive(Debug)]
pub struct RawConfig {
    pub ui: Option<RawUiConfig>,
    pub colors: Option<RawColorConfig>,
    pub layout: Option<RawLayoutConfig>,
    pub thumbnails: Option<RawThumbnailConfig>,
    pub daemon: Option<RawDaemonConfig>,
}

#[derive(Debug)]
pub struct RawUiConfig {
    pub font: Option<String>,
    pub show_overlay_background: Option<bool>,
    pub show_workspace_number: Option<bool>,
    pub show_program_name: Option<bool>,
    pub rounded_corners: Option<bool>,
    pub corner_radius: Option<u16>,
    pub shadows: Option<bool>,
    pub shadow_offset_x: Option<i16>,
    pub shadow_offset_y: Option<i16>,
    pub shadow_radius: Option<u16>,
}

#[derive(Debug)]
pub struct RawColorConfig {
    pub background: Option<String>,
    pub cell: Option<String>,
    pub cell_hover: Option<String>,
    pub border: Option<String>,
    pub selected: Option<String>,
    pub text: Option<String>,
    pub muted: Option<String>,
    pub error: Option<String>,
    pub empty: Option<String>,
    pub shadow: Option<String>,
    pub close_button: Option<String>,
    pub close_button_border: Option<String>,
    pub close_button_text: Option<String>,
}

#[derive(Debug, Clone, Copy)]
pub struct RawLayoutConfig {
    pub margin: Option<u16>,
    pub gap_small: Option<u16>,
    pub gap: Option<u16>,
    pub padding: Option<u16>,
    pub top_meta_height: Option<u16>,
    pub label_height: Option<u16>,
}

#[derive(Debug, Clone, Copy)]
pub struct RawThumbnailConfig {
    pub refresh_after_seconds: Option<u64>,
    pub max_cache_edge: Option<u32>,
}

#[derive(Debug, Clone, Copy)]
pub struct RawDaemonConfig {
    pub background_current_workspace_refresh: Option<bool>,
    pub idle_refresh_ms: Option<u64>,
    pub stale_show_ms: Option<u64>,
}

/// A color setting.
#[derive(Debug, Clone, Copy, PartialEq, Eq, Structural)]
pub enum ColorField {
    Background,
    Cell,
    CellHover,
    Border,
    Selected,
    Text,
    Muted,
    Error,
    Empty,
    Shadow,
    CloseButton,
    CloseButtonBorder,
    CloseButtonText,
}

/// What is wrong with a color: it has not six characters, or they are not hexadecimal.
#[derive(Debug, Clone, Copy, PartialEq, Eq, Structural)]
pub enum ColorFault {
    Length,
    Digits,
}

/// Why a configuration is rejected.
#[derive(Debug, Clone, Copy, PartialEq, Eq, Structural)]
pub enum ConfigError {
    EmptyFont,
    ZeroCornerRadius,
    ZeroShadowRadius,
    Color(ColorField, ColorFault),
    ZeroMaxCacheEdge,
    ZeroIdleRefresh,
    ZeroStaleShow,
}

impl ColorField {
    /// The setting's full name.
    pub open spec fn spec_name(self) -> Seq<char> {
        match self {
            ColorField::Background => "colors.background"@,
            ColorField::Cell => "colors.cell"@,
            ColorField::CellHover => "colors.cell_hover"@,
            ColorField::Border => "colors.border"@,
            ColorField::Selected => "colors.selected"@,
            ColorField::Text => "colors.text"@,
            ColorField::Muted => "colors.muted"@,
            ColorField::Error => "colors.error"@,
            ColorField::Empty => "colors.empty"@,
            ColorField::Shadow => "colors.shadow"@,
            ColorField::CloseButton => "colors.close_button"@,
            ColorField::CloseButtonBorder => "colors.close_button_border"@,
            ColorField::CloseButtonText => "colors.close_button_text"@,
        }
    }

    /// The setting's full name.
    pub fn name(self) -> (name: &'static str)
        ensures
            name@ == self.spec_name(),
    {
        match self {
            ColorField::Background => "colors.background",
            ColorField::Cell => "colors.cell",
            ColorField::CellHover => "colors.cell_hover",
            ColorField::Border => "colors.border",
            ColorField::Selected => "colors.selected",
            ColorField::Text => "colors.text",
            ColorField::Muted => "colors.muted",
            ColorField::Error => "colors.error",
            ColorField::Empty => "colors.empty",
            ColorField::Shadow => "colors.shadow",
            ColorField::CloseButton => "colors.close_button",
            ColorField::CloseButtonBorder => "colors.close_button_border",
            ColorField::CloseButtonText => "colors.close_button_text",
        }
    }
}

impl ConfigError {
    /// The message that tells the user what to mend.
    pub open spec fn spec_message(self) -> Seq<char> {
        match self {
            ConfigError::EmptyFont => "ui.font must not be empty"@,
            ConfigError::ZeroCornerRadius => "ui.corner_radius must be at least 1"@,
            ConfigError::ZeroShadowRadius => "ui.shadow_radius must be at least 1"@,
            ConfigError::Color(field, _) => field.spec_name() + " must be a #RRGGBB hex color"@,
            ConfigError::ZeroMaxCacheEdge => "thumbnails.max_cache_edge must be at least 1"@,
            ConfigError::ZeroIdleRefresh => "daemon.idle_refresh_ms must be at least 1"@,
            ConfigError::ZeroStaleShow => "daemon.stale_show_ms must be at least 1"@,
        }
    }

    /// The message that tells the user what to mend.
    pub fn message(self) -> (message: String)
        ensures
            message@ == self.spec_message(),
    {
        match self {
            ConfigError::EmptyFont => "ui.font must not be empty".to_owned(),
            ConfigError::ZeroCornerRadius => "ui.corner_radius must be at least 1".to_owned(),
            ConfigError::ZeroShadowRadius => "ui.shadow_radius must be at least 1".to_owned(),
            ConfigError::Color(field, _) => {
                let mut message: String = field.name().to_owned();
                message.append(" must be a #RRGGBB hex color");
                message
            },
            ConfigError::ZeroMaxCacheEdge => {
                "thumbnails.max_cache_edge must be at least 1".to_owned()
            },
            ConfigError::ZeroIdleRefresh => "daemon.idle_refresh_ms must be at least 1".to_owned(),
            ConfigError::ZeroStaleShow => "daemon.stale_show_ms must be at least 1".to_owned(),
        }
    }
}

/// The part of a color setting that should hold six hexadecimal digits: what follows an
/// optional number sign, without the white space around the setting.
pub open spec fn color_digits(value: Seq<char>) -> Seq<char> {
    let inner = text::trimmed(value);
    if inner.len() > 0 && inner[0] == '#' {
        inner.drop_first()
    } else {
        inner
    }
}

/// The color that a setting writes, or what is wrong with it.
pub open spec fn color_value(value: Seq<char>) -> Result<u32, ColorFault> {
    let digits = color_digits(value);
    if encode_utf8(digits).len() != 6 {
        Err(ColorFault::Length)
    } else if text::all_digits(digits, 16) {
        Ok(text::digits_value(digits, 16) as u32)
    } else {
        Err(ColorFault::Digits)
    }
}

proof fn lemma_utf8_is_no_shorter(chars: Seq<char>)
    ensures
        chars.len() <= encode_utf8(chars).len(),
    decreases chars.len(),
{
    if chars.len() > 0 {
        lemma_utf8_is_no_shorter(chars.drop_first());
        char_is_scalar(chars[0]);
        assert(encode_utf8(chars) == encode_scalar(chars[0] as u32) + encode_utf8(
            chars.drop_first(),
        ));
    }
}

/// Some bytes encode some characters.
proof fn lemma_something_is_encoded(chars: Seq<char>)
    requires
        encode_utf8(chars).len() > 0,
    ensures
        chars.len() > 0,
{
}

/// `16^count`.
spec fn hex_bound(count: nat) -> nat
    decreases count,
{
    if count == 0 {
        1
    } else {
        16 * hex_bound((count - 1) as nat)
    }
}

proof fn lemma_hex_value_bound(digits: Seq<char>)
    requires
        text::all_digits(digits, 16),
    ensures
        text::digits_value(digits, 16) < hex_bound(digits.len()),
        digits.len() <= 6 ==> text::digits_value(digits, 16) < 0x100_0000,
    decreases digits.len(),
{
    if digits.len() > 0 {
        assert forall|i: int| 0 <= i < digits.len() - 1 implies text::digit_value(
            #[trigger] digits.drop_last()[i],
            16,
        ) is Some by {
            assert(digits.drop_last()[i] == digits[i]);
        }
        lemma_hex_value_bound(digits.drop_last());
        assert(text::digit_value(digits[digits.len() - 1], 16) is Some);
    }
    reveal_with_fuel(hex_bound, 7);
}

/// Reads a color setting.
pub fn parse_color(field: ColorField, value: &str) -> (color: Result<u32, ConfigError>)
    ensures
        color == match color_value(value@) {
            Ok(number) => Ok::<u32, ConfigError>(number),
            Err(fault) => Err::<u32, ConfigError>(ConfigError::Color(field, fault)),
        },
{
    let inner: Vec<char> = text::chars_of(text::trim(value).as_str());
    let start: usize = if inner.len() > 0 && inner[0] == '#' {
        1
    } else {
        0
    };
    let digits: String = text::string_of(&inner, start, inner.len());
    assert(digits@ =~= color_digits(value@));
    if digits.as_str().as_bytes().len() != 6 {
        return Err(ConfigError::Color(field, ColorFault::Length));
    }
    proof {
        lemma_utf8_is_no_shorter(digits@);
        lemma_something_is_encoded(digits@);
        if text::all_digits(digits@, 16) {
            lemma_hex_value_bound(digits@);
        }
        if digits@[0] == '+' {
            assert(text::digit_value(digits@[0], 16) is None);
        }
    }
    if start < inner.len() && inner[start] == '+' {
        return Err(ConfigError::Color(field, ColorFault::Digits));
    }
    match text::parse_unsigned(digits.as_str(), 16) {
        Some(number) => Ok(number as u32),
        None => Err(ConfigError::Color(field, ColorFault::Digits)),
    }
}

pub open spec fn default_colors() -> ColorConfig {
    ColorConfig {
        background: 0x101418,
        cell: 0x202832,
        cell_hover: 0x2b3642,
        border: 0x5f6f7f,
        selected: 0x4ea1ff,
        text: 0xe8edf2,
        muted: 0x95a3b2,
        error: 0x66303a,
        empty: 0x151b21,
        shadow: 0x05080c,
        close_button: 0xffffff,
        close_button_border: 0xffffff,
        close_button_text: 0x000000,
    }
}

pub open spec fn default_layout() -> LayoutConfig {
    LayoutConfig {
        margin: 24,
        gap_small: 12,
        gap: 18,
        padding: 12,
        top_meta_height: 40,
        label_height: 34,
    }
}

pub open spec fn default_thumbnails() -> ThumbnailConfig {
    ThumbnailConfig { refresh_after_seconds: 60, max_cache_edge: 960 }
}

pub open spec fn default_daemon() -> DaemonConfig {
    DaemonConfig {
        background_current_workspace_refresh: true,
        idle_refresh_ms: 750,
        stale_show_ms: 250,
    }
}

impl UiConfig {
    /// The built-in settings of the user interface.
    pub open spec fn is_default(self) -> bool {
        &&& self.font@ == "fixed"@
        &&& self.show_overlay_background
        &&& self.show_workspace_number
        &&& self.show_program_name
        &&& !self.rounded_corners
        &&& self.corner_radius == 14
        &&& !self.shadows
        &&& self.shadow_offset_x == 0
        &&& self.shadow_offset_y == 8
        &&& self.shadow_radius == 18
    }
}

impl AppConfig {
    /// The built-in settings.
    pub open spec fn is_default(self) -> bool {
        &&& self.ui.is_default()
        &&& self.colors == default_colors()
        &&& self.layout == default_layout()
        &&& self.thumbnails == default_thumbnails()
        &&& self.daemon == default_daemon()
    }
}

impl Default for AppConfig {
    fn default() -> (config: Self)
        ensures
            config.is_default(),
    {
        AppConfig {
            ui: UiConfig {
                font: "fixed".to_owned(),
                show_overlay_background: true,
                show_workspace_number: true,
                show_program_name: true,
                rounded_corners: false,
                corner_radius: 14,
                shadows: false,
                shadow_offset_x: 0,
                shadow_offset_y: 8,
                shadow_radius: 18,
            },
            colors: ColorConfig {
                background: 0x101418,
                cell: 0x202832,
                cell_hover: 0x2b3642,
                border: 0x5f6f7f,
                selected: 0x4ea1ff,
                text: 0xe8edf2,
                muted: 0x95a3b2,
                error: 0x66303a,
                empty: 0x151b21,
                shadow: 0x05080c,
                close_button: 0xffffff,
                close_button_border: 0xffffff,
                close_button_text: 0x000000,
            },
            layout: LayoutConfig {
                margin: 24,
                gap_small: 12,
                gap: 18,
                padding: 12,
                top_meta_height: 40,
                label_height: 34,
            },
            thumbnails: ThumbnailConfig { refresh_after_seconds: 60, max_cache_edge: 960 },
            daemon: DaemonConfig {
                background_current_workspace_refresh: true,
                idle_refresh_ms: 750,
                stale_show_ms: 250,
            },
        }
    }
}

/// A setting, or its default where the file has none.
pub open spec fn setting<T>(value: Option<T>, default: T) -> T {
    match value {
        Some(v) => v,
        None => default,
    }
}

/// A color setting, or its default where the file has none.
pub open spec fn color_setting(value: Option<String>, default: u32) -> u32 {
    match value {
        Some(v) => color_value(v@)->Ok_0,
        None => default,
    }
}

/// What is wrong with a color setting.
pub open spec fn color_error(field: ColorField, value: Option<String>) -> Option<ConfigError> {
    match value {
        Some(v) => match color_value(v@) {
            Ok(_) => None,
            Err(fault) => Some(ConfigError::Color(field, fault)),
        },
        None => None,
    }
}

/// The earlier of two findings.
pub open spec fn either(
    first: Option<ConfigError>,
    second: Option<ConfigError>,
) -> Option<ConfigError> {
    if first is Some {
        first
    } else {
        second
    }
}

/// `error` where `fails`.
pub open spec fn when(fails: bool, error: ConfigError) -> Option<ConfigError> {
    if fails {
        Some(error)
    } else {
        None
    }
}

impl RawUiConfig {
    /// What is wrong with the section, at its first wrong setting.
    pub open spec fn first_error(self) -> Option<ConfigError> {
        either(
            when(
                self.font is Some && text::trimmed(self.font->0@).len() == 0,
                ConfigError::EmptyFont,
            ),
            either(
                when(self.corner_radius == Some(0u16), ConfigError::ZeroCornerRadius),
                when(self.shadow_radius == Some(0u16), ConfigError::ZeroShadowRadius),
            ),
        )
    }

    /// The section's settings over the defaults.
    pub open spec fn applied(self, ui: UiConfig) -> bool {
        &&& ui.font@ == match self.font {
            Some(font) => text::trimmed(font@),
            None => "fixed"@,
        }
        &&& ui.show_overlay_background == setting(self.show_overlay_background, true)
        &&& ui.show_workspace_number == setting(self.show_workspace_number, true)
        &&& ui.show_program_name == setting(self.show_program_name, true)
        &&& ui.rounded_corners == setting(self.rounded_corners, false)
        &&& ui.corner_radius == setting(self.corner_radius, 14)
        &&& ui.shadows == setting(self.shadows, false)
        &&& ui.shadow_offset_x == setting(self.shadow_offset_x, 0)
        &&& ui.shadow_offset_y == setting(self.shadow_offset_y, 8)
        &&& ui.shadow_radius == setting(self.shadow_radius, 18)
    }
}

impl RawColorConfig {
    /// What is wrong with the section, at its first wrong setting.
    pub open spec fn first_error(self) -> Option<ConfigError> {
        let error = color_error(ColorField::Background, self.background);
        let error = either(error, color_error(ColorField::Cell, self.cell));
        let error = either(error, color_error(ColorField::CellHover, self.cell_hover));
        let error = either(error, color_error(ColorField::Border, self.border));
        let error = either(error, color_error(ColorField::Selected, self.selected));
        let error = either(error, color_error(ColorField::Text, self.text));
        let error = either(error, color_error(ColorField::Muted, self.muted));
        let error = either(error, color_error(ColorField::Error, self.error));
        let error = either(error, color_error(ColorField::Empty, self.empty));
        let error = either(error, color_error(ColorField::Shadow, self.shadow));
        let error = either(error, color_error(ColorField::CloseButton, self.close_button));
        let error = either(
            error,
            color_error(ColorField::CloseButtonBorder, self.close_button_border),
        );
        either(
            error,
            color_error(ColorField::CloseButtonText, self.close_button_text),
        )
    }

    /// The section's settings over the defaults.
    pub open spec fn applied(self) -> ColorConfig {
        ColorConfig {
            background: color_setting(self.background, 0x101418),
            cell: color_setting(self.cell, 0x202832),
            cell_hover: color_setting(self.cell_hover, 0x2b3642),
            border: color_setting(self.border, 0x5f6f7f),
            selected: color_setting(self.selected, 0x4ea1ff),
            text: color_setting(self.text, 0xe8edf2),
            muted: color_setting(self.muted, 0x95a3b2),
            error: color_setting(self.error, 0x66303a),
            empty: color_setting(self.empty, 0x151b21),
            shadow: color_setting(self.shadow, 0x05080c),
            close_button: color_setting(self.close_button, 0xffffff),
            close_button_border: color_setting(self.close_button_border, 0xffffff),
            close_button_text: color_setting(self.close_button_text, 0x000000),
        }
    }
}

impl RawLayoutConfig {
    /// The section's settings over the defaults.
    pub open spec fn applied(self) -> LayoutConfig {
        LayoutConfig {
            margin: setting(self.margin, 24),
            gap_small: setting(self.gap_small, 12),
            gap: setting(self.gap, 18),
            padding: setting(self.padding, 12),
            top_meta_height: setting(self.top_meta_height, 40),
            label_height: setting(self.label_height, 34),
        }
    }
}

impl RawThumbnailConfig {
    pub open spec fn first_error(self) -> Option<ConfigError> {
        when(self.max_cache_edge == Some(0u32), ConfigError::ZeroMaxCacheEdge)
    }

    /// The section's settings over the defaults.
    pub open spec fn applied(self) -> ThumbnailConfig {
        ThumbnailConfig {
            refresh_after_seconds: setting(self.refresh_after_seconds, 60),
            max_cache_edge: setting(self.max_cache_edge, 960),
        }
    }
}

impl RawDaemonConfig {
    pub open spec fn first_error(self) -> Option<ConfigError> {
        either(
            when(self.idle_refresh_ms == Some(0u64), ConfigError::ZeroIdleRefresh),
            when(self.stale_show_ms == Some(0u64), ConfigError::ZeroStaleShow),
        )
    }

    /// The section's settings over the defaults.
    pub open spec fn applied(self) -> DaemonConfig {
        DaemonConfig {
            background_current_workspace_refresh: setting(
                self.background_current_workspace_refresh,
                true,
            ),
            idle_refresh_ms: setting(self.idle_refresh_ms, 750),
            stale_show_ms: setting(self.stale_show_ms, 250),
        }
    }
}

impl RawConfig {
    /// What is wrong with the file, at its first wrong setting.
    pub open spec fn first_error(self) -> Option<ConfigError> {
        either(
            match self.ui {
                Some(ui) => ui.first_error(),
                None => None,
            },
            either(
                match self.colors {
                    Some(colors) => colors.first_error(),
                    None => None,
                },
                either(
                    match self.thumbnails {
                        Some(thumbnails) => thumbnails.first_error(),
                        None => None,
                    },
                    match self.daemon {
                        Some(daemon) => daemon.first_error(),
                        None => None,
                    },
                ),
            ),
        )
    }

    /// The file's settings over the defaults.
    pub open spec fn applied(self, config: AppConfig) -> bool {
        &&& match self.ui {
            Some(ui) => ui.applied(config.ui),
            None => config.ui.is_default(),
        }
        &&& config.colors == match self.colors {
            Some(colors) => colors.applied(),
            None => default_colors(),
        }
        &&& config.layout == match self.layout {
            Some(layout) => layout.applied(),
            None => default_layout(),
        }
        &&& config.thumbnails == match self.thumbnails {
            Some(thumbnails) => thumbnails.applied(),
            None => default_thumbnails(),
        }
        &&& config.daemon == match self.daemon {
            Some(daemon) => daemon.applied(),
            None => default_daemon(),
        }
    }
}

fn merge_ui(ui: RawUiConfig, base: UiConfig) -> (merged: Result<UiConfig, ConfigError>)
    requires
        base.is_default(),
    ensures
        match merged {
            Ok(config) => ui.first_error() is None && ui.applied(config),
            Err(error) => ui.first_error() == Some(error),
        },
{
    let mut config: UiConfig = base;
    if let Some(font) = ui.font {
        let font: String = text::trim(font.as_str());
        if font.as_str().is_empty() {
            return Err(ConfigError::EmptyFont);
        }
        config.font = font;
    }
    if let Some(value) = ui.show_overlay_background {
        config.show_overlay_background = value;
    }
    if let Some(value) = ui.show_workspace_number {
        config.show_workspace_number = value;
    }
    if let Some(value) = ui.show_program_name {
        config.show_program_name = value;
    }
    if let Some(value) = ui.rounded_corners {
        config.rounded_corners = value;
    }
    if let Some(value) = ui.corner_radius {
        if value == 0 {
            return Err(ConfigError::ZeroCornerRadius);
        }
        config.corner_radius = value;
    }
    if let Some(value) = ui.shadows {
        config.shadows = value;
    }
    if let Some(value) = ui.shadow_offset_x {
        config.shadow_offset_x = value;
    }
    if let Some(value) = ui.shadow_offset_y {
        config.shadow_offset_y = value;
    }
    if let Some(value) = ui.shadow_radius {
        if value == 0 {
            return Err(ConfigError::ZeroShadowRadius);
        }
        config.shadow_radius = value;
    }
    Ok(config)
}

fn merge_color(
    field: ColorField,
    value: &Option<String>,
    base: u32,
) -> (merged: Result<u32, ConfigError>)
    ensures
        match merged {
            Ok(color) => color_error(field, *value) is None && color == color_setting(*value, base),
            Err(error) => color_error(field, *value) == Some(error),
        },
{
    match value {
        Some(value) => parse_color(field, value.as_str()),
        None => Ok(base),
    }
}

fn merge_colors(
    colors: &RawColorConfig,
    base: ColorConfig,
) -> (merged: Result<ColorConfig, ConfigError>)
    requires
        base == default_colors(),
    ensures
        match merged {
            Ok(config) => colors.first_error() is None && config == colors.applied(),
            Err(error) => colors.first_error() == Some(error),
        },
{
    Ok(
        ColorConfig {
            background: merge_color(ColorField::Background, &colors.background, base.background)?,
            cell: merge_color(ColorField::Cell, &colors.cell, base.cell)?,
            cell_hover: merge_color(ColorField::CellHover, &colors.cell_hover, base.cell_hover)?,
            border: merge_color(ColorField::Border, &colors.border, base.border)?,
            selected: merge_color(ColorField::Selected, &colors.selected, base.selected)?,
            text: merge_color(ColorField::Text, &colors.text, base.text)?,
            muted: merge_color(ColorField::Muted, &colors.muted, base.muted)?,
            error: merge_color(ColorField::Error, &colors.error, base.error)?,
            empty: merge_color(ColorField::Empty, &colors.empty, base.empty)?,
            shadow: merge_color(ColorField::Shadow, &colors.shadow, base.shadow)?,
            close_button: merge_color(
                ColorField::CloseButton,
                &colors.close_button,
                base.close_button,
            )?,
            close_button_border: merge_color(
                ColorField::CloseButtonBorder,
                &colors.close_button_border,
                base.close_button_border,
            )?,
            close_button_text: merge_color(
                ColorField::CloseButtonText,
                &colors.close_button_text,
                base.close_button_text,
            )?,
        },
    )
}

fn merge_layout(layout: RawLayoutConfig, base: LayoutConfig) -> (config: LayoutConfig)
    requires
        base == default_layout(),
    ensures
        config == layout.applied(),
{
    let mut config: LayoutConfig = base;
    if let Some(value) = layout.margin {
        config.margin = value;
    }
    if let Some(value) = layout.gap_small {
        config.gap_small = value;
    }
    if let Some(value) = layout.gap {
        config.gap = value;
    }
    if let Some(value) = layout.padding {
        config.padding = value;
    }
    if let Some(value) = layout.top_meta_height {
        config.top_meta_height = value;
    }
    if let Some(value) = layout.label_height {
        config.label_height = value;
    }
    config
}

fn merge_thumbnails(
    thumbnails: RawThumbnailConfig,
    base: ThumbnailConfig,
) -> (merged: Result<ThumbnailConfig, ConfigError>)
    requires
        base == default_thumbnails(),
    ensures
        match merged {
            Ok(config) => thumbnails.first_error() is None && config == thumbnails.applied(),
            Err(error) => thumbnails.first_error() == Some(error),
        },
{
    let mut config: ThumbnailConfig = base;
    if let Some(value) = thumbnails.refresh_after_seconds {
        config.refresh_after_seconds = value;
    }
    if let Some(value) = thumbnails.max_cache_edge {
        if value == 0 {
            return Err(ConfigError::ZeroMaxCacheEdge);
        }
        config.max_cache_edge = value;
    }
    Ok(config)
}

fn merge_daemon(
    daemon: RawDaemonConfig,
    base: DaemonConfig,
) -> (merged: Result<DaemonConfig, ConfigError>)
    requires
        base == default_daemon(),
    ensures
        match merged {
            Ok(config) => daemon.first_error() is None && config == daemon.applied(),
            Err(error) => daemon.first_error() == Some(error),
        },
{
    let mut config: DaemonConfig = base;
    if let Some(value) = daemon.background_current_workspace_refresh {
        config.background_current_workspace_refresh = value;
    }
    if let Some(value) = daemon.idle_refresh_ms {
        if value == 0 {
            return Err(ConfigError::ZeroIdleRefresh);
        }
        config.idle_refresh_ms = value;
    }
    if let Some(value) = daemon.stale_show_ms {
        if value == 0 {
            return Err(ConfigError::ZeroStaleShow);
        }
        config.stale_show_ms = value;
    }
    Ok(config)
}

impl AppConfig {
    /// The settings of a configuration file over the defaults. A wrong setting rejects the whole
    /// file, and the first one is reported.
    pub fn merge(raw: RawConfig) -> (merged: Result<Self, ConfigError>)
        ensures
            match merged {
                Ok(config) => raw.first_error() is None && raw.applied(config),
                Err(error) => raw.first_error() == Some(error),
            },
    {
        let base: AppConfig = AppConfig::default();
        let ui: UiConfig = match raw.ui {
            Some(section) => match merge_ui(section, base.ui) {
                Ok(merged) => merged,
                Err(error) => {
                    return Err(error);
                },
            },
            None => base.ui,
        };
        let colors: ColorConfig = match &raw.colors {
            Some(section) => match merge_colors(section, base.colors) {
                Ok(merged) => merged,
                Err(error) => {
                    return Err(error);
                },
            },
            None => base.colors,
        };
        let layout: LayoutConfig = match raw.layout {
            Some(section) => merge_layout(section, base.layout),
            None => base.layout,
        };
        let thumbnails: ThumbnailConfig = match raw.thumbnails {
            Some(section) => match merge_thumbnails(section, base.thumbnails) {
                Ok(merged) => merged,
                Err(error) => {
                    return Err(error);
                },
            },
            None => base.thumbnails,
        };
        let daemon: DaemonConfig = match raw.daemon {
            Some(section) => match merge_daemon(section, base.daemon) {
                Ok(merged) => merged,
                Err(error) => {
                    return Err(error);
                },
            },
            None => base.daemon,
        };
        Ok(AppConfig { ui, colors, layout, thumbnails, daemon })
    }
}

/// Where the settings come from, with the path in question.
#[derive(Debug)]
pub enum ConfigSource {
    /// A file that the user named.
    Explicit(String),
    /// The file in the user's configuration directory.
    Xdg(String),
    /// The built-in settings: the file that was looked for is missing, or there is no
    /// configuration directory.
    Defaults(Option<String>),
}

impl ConfigSource {
    /// The note about the source that is shown on request.
    pub open spec fn spec_note(self) -> Seq<char> {
        match self {
            ConfigSource::Explicit(path) => "config: loaded "@ + path@,
            ConfigSource::Xdg(path) => "config: loaded "@ + path@,
            ConfigSource::Defaults(
                Some(path),
            ) => "config: using built-in defaults; no config at "@ + path@,
            ConfigSource::Defaults(
                None,
            ) => "config: using built-in defaults; XDG config dir is unavailable"@,
        }
    }

    /// The note about the source that is shown on request.
    pub fn note(&self) -> (note: String)
        ensures
            note@ == self.spec_note(),
    {
        match self {
            ConfigSource::Explicit(path) => "config: loaded ".to_owned().concat(path.as_str()),
            ConfigSource::Xdg(path) => "config: loaded ".to_owned().concat(path.as_str()),
            ConfigSource::Defaults(
                Some(path),
            ) => "config: using built-in defaults; no config at ".to_owned().concat(path.as_str()),
            ConfigSource::Defaults(
                None,
            ) => "config: using built-in defaults; XDG config dir is unavailable".to_owned(),
        }
    }
}

/// The source of the settings.
pub open spec fn source_for(
    explicit_path: Option<String>,
    default_path: Option<String>,
    default_exists: bool,
) -> ConfigSource {
    match (explicit_path, default_path) {
        (Some(path), _) => ConfigSource::Explicit(path),
        (None, Some(path)) => if default_exists {
            ConfigSource::Xdg(path)
        } else {
            ConfigSource::Defaults(Some(path))
        },
        (None, None) => ConfigSource::Defaults(None),
    }
}

/// Chooses the source: a file that the user named, else the file in the configuration directory
/// where it exists, else the defaults.
pub fn choose_source(
    explicit_path: Option<String>,
    default_path: Option<String>,
    default_exists: bool,
) -> (source: ConfigSource)
    ensures
        source == match (explicit_path, default_path) {
            (Some(path), _) => ConfigSource::Explicit(path),
            (None, Some(path)) => if default_exists {
                ConfigSource::Xdg(path)
            } else {
                ConfigSource::Defaults(Some(path))
            },
            (None, None) => ConfigSource::Defaults(None),
        },
        source == source_for(explicit_path, default_path, default_exists),
{
    match explicit_path {
        Some(path) => ConfigSource::Explicit(path),
        None => match default_path {
            Some(path) => if default_exists {
                ConfigSource::Xdg(path)
            } else {
                ConfigSource::Defaults(Some(path))
            },
            None => ConfigSource::Defaults(None),
        },
    }
}

/// The settings in use: those of the file that the source names, over the defaults, or the
/// defaults alone.
pub fn load(file: Option<RawConfig>) -> (loaded: Result<LoadedConfig, ConfigError>)
    ensures
        match file {
            Some(raw) => match loaded {
                Ok(l) => raw.first_error() is None && raw.applied(l.config),
                Err(error) => raw.first_error() == Some(error),
            },
            None => loaded is Ok && loaded->Ok_0.config.is_default(),
        },
{
    match file {
        Some(raw) => match AppConfig::merge(raw) {
            Ok(config) => Ok(LoadedConfig { config }),
            Err(error) => Err(error),
        },
        None => Ok(LoadedConfig { config: AppConfig::default() }),
    }
}

impl RawConfig {
    /// Every section is missing or empty.
    pub open spec fn sets_nothing(self) -> bool {
        &&& self.ui matches Some(ui) ==> {
            &&& ui.font is None
            &&& ui.show_overlay_background is None
            &&& ui.show_workspace_number is None
            &&& ui.show_program_name is None
            &&& ui.rounded_corners is None
            &&& ui.corner_radius is None
            &&& ui.shadows is None
            &&& ui.shadow_offset_x is None
            &&& ui.shadow_offset_y is None
            &&& ui.shadow_radius is None
        }
        &&& self.colors matches Some(colors) ==> {
            &&& colors.background is None
            &&& colors.cell is None
            &&& colors.cell_hover is None
            &&& colors.border is None
            &&& colors.selected is None
            &&& colors.text is None
            &&& colors.muted is None
            &&& colors.error is None
            &&& colors.empty is None
            &&& colors.shadow is None
            &&& colors.close_button is None
            &&& colors.close_button_border is None
            &&& colors.close_button_text is None
        }
        &&& self.layout matches Some(layout) ==> {
            &&& layout.margin is None
            &&& layout.gap_small is None
            &&& layout.gap is None
            &&& layout.padding is None
            &&& layout.top_meta_height is None
            &&& layout.label_height is None
        }
        &&& self.thumbnails matches Some(thumbnails) ==> {
            &&& thumbnails.refresh_after_seconds is None
            &&& thumbnails.max_cache_edge is None
        }
        &&& self.daemon matches Some(daemon) ==> {
            &&& daemon.background_current_workspace_refresh is None
            &&& daemon.idle_refresh_ms is None
            &&& daemon.stale_show_ms is None
        }
    }
}

/// A file that sets nothing is accepted and leaves the defaults.
pub proof fn law_empty_file_keeps_defaults(raw: RawConfig, config: AppConfig)
    requires
        raw.sets_nothing(),
    ensures
        raw.first_error() is None,
        raw.applied(config) <==> config.is_default(),
{
}

/// Each color setting reaches the color of its own name and no other: an accepted file gives each
/// color the value that the setting of that name writes, and the built-in one where it has no
/// such setting, whatever else it sets.
pub proof fn law_each_color_comes_from_its_own_setting(raw: RawConfig, config: AppConfig)
    requires
        raw.first_error() is None,
        raw.applied(config),
    ensures
        match raw.colors {
            Some(RawColorConfig { background: Some(value), .. }) => color_value(value@) == Ok::<
                u32,
                ColorFault,
            >(config.colors.background),
            _ => config.colors.background == 0x101418,
        },
        match raw.colors {
            Some(RawColorConfig { cell: Some(value), .. }) => color_value(value@) == Ok::<
                u32,
                ColorFault,
            >(config.colors.cell),
            _ => config.colors.cell == 0x202832,
        },
        match raw.colors {
            Some(RawColorConfig { cell_hover: Some(value), .. }) => color_value(value@) == Ok::<
                u32,
                ColorFault,
            >(config.colors.cell_hover),
            _ => config.colors.cell_hover == 0x2b3642,
        },
        match raw.colors {
            Some(RawColorConfig { border: Some(value), .. }) => color_value(value@) == Ok::<
                u32,
                ColorFault,
            >(config.colors.border),
            _ => config.colors.border == 0x5f6f7f,
        },
        match raw.colors {
            Some(RawColorConfig { selected: Some(value), .. }) => color_value(value@) == Ok::<
                u32,
                ColorFault,
            >(config.colors.selected),
            _ => config.colors.selected == 0x4ea1ff,
        },
        match raw.colors {
            Some(RawColorConfig { text: Some(value), .. }) => color_value(value@) == Ok::<
                u32,
                ColorFault,
            >(config.colors.text),
            _ => config.colors.text == 0xe8edf2,
        },
        match raw.colors {
            Some(RawColorConfig { muted: Some(value), .. }) => color_value(value@) == Ok::<
                u32,
                ColorFault,
            >(config.colors.muted),
            _ => config.colors.muted == 0x95a3b2,
        },
        match raw.colors {
            Some(RawColorConfig { error: Some(value), .. }) => color_value(value@) == Ok::<
                u32,
                ColorFault,
            >(config.colors.error),
            _ => config.colors.error == 0x66303a,
        },
        match raw.colors {
            Some(RawColorConfig { empty: Some(value), .. }) => color_value(value@) == Ok::<
                u32,
                ColorFault,
            >(config.colors.empty),
            _ => config.colors.empty == 0x151b21,
        },
        match raw.colors {
            Some(RawColorConfig { shadow: Some(value), .. }) => color_value(value@) == Ok::<
                u32,
                ColorFault,
            >(config.colors.shadow),
            _ => config.colors.shadow == 0x05080c,
        },
        match raw.colors {
            Some(RawColorConfig { close_button: Some(value), .. }) => color_value(value@) == Ok::<
                u32,
                ColorFault,
            >(config.colors.close_button),
            _ => config.colors.close_button == 0xffffff,
        },
        match raw.colors {
            Some(RawColorConfig { close_button_border: Some(value), .. }) => color_value(value@) ==
                Ok::<
                u32,
                ColorFault,
            >(config.colors.close_button_border),
            _ => config.colors.close_button_border == 0xffffff,
        },
        match raw.colors {
            Some(RawColorConfig { close_button_text: Some(value), .. }) => color_value(value@) ==
                Ok::<
                u32,
                ColorFault,
            >(config.colors.close_button_text),
            _ => config.colors.close_button_text == 0x000000,
        },
{
}

/// Each of the other settings reaches the setting of its own name and no other.
pub proof fn law_each_setting_comes_from_its_own_name(raw: RawConfig, config: AppConfig)
    requires
        raw.first_error() is None,
        raw.applied(config),
    ensures
        match raw.ui {
            Some(RawUiConfig { font: Some(value), .. }) => config.ui.font@ == text::trimmed(value@),
            _ => config.ui.font@ == "fixed"@,
        },
        match raw.ui {
            Some(RawUiConfig { show_overlay_background: Some(value), .. }) => {
                config.ui.show_overlay_background == value
            },
            _ => config.ui.show_overlay_background == true,
        },
        match raw.ui {
            Some(RawUiConfig { show_workspace_number: Some(value), .. }) => {
                config.ui.show_workspace_number == value
            },
            _ => config.ui.show_workspace_number == true,
        },
        match raw.ui {
            Some(RawUiConfig { show_program_name: Some(value), .. }) => {
                config.ui.show_program_name == value
            },
            _ => config.ui.show_program_name == true,
        },
        match raw.ui {
            Some(RawUiConfig { rounded_corners: Some(value), .. }) => {
                config.ui.rounded_corners == value
            },
            _ => config.ui.rounded_corners == false,
        },
        match raw.ui {
            Some(RawUiConfig { corner_radius: Some(value), .. }) => {
                config.ui.corner_radius == value
            },
            _ => config.ui.corner_radius == 14,
        },
        match raw.ui {
            Some(RawUiConfig { shadows: Some(value), .. }) => config.ui.shadows == value,
            _ => config.ui.shadows == false,
        },
        match raw.ui {
            Some(RawUiConfig { shadow_offset_x: Some(value), .. }) => {
                config.ui.shadow_offset_x == value
            },
            _ => config.ui.shadow_offset_x == 0,
        },
        match raw.ui {
            Some(RawUiConfig { shadow_offset_y: Some(value), .. }) => {
                config.ui.shadow_offset_y == value
            },
            _ => config.ui.shadow_offset_y == 8,
        },
        match raw.ui {
            Some(RawUiConfig { shadow_radius: Some(value), .. }) => {
                config.ui.shadow_radius == value
            },
            _ => config.ui.shadow_radius == 18,
        },
        match raw.layout {
            Some(RawLayoutConfig { margin: Some(value), .. }) => config.layout.margin == value,
            _ => config.layout.margin == 24,
        },
        match raw.layout {
            Some(RawLayoutConfig { gap_small: Some(value), .. }) => {
                config.layout.gap_small == value
            },
            _ => config.layout.gap_small == 12,
        },
        match raw.layout {
            Some(RawLayoutConfig { gap: Some(value), .. }) => config.layout.gap == value,
            _ => config.layout.gap == 18,
        },
        match raw.layout {
            Some(RawLayoutConfig { padding: Some(value), .. }) => config.layout.padding == value,
            _ => config.layout.padding == 12,
        },
        match raw.layout {
            Some(RawLayoutConfig { top_meta_height: Some(value), .. }) => {
                config.layout.top_meta_height == value
            },
            _ => config.layout.top_meta_height == 40,
        },
        match raw.layout {
            Some(RawLayoutConfig { label_height: Some(value), .. }) => {
                config.layout.label_height == value
            },
            _ => config.layout.label_height == 34,
        },
        match raw.thumbnails {
            Some(RawThumbnailConfig { refresh_after_seconds: Some(value), .. }) => {
                config.thumbnails.refresh_after_seconds == value
            },
            _ => config.thumbnails.refresh_after_seconds == 60,
        },
        match raw.thumbnails {
            Some(RawThumbnailConfig { max_cache_edge: Some(value), .. }) => {
                config.thumbnails.max_cache_edge == value
            },
            _ => config.thumbnails.max_cache_edge == 960,
        },
        match raw.daemon {
            Some(RawDaemonConfig { background_current_workspace_refresh: Some(value), .. }) => {
                config.daemon.background_current_workspace_refresh == value
            },
            _ => config.daemon.background_current_workspace_refresh == true,
        },
        match raw.daemon {
            Some(RawDaemonConfig { idle_refresh_ms: Some(value), .. }) => {
                config.daemon.idle_refresh_ms == value
            },
            _ => config.daemon.idle_refresh_ms == 750,
        },
        match raw.daemon {
            Some(RawDaemonConfig { stale_show_ms: Some(value), .. }) => {
                config.daemon.stale_show_ms == value
            },
            _ => config.daemon.stale_show_ms == 250,
        },
{
}

/// What the setting of a color holds.
pub open spec fn color_text(colors: RawColorConfig, field: ColorField) -> Option<String> {
    match field {
        ColorField::Background => colors.background,
        ColorField::Cell => colors.cell,
        ColorField::CellHover => colors.cell_hover,
        ColorField::Border => colors.border,
        ColorField::Selected => colors.selected,
        ColorField::Text => colors.text,
        ColorField::Muted => colors.muted,
        ColorField::Error => colors.error,
        ColorField::Empty => colors.empty,
        ColorField::Shadow => colors.shadow,
        ColorField::CloseButton => colors.close_button,
        ColorField::CloseButtonBorder => colors.close_button_border,
        ColorField::CloseButtonText => colors.close_button_text,
    }
}

/// An error is deserved: the setting that it names is wrong in the way that it says.
pub open spec fn deserves(raw: RawConfig, error: ConfigError) -> bool {
    match error {
        ConfigError::EmptyFont => {
            &&& raw.ui matches Some(ui)
            &&& ui.font matches Some(font)
            &&& text::trimmed(font@).len() == 0
        },
        ConfigError::ZeroCornerRadius => {
            raw.ui matches Some(ui) && ui.corner_radius == Some(0u16)
        },
        ConfigError::ZeroShadowRadius => {
            raw.ui matches Some(ui) && ui.shadow_radius == Some(0u16)
        },
        ConfigError::Color(field, fault) => {
            &&& raw.colors matches Some(colors)
            &&& color_text(colors, field) matches Some(value)
            &&& color_value(value@) == Err::<u32, ColorFault>(fault)
        },
        ConfigError::ZeroMaxCacheEdge => {
            raw.thumbnails matches Some(thumbnails) && thumbnails.max_cache_edge == Some(0u32)
        },
        ConfigError::ZeroIdleRefresh => {
            raw.daemon matches Some(daemon) && daemon.idle_refresh_ms == Some(0u64)
        },
        ConfigError::ZeroStaleShow => {
            raw.daemon matches Some(daemon) && daemon.stale_show_ms == Some(0u64)
        },
    }
}

/// The turn in which a setting is looked at.
pub open spec fn turn(error: ConfigError) -> int {
    match error {
        ConfigError::EmptyFont => 0,
        ConfigError::ZeroCornerRadius => 1,
        ConfigError::ZeroShadowRadius => 2,
        ConfigError::Color(field, _) => match field {
            ColorField::Background => 3,
            ColorField::Cell => 4,
            ColorField::CellHover => 5,
            ColorField::Border => 6,
            ColorField::Selected => 7,
            ColorField::Text => 8,
            ColorField::Muted => 9,
            ColorField::Error => 10,
            ColorField::Empty => 11,
            ColorField::Shadow => 12,
            ColorField::CloseButton => 13,
            ColorField::CloseButtonBorder => 14,
            ColorField::CloseButtonText => 15,
        },
        ConfigError::ZeroMaxCacheEdge => 16,
        ConfigError::ZeroIdleRefresh => 17,
        ConfigError::ZeroStaleShow => 18,
    }
}

/// A file is rejected exactly where one of its settings is wrong, and of several wrong ones the
/// first is reported: those of the user interface, then the colors, the thumbnails and the daemon.
pub proof fn law_first_wrong_setting_is_reported(raw: RawConfig, error: ConfigError)
    ensures
        raw.first_error() == Some(error) ==> deserves(raw, error),
        deserves(raw, error) ==> {
            &&& raw.first_error() is Some
            &&& turn(raw.first_error()->0) <= turn(error)
        },
{
    if let Some(colors) = raw.colors {
        if let Some(first) = colors.first_error() {
            lemma_first_wrong_color(colors, first);
        }
        lemma_first_wrong_color(colors, error);
        let wrong = deserves(raw, error);
        let found = colors.first_error();
        assert(error is Color && wrong ==> found is Some && turn(found->0) <= turn(error));
        assert(found is Some ==> found->0 is Color && 3 <= turn(found->0) < 16);
    }
}

/// The finding among those of the first `count` colors that comes first.
spec fn first_of_colors(colors: RawColorConfig, count: nat) -> Option<ConfigError>
    decreases count,
{
    if count == 0 {
        None
    } else {
        let before = first_of_colors(colors, (count - 1) as nat);
        let field = color_at(count - 1);
        either(before, color_error(field, color_text(colors, field)))
    }
}

/// The color that is looked at in that turn.
spec fn color_at(place: int) -> ColorField {
    if place <= 0 {
        ColorField::Background
    } else if place == 1 {
        ColorField::Cell
    } else if place == 2 {
        ColorField::CellHover
    } else if place == 3 {
        ColorField::Border
    } else if place == 4 {
        ColorField::Selected
    } else if place == 5 {
        ColorField::Text
    } else if place == 6 {
        ColorField::Muted
    } else if place == 7 {
        ColorField::Error
    } else if place == 8 {
        ColorField::Empty
    } else if place == 9 {
        ColorField::Shadow
    } else if place == 10 {
        ColorField::CloseButton
    } else if place == 11 {
        ColorField::CloseButtonBorder
    } else {
        ColorField::CloseButtonText
    }
}

proof fn lemma_first_of_colors(colors: RawColorConfig, count: nat, error: ConfigError)
    requires
        count <= 13,
    ensures
        first_of_colors(colors, count) == Some(error) ==> {
            &&& error matches ConfigError::Color(field, fault)
            &&& turn(error) < count + 3
            &&& color_error(field, color_text(colors, field)) == Some(error)
        },
        error matches ConfigError::Color(field, fault) ==> turn(error) < count + 3 && color_error(
            field,
            color_text(colors, field),
        ) == Some(error) ==> {
            &&& first_of_colors(colors, count) is Some
            &&& turn(first_of_colors(colors, count)->0) <= turn(error)
        },
    decreases count,
{
    if count > 0 {
        let shorter = (count - 1) as nat;
        lemma_first_of_colors(colors, shorter, error);
        if let Some(first) = first_of_colors(colors, shorter) {
            lemma_first_of_colors(colors, shorter, first);
        }
    }
}

proof fn lemma_first_wrong_color(colors: RawColorConfig, error: ConfigError)
    ensures
        colors.first_error() == Some(error) ==> {
            &&& error matches ConfigError::Color(field, fault)
            &&& color_error(field, color_text(colors, field)) == Some(error)
        },
        error matches ConfigError::Color(field, fault) ==> color_error(
            field,
            color_text(colors, field),
        ) == Some(error) ==> {
            &&& colors.first_error() is Some
            &&& turn(colors.first_error()->0) <= turn(error)
        },
{
    lemma_first_of_colors(colors, 13, error);
    assert(colors.first_error() == first_of_colors(colors, 13)) by {
        reveal_with_fuel(first_of_colors, 14);
    }
}

/// Every error says in words which setting is wrong and what it has to be.
pub proof fn law_messages_name_the_setting(error: ConfigError)
    ensures
        text::has_prefix(
            error.spec_message(),
            match error {
                ConfigError::EmptyFont => "ui.font must not be empty"@,
                ConfigError::ZeroCornerRadius => "ui.corner_radius must be at least 1"@,
                ConfigError::ZeroShadowRadius => "ui.shadow_radius must be at least 1"@,
                ConfigError::Color(field, _) => match field {
                    ColorField::Background => "colors.background must be"@,
                    ColorField::Cell => "colors.cell must be"@,
                    ColorField::CellHover => "colors.cell_hover must be"@,
                    ColorField::Border => "colors.border must be"@,
                    ColorField::Selected => "colors.selected must be"@,
                    ColorField::Text => "colors.text must be"@,
                    ColorField::Muted => "colors.muted must be"@,
                    ColorField::Error => "colors.error must be"@,
                    ColorField::Empty => "colors.empty must be"@,
                    ColorField::Shadow => "colors.shadow must be"@,
                    ColorField::CloseButton => "colors.close_button must be"@,
                    ColorField::CloseButtonBorder => "colors.close_button_border must be"@,
                    ColorField::CloseButtonText => "colors.close_button_text must be"@,
                },
                ConfigError::ZeroMaxCacheEdge => "thumbnails.max_cache_edge must be at least 1"@,
                ConfigError::ZeroIdleRefresh => "daemon.idle_refresh_ms must be at least 1"@,
                ConfigError::ZeroStaleShow => "daemon.stale_show_ms must be at least 1"@,
            },
        ),
{
    reveal_strlit(" must be a #RRGGBB hex color");
    reveal_strlit("colors.background");
    reveal_strlit("colors.background must be");
    reveal_strlit("colors.cell");
    reveal_strlit("colors.cell must be");
    reveal_strlit("colors.cell_hover");
    reveal_strlit("colors.cell_hover must be");
    reveal_strlit("colors.border");
    reveal_strlit("colors.border must be");
    reveal_strlit("colors.selected");
    reveal_strlit("colors.selected must be");
    reveal_strlit("colors.text");
    reveal_strlit("colors.text must be");
    reveal_strlit("colors.muted");
    reveal_strlit("colors.muted must be");
    reveal_strlit("colors.error");
    reveal_strlit("colors.error must be");
    reveal_strlit("colors.empty");
    reveal_strlit("colors.empty must be");
    reveal_strlit("colors.shadow");
    reveal_strlit("colors.shadow must be");
    reveal_strlit("colors.close_button");
    reveal_strlit("colors.close_button must be");
    reveal_strlit("colors.close_button_border");
    reveal_strlit("colors.close_button_border must be");
    reveal_strlit("colors.close_button_text");
    reveal_strlit("colors.close_button_text must be");
    if let ConfigError::Color(field, _) = error {
        let message = error.spec_message();
        let start = match field {
            ColorField::Background => "colors.background must be"@,
            ColorField::Cell => "colors.cell must be"@,
            ColorField::CellHover => "colors.cell_hover must be"@,
            ColorField::Border => "colors.border must be"@,
            ColorField::Selected => "colors.selected must be"@,
            ColorField::Text => "colors.text must be"@,
            ColorField::Muted => "colors.muted must be"@,
            ColorField::Error => "colors.error must be"@,
            ColorField::Empty => "colors.empty must be"@,
            ColorField::Shadow => "colors.shadow must be"@,
            ColorField::CloseButton => "colors.close_button must be"@,
            ColorField::CloseButtonBorder => "colors.close_button_border must be"@,
            ColorField::CloseButtonText => "colors.close_button_text must be"@,
        };
        assert(message.take(start.len() as int) =~= start);
    } else {
        let message = error.spec_message();
        assert(message.take(message.len() as int) =~= message);
    }
}

/// The color of that name.
pub open spec fn color_named(colors: ColorConfig, field: ColorField) -> u32 {
    match field {
        ColorField::Background => colors.background,
        ColorField::Cell => colors.cell,
        ColorField::CellHover => colors.cell_hover,
        ColorField::Border => colors.border,
        ColorField::Selected => colors.selected,
        ColorField::Text => colors.text,
        ColorField::Muted => colors.muted,
        ColorField::Error => colors.error,
        ColorField::Empty => colors.empty,
        ColorField::Shadow => colors.shadow,
        ColorField::CloseButton => colors.close_button,
        ColorField::CloseButtonBorder => colors.close_button_border,
        ColorField::CloseButtonText => colors.close_button_text,
    }
}

/// What a file sets for the color of that name, if it sets anything.
pub open spec fn color_set(raw: RawConfig, field: ColorField) -> Option<Seq<char>> {
    match raw.colors {
        Some(colors) => text::option_view(color_text(colors, field)),
        None => None,
    }
}

/// A color depends on the setting of its own name and on nothing else of the file: two accepted
/// files that set it alike, or both not at all, have the same color there, whatever else they
/// set; and a file that sets it to the digits of a number has that number there.
#[verifier::spinoff_prover]
#[verifier::rlimit(40)]
pub proof fn law_a_color_depends_on_its_own_setting(
    first: RawConfig,
    second: RawConfig,
    field: ColorField,
    config: AppConfig,
    other: AppConfig,
    color: u32,
)
    requires
        first.first_error() is None,
        second.first_error() is None,
        first.applied(config),
        second.applied(other),
        color < 0x100_0000,
    ensures
        color_set(first, field) == color_set(second, field) ==> color_named(config.colors, field)
            == color_named(other.colors, field),
        color_set(first, field) == Some(seq!['#'] + text::hex(color as nat, 6)) ==> color_named(
            config.colors,
            field,
        ) == color,
{
    lemma_color_is_what_is_set(first, field, config);
    lemma_color_is_what_is_set(second, field, other);
    assert(text::is_white_space(' '));
    law_written_colors_read_back(color, ' ', ' ');
}

#[verifier::spinoff_prover]
#[verifier::rlimit(40)]
proof fn lemma_color_is_what_is_set(raw: RawConfig, field: ColorField, config: AppConfig)
    requires
        raw.first_error() is None,
        raw.applied(config),
    ensures
        match color_set(raw, field) {
            Some(value) => color_value(value) == Ok::<u32, ColorFault>(
                color_named(config.colors, field),
            ),
            None => color_named(config.colors, field) == color_named(default_colors(), field),
        },
{
    law_each_color_comes_from_its_own_setting(raw, config);
}

/// A letter of `A` to `F` in its small form, and any other character as it is.
pub open spec fn small_letter(ch: char) -> char {
    if 'A' <= ch <= 'F' {
        (ch as u32 + 32) as char
    } else {
        ch
    }
}

proof fn lemma_digits_are_hex(digits: Seq<char>)
    requires
        text::all_digits(digits, 16),
    ensures
        text::hex(text::digits_value(digits, 16), digits.len()) == digits.map_values(
            |ch: char| small_letter(ch),
        ),
    decreases digits.len(),
{
    let lowered = digits.map_values(|ch: char| small_letter(ch));
    if digits.len() > 0 {
        let rest = digits.drop_last();
        assert forall|i: int| 0 <= i < rest.len() implies text::digit_value(
            #[trigger] rest[i],
            16,
        ) is Some by {
            assert(rest[i] == digits[i]);
        }
        lemma_digits_are_hex(rest);
        let ch: char = digits.last();
        assert(text::digit_value(digits[digits.len() - 1], 16) is Some);
        let digit = text::digit_value(ch, 16)->0;
        let value = text::digits_value(rest, 16);
        assert((value * 16 + digit) / 16 == value && (value * 16 + digit) % 16 == digit);
        assert(text::hex_char(digit) == small_letter(ch));
        assert(lowered.drop_last() =~= rest.map_values(|ch: char| small_letter(ch)));
        assert(lowered =~= lowered.drop_last().push(small_letter(ch)));
    } else {
        assert(lowered =~= seq![]);
    }
}

/// A character that is no hexadecimal digit, small or capital.
pub open spec fn is_strange(ch: char) -> bool {
    !('0' <= ch <= '9') && !('a' <= ch <= 'f') && !('A' <= ch <= 'F')
}

/// A color is what its six digits write, after a number sign or not: the same digits, in small
/// letters, are what the number is written as, red first and blue last. What is not six bytes
/// long is rejected for its length, and what holds something else for its digits.
pub proof fn law_color_is_what_its_digits_write(value: Seq<char>, digits: Seq<char>)
    requires
        text::trimmed(value) == seq!['#'] + digits || (text::trimmed(value) == digits && !(
        digits.len() > 0 && digits[0] == '#')),
    ensures
        match color_value(value) {
            Ok(color) => {
                &&& digits.len() == 6
                &&& color < 0x100_0000
                &&& text::hex(color as nat, 6) == digits.map_values(|ch: char| small_letter(ch))
            },
            Err(ColorFault::Length) => encode_utf8(digits).len() != 6,
            Err(ColorFault::Digits) => {
                &&& encode_utf8(digits).len() == 6
                &&& exists|i: int| 0 <= i < digits.len() && is_strange(#[trigger] digits[i])
            },
        },
{
    let inner = text::trimmed(value);
    assert(color_digits(value) == digits) by {
        if inner == seq!['#'] + digits {
            assert(inner[0] == '#');
            assert(inner.drop_first() =~= digits);
        }
    }
    if color_value(value) == Err::<u32, ColorFault>(ColorFault::Digits) {
        let i = choose|i: int|
            0 <= i < digits.len() && text::digit_value(#[trigger] digits[i], 16) is None;
        char_is_scalar(digits[i]);
        assert(is_strange(digits[i]));
    }
    if color_value(value) is Ok {
        lemma_utf8_is_no_shorter(digits);
        lemma_hex_value_bound(digits);
        lemma_digits_are_hex(digits);
        lemma_plain_digits_take_a_byte(digits);
    }
}

/// Hexadecimal digits take one byte each.
proof fn lemma_plain_digits_take_a_byte(digits: Seq<char>)
    requires
        text::all_digits(digits, 16),
    ensures
        encode_utf8(digits).len() == digits.len(),
{
    assert forall|i: int| 0 <= i < digits.len() implies '\0' <= #[trigger] digits[i]
        <= '\u{7f}' by {
        let ch: char = digits[i];
        assert(text::digit_value(ch, 16) is Some);
        let code: u32 = ch as u32;
        char_u32_cast(ch, code);
        assert(code <= 102);
    }
    is_ascii_chars_encode_utf8(digits);
}

/// Every color can be set: the number in six digits, after a number sign or not and with white
/// space around it or not, is read as that number.
pub proof fn law_written_colors_read_back(color: u32, before: char, after: char)
    requires
        color < 0x100_0000,
        text::is_white_space(before),
        text::is_white_space(after),
    ensures
        color_value(text::hex(color as nat, 6)) == Ok::<u32, ColorFault>(color),
        color_value(seq!['#'] + text::hex(color as nat, 6)) == Ok::<u32, ColorFault>(color),
        color_value(seq![before, '#'] + text::hex(color as nat, 6) + seq![after]) == Ok::<
            u32,
            ColorFault,
        >(color),
{
    let digits = text::hex(color as nat, 6);
    assert(hex_bound(6) == 0x100_0000) by {
        reveal_with_fuel(hex_bound, 7);
    }
    lemma_hex_reads_back(color as nat, 6);
    lemma_plain_digits_take_a_byte(digits);
    assert(text::digit_value(digits[0], 16) is Some && text::digit_value(digits[5], 16) is Some);
    let first: char = digits[0];
    let last: char = digits[5];
    assert(!text::is_white_space(first) && !text::is_white_space(last));
    assert(!text::is_white_space('#'));
    assert(first != '#');
    let marked = seq!['#'] + digits;
    let wide = seq![before, '#'] + digits + seq![after];
    assert(text::trimmed(digits) == digits);
    assert(marked.last() == last);
    assert(text::trimmed(marked) == marked);
    assert(marked.drop_first() =~= digits);
    let tail = marked + seq![after];
    assert(wide.drop_first() =~= tail);
    assert(wide[0] == before);
    assert(tail[0] == '#');
    assert(text::trimmed_start(wide) == tail) by {
        assert(text::trimmed_start(tail) == tail);
    }
    assert(tail.last() == after);
    assert(tail.drop_last() =~= marked);
    assert(text::trimmed_end(marked) == marked);
    assert(text::trimmed(wide) == marked);
}

/// The digits that a number is written in write that number.
proof fn lemma_hex_reads_back(number: nat, width: nat)
    requires
        number < hex_bound(width),
    ensures
        text::hex(number, width).len() == width,
        text::all_digits(text::hex(number, width), 16),
        text::digits_value(text::hex(number, width), 16) == number,
    decreases width,
{
    let digits = text::hex(number, width);
    if width > 0 {
        lemma_hex_reads_back(number / 16, (width - 1) as nat);
        let rest = text::hex(number / 16, (width - 1) as nat);
        assert(digits.drop_last() =~= rest);
        assert forall|i: int| 0 <= i < digits.len() implies text::digit_value(
            #[trigger] digits[i],
            16,
        ) is Some by {
            if i < rest.len() {
                assert(digits[i] == rest[i]);
            }
        }
    }
}

/// The settings that every accepted configuration has: a font name, sizes and intervals of at
/// least one, and colors of 24 bits.
pub open spec fn usable(config: AppConfig) -> bool {
    &&& config.ui.font@.len() > 0
    &&& config.ui.corner_radius >= 1
    &&& config.ui.shadow_radius >= 1
    &&& config.thumbnails.max_cache_edge >= 1
    &&& config.daemon.idle_refresh_ms >= 1
    &&& config.daemon.stale_show_ms >= 1
    &&& config.colors.background < 0x100_0000
    &&& config.colors.cell < 0x100_0000
    &&& config.colors.cell_hover < 0x100_0000
    &&& config.colors.border < 0x100_0000
    &&& config.colors.selected < 0x100_0000
    &&& config.colors.text < 0x100_0000
    &&& config.colors.muted < 0x100_0000
    &&& config.colors.error < 0x100_0000
    &&& config.colors.empty < 0x100_0000
    &&& config.colors.shadow < 0x100_0000
    &&& config.colors.close_button < 0x100_0000
    &&& config.colors.close_button_border < 0x100_0000
    &&& config.colors.close_button_text < 0x100_0000
}

proof fn lemma_color_is_small(field: ColorField, value: Option<String>, default: u32)
    requires
        color_error(field, value) is None,
        default < 0x100_0000,
    ensures
        color_setting(value, default) < 0x100_0000,
{
    if let Some(v) = value {
        let digits = color_digits(v@);
        lemma_utf8_is_no_shorter(digits);
        lemma_hex_value_bound(text::without_plus(digits));
    }
}

/// Whatever a file sets, the settings that come out of an accepted one are usable; and so are
/// the defaults.
pub proof fn law_accepted_settings_are_usable(raw: RawConfig, config: AppConfig)
    requires
        raw.first_error() is None,
        raw.applied(config),
    ensures
        usable(config),
{
    reveal_strlit("fixed");
    if let Some(colors) = raw.colors {
        lemma_color_is_small(ColorField::Background, colors.background, 0x101418);
        lemma_color_is_small(ColorField::Cell, colors.cell, 0x202832);
        lemma_color_is_small(ColorField::CellHover, colors.cell_hover, 0x2b3642);
        lemma_color_is_small(ColorField::Border, colors.border, 0x5f6f7f);
        lemma_color_is_small(ColorField::Selected, colors.selected, 0x4ea1ff);
        lemma_color_is_small(ColorField::Text, colors.text, 0xe8edf2);
        lemma_color_is_small(ColorField::Muted, colors.muted, 0x95a3b2);
        lemma_color_is_small(ColorField::Error, colors.error, 0x66303a);
        lemma_color_is_small(ColorField::Empty, colors.empty, 0x151b21);
        lemma_color_is_small(ColorField::Shadow, colors.shadow, 0x05080c);
        lemma_color_is_small(ColorField::CloseButton, colors.close_button, 0xffffff);
        lemma_color_is_small(ColorField::CloseButtonBorder, colors.close_button_border, 0xffffff);
        lemma_color_is_small(ColorField::CloseButtonText, colors.close_button_text, 0x000000);
    }
}

/// A file that the user named goes before the one in the configuration directory, whether that
/// exists or not; that one is read where it exists, and the note says what was read or missed.
pub proof fn law_named_file_goes_first(
    path: String,
    default_path: Option<String>,
    default_exists: bool,
)
    ensures
        source_for(Some(path), default_path, default_exists) == ConfigSource::Explicit(path),
        source_for(None, Some(path), true) == ConfigSource::Xdg(path),
        source_for(None, Some(path), false) == ConfigSource::Defaults(Some(path)),
        source_for(None, None, default_exists) == ConfigSource::Defaults(None),
        ConfigSource::Explicit(path).spec_note() == "config: loaded "@ + path@,
        ConfigSource::Xdg(path).spec_note() == ConfigSource::Explicit(path).spec_note(),
        ConfigSource::Defaults(Some(path)).spec_note()
            == "config: using built-in defaults; no config at "@ + path@,
{
}

}
