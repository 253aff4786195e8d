//! The effective configuration: built-in defaults, overwritten field by
//! field from the configuration file, then overwritten again field by field
//! from the command line.
//!
//! Pixel measures and counts are bounded by [`MAX_DIMENSION`], so that all
//! geometry stays within machine integers; parsing rejects larger values the
//! same way it rejects malformed ones, and the field keeps its default.

use vstd::prelude::*;

verus! {

use crate::color::Rgb;
use crate::numbers::Fraction;

/// The largest pixel measure or item count a configuration may carry.
pub const MAX_DIMENSION: u32 = 1_000_000;

#[derive(Clone, Copy, Debug, PartialEq, Eq, Structural)]
pub struct ColorConfig {
    pub background: Rgb,
    pub foreground: Rgb,
    pub selected_background: Rgb,
    pub selected_foreground: Rgb,
    pub border: Rgb,
}

#[derive(Clone, Debug)]
pub struct DimensionConfig {
    pub default_layout: Option<String>,
    pub width_percent: Option<Fraction>,
    pub max_width: Option<u32>,
    pub height: u32,
    pub item_height: u32,
    pub x_position: Option<String>,
    pub y_position: Option<String>,
    pub padding: u32,
    pub border_width: u32,
}

pub ghost struct DimensionV {
    pub default_layout: Option<Seq<char>>,
    pub width_percent: Option<Fraction>,
    pub max_width: Option<u32>,
    pub height: u32,
    pub item_height: u32,
    pub x_position: Option<Seq<char>>,
    pub y_position: Option<Seq<char>>,
    pub padding: u32,
    pub border_width: u32,
}

impl View for DimensionConfig {
    type V = DimensionV;

    open spec fn view(&self) -> DimensionV {
        DimensionV {
            default_layout: self.default_layout.deep_view(),
            width_percent: self.width_percent,
            max_width: self.max_width,
            height: self.height,
            item_height: self.item_height,
            x_position: self.x_position.deep_view(),
            y_position: self.y_position.deep_view(),
            padding: self.padding,
            border_width: self.border_width,
        }
    }
}

#[derive(Clone, Debug)]
pub struct FontConfig {
    pub name: Option<String>,
    pub size: u32,
    pub weight: u32,
}

pub ghost struct FontV {
    pub name: Option<Seq<char>>,
    pub size: u32,
    pub weight: u32,
}

impl View for FontConfig {
    type V = FontV;

    open spec fn view(&self) -> FontV {
        FontV { name: self.name.deep_view(), size: self.size, weight: self.weight }
    }
}

#[derive(Clone, Copy, Debug, PartialEq, Eq, Structural)]
pub struct BehaviorConfig {
    pub case_sensitive: bool,
    pub instant_selection: bool,
    pub max_items: u32,
    pub element_delimiter: char,
}

#[derive(Clone, Debug)]
pub struct RmenuConfig {
    pub colors: ColorConfig,
    pub dimensions: DimensionConfig,
    pub font: FontConfig,
    pub behavior: BehaviorConfig,
}

pub ghost struct ConfigV {
    pub colors: ColorConfig,
    pub dimensions: DimensionV,
    pub font: FontV,
    pub behavior: BehaviorConfig,
}

impl View for RmenuConfig {
    type V = ConfigV;

    open spec fn view(&self) -> ConfigV {
        ConfigV {
            colors: self.colors,
            dimensions: self.dimensions@,
            font: self.font@,
            behavior: self.behavior@,
        }
    }
}

impl View for BehaviorConfig {
    type V = BehaviorConfig;

    open spec fn view(&self) -> BehaviorConfig {
        *self
    }
}

/// All numeric measures within bounds; holds of the defaults and is kept by
/// file parsing and command-line overrides.
pub open spec fn config_wf(c: ConfigV) -> bool {
    &&& c.dimensions.height <= MAX_DIMENSION
    &&& c.dimensions.item_height <= MAX_DIMENSION
    &&& c.dimensions.padding <= MAX_DIMENSION
    &&& c.dimensions.border_width <= MAX_DIMENSION
    &&& (c.dimensions.max_width matches Some(w) ==> w <= MAX_DIMENSION)
    &&& (c.dimensions.width_percent matches Some(f) ==> crate::numbers::fraction_wf(f))
    &&& c.font.size <= MAX_DIMENSION
    &&& c.font.weight <= MAX_DIMENSION
    &&& 1 <= c.behavior.max_items <= MAX_DIMENSION
}

// ===== defaults =====

pub open spec fn spec_default_colors() -> ColorConfig {
    ColorConfig {
        background: Rgb { r: 0x28, g: 0x2C, b: 0x34 },
        foreground: Rgb { r: 0xAB, g: 0xB2, b: 0xBF },
        selected_background: Rgb { r: 0x3A, g: 0x3F, b: 0x4B },
        selected_foreground: Rgb { r: 0xE6, g: 0xE6, b: 0xE6 },
        border: Rgb { r: 0x21, g: 0x25, b: 0x2B },
    }
}

pub open spec fn spec_default_config() -> ConfigV {
    ConfigV {
        colors: spec_default_colors(),
        dimensions: DimensionV {
            default_layout: Some("custom"@),
            width_percent: Some(Fraction { micros: 600_000 }),
            max_width: Some(1000),
            height: 32,
            item_height: 28,
            x_position: Some("r0.5"@),
            y_position: Some("r0.3"@),
            padding: 8,
            border_width: 1,
        },
        font: FontV { name: Some("Consolas"@), size: 15, weight: 400 },
        behavior: BehaviorConfig {
            case_sensitive: false,
            instant_selection: false,
            max_items: 10,
            element_delimiter: ',',
        },
    }
}

impl Default for RmenuConfig {
    /// The built-in configuration, used whenever no file value applies.
    fn default() -> (c: Self)
        ensures
            c@ == spec_default_config(),
            config_wf(c@),
    {
        RmenuConfig {
            colors: ColorConfig {
                background: Rgb { r: 0x28, g: 0x2C, b: 0x34 },
                foreground: Rgb { r: 0xAB, g: 0xB2, b: 0xBF },
                selected_background: Rgb { r: 0x3A, g: 0x3F, b: 0x4B },
                selected_foreground: Rgb { r: 0xE6, g: 0xE6, b: 0xE6 },
                border: Rgb { r: 0x21, g: 0x25, b: 0x2B },
            },
            dimensions: DimensionConfig {
                default_layout: Some(String::from_str("custom")),
                width_percent: Some(Fraction { micros: 600_000 }),
                max_width: Some(1000),
                height: 32,
                item_height: 28,
                x_position: Some(String::from_str("r0.5")),
                y_position: Some(String::from_str("r0.3")),
                padding: 8,
                border_width: 1,
            },
            font: FontConfig { name: Some(String::from_str("Consolas")), size: 15, weight: 400 },
            behavior: BehaviorConfig {
                case_sensitive: false,
                instant_selection: false,
                max_items: 10,
                element_delimiter: ',',
            },
        }
    }
}

// ===== command-line options =====

/// Values taken from the command line; `None` wherever a flag was absent or
/// its argument did not parse.
#[derive(Clone, Debug)]
pub struct CmdOptions {
    pub elements_str: Option<String>,
    pub prompt: Option<String>,
    pub config_path: Option<String>,
    pub silent: bool,
    pub help: bool,
    pub layout: Option<String>,
    pub cli_width_percent: Option<Fraction>,
    pub cli_max_width: Option<u32>,
    pub cli_height: Option<u32>,
    pub cli_item_height: Option<u32>,
    pub cli_x_pos: Option<String>,
    pub cli_y_pos: Option<String>,
    pub cli_padding: Option<u32>,
    pub cli_border_width: Option<u32>,
}

pub ghost struct CmdOptionsV {
    pub elements_str: Option<Seq<char>>,
    pub prompt: Option<Seq<char>>,
    pub config_path: Option<Seq<char>>,
    pub silent: bool,
    pub help: bool,
    pub layout: Option<Seq<char>>,
    pub cli_width_percent: Option<Fraction>,
    pub cli_max_width: Option<u32>,
    pub cli_height: Option<u32>,
    pub cli_item_height: Option<u32>,
    pub cli_x_pos: Option<Seq<char>>,
    pub cli_y_pos: Option<Seq<char>>,
    pub cli_padding: Option<u32>,
    pub cli_border_width: Option<u32>,
}

impl View for CmdOptions {
    type V = CmdOptionsV;

    open spec fn view(&self) -> CmdOptionsV {
        CmdOptionsV {
            elements_str: self.elements_str.deep_view(),
            prompt: self.prompt.deep_view(),
            config_path: self.config_path.deep_view(),
            silent: self.silent,
            help: self.help,
            layout: self.layout.deep_view(),
            cli_width_percent: self.cli_width_percent,
            cli_max_width: self.cli_max_width,
            cli_height: self.cli_height,
            cli_item_height: self.cli_item_height,
            cli_x_pos: self.cli_x_pos.deep_view(),
            cli_y_pos: self.cli_y_pos.deep_view(),
            cli_padding: self.cli_padding,
            cli_border_width: self.cli_border_width,
        }
    }
}

pub open spec fn spec_empty_cmd_options() -> CmdOptionsV {
    CmdOptionsV {
        elements_str: None,
        prompt: None,
        config_path: None,
        silent: false,
        help: false,
        layout: None,
        cli_width_percent: None,
        cli_max_width: None,
        cli_height: None,
        cli_item_height: None,
        cli_x_pos: None,
        cli_y_pos: None,
        cli_padding: None,
        cli_border_width: None,
    }
}

/// Numeric command-line overrides within bounds.
pub open spec fn cmd_options_wf(o: CmdOptionsV) -> bool {
    &&& (o.cli_width_percent matches Some(f) ==> crate::numbers::fraction_wf(f))
    &&& (o.cli_max_width matches Some(w) ==> w <= MAX_DIMENSION)
    &&& (o.cli_height matches Some(h) ==> h <= MAX_DIMENSION)
    &&& (o.cli_item_height matches Some(h) ==> h <= MAX_DIMENSION)
    &&& (o.cli_padding matches Some(p) ==> p <= MAX_DIMENSION)
    &&& (o.cli_border_width matches Some(b) ==> b <= MAX_DIMENSION)
}

impl Default for CmdOptions {
    /// Options before any flag is read: everything absent.
    fn default() -> (o: Self)
        ensures
            o@ == spec_empty_cmd_options(),
    {
        CmdOptions {
            elements_str: None,
            prompt: None,
            config_path: None,
            silent: false,
            help: false,
            layout: None,
            cli_width_percent: None,
            cli_max_width: None,
            cli_height: None,
            cli_item_height: None,
            cli_x_pos: None,
            cli_y_pos: None,
            cli_padding: None,
            cli_border_width: None,
        }
    }
}

// ===== command-line overrides =====

/// The configuration after the command line has had the last word: every
/// explicitly supplied geometry value replaces the field outright.
pub open spec fn spec_apply_cli(c: ConfigV, o: CmdOptionsV) -> ConfigV {
    ConfigV {
        colors: c.colors,
        dimensions: DimensionV {
            default_layout: c.dimensions.default_layout,
            width_percent: if o.cli_width_percent is Some {
                o.cli_width_percent
            } else {
                c.dimensions.width_percent
            },
            max_width: if o.cli_max_width is Some {
                o.cli_max_width
            } else {
                c.dimensions.max_width
            },
            height: match o.cli_height {
                Some(h) => h,
                None => c.dimensions.height,
            },
            item_height: match o.cli_item_height {
                Some(h) => h,
                None => c.dimensions.item_height,
            },
            x_position: if o.cli_x_pos is Some {
                o.cli_x_pos
            } else {
                c.dimensions.x_position
            },
            y_position: if o.cli_y_pos is Some {
                o.cli_y_pos
            } else {
                c.dimensions.y_position
            },
            padding: match o.cli_padding {
                Some(p) => p,
                None => c.dimensions.padding,
            },
            border_width: match o.cli_border_width {
                Some(b) => b,
                None => c.dimensions.border_width,
            },
        },
        font: c.font,
        behavior: c.behavior,
    }
}

impl RmenuConfig {
    /// Overwrites each geometry field for which the command line supplied a
    /// value; everything else keeps the file or default value.
    pub fn apply_cli_overrides(&mut self, cmd_opts: &CmdOptions)
        ensures
            final(self)@ == spec_apply_cli(old(self)@, cmd_opts@),
            config_wf(old(self)@) && cmd_options_wf(cmd_opts@) ==> config_wf(final(self)@),
    {
        if let Some(val) = cmd_opts.cli_width_percent {
            self.dimensions.width_percent = Some(val);
        }
        if let Some(val) = cmd_opts.cli_max_width {
            self.dimensions.max_width = Some(val);
        }
        if let Some(val) = cmd_opts.cli_height {
            self.dimensions.height = val;
        }
        if let Some(val) = cmd_opts.cli_item_height {
            self.dimensions.item_height = val;
        }
        if let Some(val) = &cmd_opts.cli_x_pos {
            self.dimensions.x_position = Some(val.clone());
        }
        if let Some(val) = &cmd_opts.cli_y_pos {
            self.dimensions.y_position = Some(val.clone());
        }
        if let Some(val) = cmd_opts.cli_padding {
            self.dimensions.padding = val;
        }
        if let Some(val) = cmd_opts.cli_border_width {
            self.dimensions.border_width = val;
        }
    }
}

} // verus!
