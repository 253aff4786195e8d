use rmenu::color::Rgb;
use rmenu::config::{CmdOptions, RmenuConfig};
use rmenu::ini::{parse_config, render_config};
use rmenu::numbers::Fraction;

fn chars(s: &str) -> Vec<char> {
    s.chars().collect()
}

#[test]
fn defaults_match_the_documented_values() {
    let c = RmenuConfig::default();
    assert_eq!(c.colors.background, Rgb { r: 0x28, g: 0x2C, b: 0x34 });
    assert_eq!(c.colors.border, Rgb { r: 0x21, g: 0x25, b: 0x2B });
    assert_eq!(c.dimensions.default_layout.as_deref(), Some("custom"));
    assert_eq!(c.dimensions.width_percent, Some(Fraction { micros: 600_000 }));
    assert_eq!(c.dimensions.max_width, Some(1000));
    assert_eq!(c.dimensions.height, 32);
    assert_eq!(c.dimensions.item_height, 28);
    assert_eq!(c.dimensions.padding, 8);
    assert_eq!(c.dimensions.border_width, 1);
    assert_eq!(c.font.name.as_deref(), Some("Consolas"));
    assert_eq!(c.font.size, 15);
    assert_eq!(c.behavior.max_items, 10);
    assert!(!c.behavior.case_sensitive);
    assert_eq!(c.behavior.element_delimiter, ',');
}

#[test]
fn invalid_hex_color_keeps_default_and_reports() {
    let text = "[Colors]\nbackground = #XYZYZ\nforeground = #112233\n\n[Behavior]\ncase_sensitive = true\n";
    let (c, color_err) = parse_config(text);
    assert!(color_err);
    // the malformed key keeps its default
    assert_eq!(c.colors.background, Rgb { r: 0x28, g: 0x2C, b: 0x34 });
    // later keys in the same file still apply
    assert_eq!(c.colors.foreground, Rgb { r: 0x11, g: 0x22, b: 0x33 });
    assert!(c.behavior.case_sensitive);
}

#[test]
fn unknown_keys_and_sections_are_ignored() {
    let text = "[Mystery]\nbackground = #000000\n[Colors]\nshade = #000000\n";
    let (c, color_err) = parse_config(text);
    assert!(!color_err);
    assert_eq!(c.colors.background, Rgb { r: 0x28, g: 0x2C, b: 0x34 });
}

#[test]
fn malformed_numbers_keep_defaults() {
    let text = "[Dimensions]\nheight = tall\npadding = -3\nitem_height = 40\n";
    let (c, _) = parse_config(text);
    assert_eq!(c.dimensions.height, 32);
    assert_eq!(c.dimensions.padding, 8);
    assert_eq!(c.dimensions.item_height, 40);
}

#[test]
fn comments_and_blank_lines_are_skipped() {
    let text = "# a comment\n\n[Font]\n# another\nsize = 20\n";
    let (c, _) = parse_config(text);
    assert_eq!(c.font.size, 20);
}

#[test]
fn values_and_keys_are_trimmed() {
    let text = "  [Behavior]  \n  max_items   =   5  \n element_delimiter = ;\n";
    let (c, _) = parse_config(text);
    assert_eq!(c.behavior.max_items, 5);
    assert_eq!(c.behavior.element_delimiter, ';');
}

#[test]
fn width_percent_and_positions_parse_from_file() {
    let text = "[Dimensions]\nwidth_percent = 0.45\nx_position = r0.25\ny_position = 120\n";
    let (c, _) = parse_config(text);
    assert_eq!(c.dimensions.width_percent, Some(Fraction { micros: 450_000 }));
    assert_eq!(c.dimensions.x_position.as_deref(), Some("r0.25"));
    assert_eq!(c.dimensions.y_position.as_deref(), Some("120"));
}

#[test]
fn rendered_configuration_parses_back_unchanged() {
    let c = RmenuConfig::default();
    let text = render_config(&c);
    let (back, color_err) = parse_config(&text);
    assert!(!color_err);
    assert_eq!(back.colors, c.colors);
    assert_eq!(back.dimensions.default_layout, c.dimensions.default_layout);
    assert_eq!(back.dimensions.width_percent, c.dimensions.width_percent);
    assert_eq!(back.dimensions.max_width, c.dimensions.max_width);
    assert_eq!(back.dimensions.height, c.dimensions.height);
    assert_eq!(back.dimensions.item_height, c.dimensions.item_height);
    assert_eq!(back.dimensions.x_position, c.dimensions.x_position);
    assert_eq!(back.dimensions.y_position, c.dimensions.y_position);
    assert_eq!(back.dimensions.padding, c.dimensions.padding);
    assert_eq!(back.dimensions.border_width, c.dimensions.border_width);
    assert_eq!(back.font.name, c.font.name);
    assert_eq!(back.font.size, c.font.size);
    assert_eq!(back.font.weight, c.font.weight);
    assert_eq!(back.behavior, c.behavior);
}

#[test]
fn color_text_round_trips_through_parsing() {
    let c = Rgb { r: 0xAB, g: 0x07, b: 0xFF };
    let mut s = String::new();
    rmenu::color::push_color(&mut s, &c);
    assert_eq!(s, "#AB07FF");
    let parsed = rmenu::color::parse_color_hex(&chars(&s));
    assert_eq!(parsed, Some(c));
}

#[test]
fn color_parsing_accepts_lower_case_and_hash() {
    assert_eq!(
        rmenu::color::parse_color_hex(&chars("#a1b2c3")),
        Some(Rgb { r: 0xA1, g: 0xB2, b: 0xC3 })
    );
    assert_eq!(rmenu::color::parse_color_hex(&chars("#12345")), None);
    assert_eq!(rmenu::color::parse_color_hex(&chars("#12345G")), None);
    assert_eq!(rmenu::color::parse_color_hex(&chars("")), None);
}

#[test]
fn fraction_parsing_handles_shapes_and_bounds() {
    assert_eq!(
        rmenu::numbers::parse_fraction(&chars("0.6")),
        Some(Fraction { micros: 600_000 })
    );
    assert_eq!(
        rmenu::numbers::parse_fraction(&chars(".5")),
        Some(Fraction { micros: 500_000 })
    );
    assert_eq!(
        rmenu::numbers::parse_fraction(&chars("-1.25")),
        Some(Fraction { micros: -1_250_000 })
    );
    assert_eq!(
        rmenu::numbers::parse_fraction(&chars("2")),
        Some(Fraction { micros: 2_000_000 })
    );
    // digits past the sixth carry no value
    assert_eq!(
        rmenu::numbers::parse_fraction(&chars("0.1234567")),
        Some(Fraction { micros: 123_456 })
    );
    assert_eq!(rmenu::numbers::parse_fraction(&chars("")), None);
    assert_eq!(rmenu::numbers::parse_fraction(&chars(".")), None);
    assert_eq!(rmenu::numbers::parse_fraction(&chars("1e3")), None);
    assert_eq!(rmenu::numbers::parse_fraction(&chars("1000")), None);
}

#[test]
fn fraction_rendering_is_canonical() {
    let r = |m: i64| rmenu::numbers::render_fraction(&Fraction { micros: m });
    assert_eq!(r(600_000), "0.6");
    assert_eq!(r(0), "0");
    assert_eq!(r(2_000_000), "2");
    assert_eq!(r(-1_250_000), "-1.25");
    assert_eq!(r(123_456), "0.123456");
}

#[test]
fn cli_overrides_take_precedence_field_by_field() {
    let mut c = RmenuConfig::default();
    let mut o = CmdOptions::default();
    o.cli_height = Some(64);
    o.cli_x_pos = Some("r0.1".to_string());
    c.apply_cli_overrides(&o);
    assert_eq!(c.dimensions.height, 64);
    assert_eq!(c.dimensions.x_position.as_deref(), Some("r0.1"));
    // untouched fields keep their values
    assert_eq!(c.dimensions.item_height, 28);
    assert_eq!(c.dimensions.width_percent, Some(Fraction { micros: 600_000 }));
}

#[test]
fn parse_args_reads_flags_and_values() {
    let args: Vec<String> = [
        "rmenu", "-e", "a,b,c", "-p", "pick", "--layout", "Center-Dialog", "--width-percent",
        "0.5", "--max-width", "800", "--height", "40", "-s", "--mystery-flag",
    ]
    .iter()
    .map(|s| s.to_string())
    .collect();
    let o = rmenu::args::parse_args_from(&args);
    assert_eq!(o.elements_str.as_deref(), Some("a,b,c"));
    assert_eq!(o.prompt.as_deref(), Some("pick"));
    assert_eq!(o.layout.as_deref(), Some("center-dialog"));
    assert_eq!(o.cli_width_percent, Some(Fraction { micros: 500_000 }));
    assert_eq!(o.cli_max_width, Some(800));
    assert_eq!(o.cli_height, Some(40));
    assert!(o.silent);
    assert!(!o.help);
}

#[test]
fn parse_args_ignores_trailing_flag_without_value() {
    let args: Vec<String> = ["rmenu", "--padding", "4", "-e"]
        .iter()
        .map(|s| s.to_string())
        .collect();
    let o = rmenu::args::parse_args_from(&args);
    assert_eq!(o.cli_padding, Some(4));
    assert_eq!(o.elements_str, None);
}

#[test]
fn numbers_over_the_supported_bound_do_not_parse() {
    assert_eq!(rmenu::numbers::parse_bounded_nat(&chars("1000000"), 1_000_000), Some(1_000_000));
    assert_eq!(rmenu::numbers::parse_bounded_nat(&chars("1000001"), 1_000_000), None);
    assert_eq!(rmenu::numbers::parse_bounded_nat(&chars(""), 1_000_000), None);
    assert_eq!(rmenu::numbers::parse_bounded_nat(&chars("12x"), 1_000_000), None);
}

#[test]
fn parse_args_leaves_bad_values_unset() {
    let args: Vec<String> = ["rmenu", "--height", "tall", "--help"]
        .iter()
        .map(|s| s.to_string())
        .collect();
    let o = rmenu::args::parse_args_from(&args);
    assert_eq!(o.cli_height, None);
    assert!(o.help);
}
