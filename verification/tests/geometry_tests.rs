use rmenu::config::{CmdOptions, RmenuConfig};
use rmenu::geometry::{calculate_position_detailed, determine_window_geometry, Rect};
use rmenu::numbers::Fraction;

fn base_config() -> RmenuConfig {
    let mut c = RmenuConfig::default();
    c.dimensions.width_percent = Some(Fraction { micros: 600_000 });
    c.dimensions.max_width = None;
    c.dimensions.height = 32;
    c.dimensions.item_height = 28;
    c.dimensions.padding = 8;
    c.dimensions.border_width = 1;
    c
}

#[test]
fn center_dialog_example_on_full_hd() {
    let config = base_config();
    let mut opts = CmdOptions::default();
    opts.layout = Some("center-dialog".to_string());
    let r = determine_window_geometry(&opts, &config, 5, 1920, 1080);
    // height = 32 + (5*28 + 16) + 2 = 190; width = 1920 * 0.6 = 1152
    assert_eq!(r, Rect { x: 384, y: 445, w: 1152, h: 190 });
}

#[test]
fn planner_is_deterministic() {
    let config = base_config();
    let mut opts = CmdOptions::default();
    opts.layout = Some("bottom-right".to_string());
    opts.cli_x_pos = Some("r0.25".to_string());
    let a = determine_window_geometry(&opts, &config, 7, 2560, 1440);
    let b = determine_window_geometry(&opts, &config, 7, 2560, 1440);
    assert_eq!(a, b);
}

#[test]
fn fullwidth_modes_pin_to_edges() {
    let config = base_config();
    let mut opts = CmdOptions::default();
    opts.layout = Some("top-fullwidth".to_string());
    let top = determine_window_geometry(&opts, &config, 2, 1000, 800);
    // height = 32 + (2*28 + 16) + 2 = 106
    assert_eq!(top, Rect { x: 0, y: 0, w: 1000, h: 106 });
    opts.layout = Some("bottom-fullwidth".to_string());
    let bottom = determine_window_geometry(&opts, &config, 2, 1000, 800);
    assert_eq!(bottom, Rect { x: 0, y: 800 - 106, w: 1000, h: 106 });
}

#[test]
fn corner_modes_use_the_narrow_default_percent() {
    let config = base_config();
    let mut opts = CmdOptions::default();
    opts.layout = Some("top-right".to_string());
    let r = determine_window_geometry(&opts, &config, 0, 1000, 800);
    // width = 1000 * 0.6 (configured percent overrides the 0.3 default)
    assert_eq!(r.w, 600);
    assert_eq!(r.x, 400);
    assert_eq!(r.y, 0);
    // with no configured percent the corner default of 0.3 applies
    let mut bare = base_config();
    bare.dimensions.width_percent = None;
    let r2 = determine_window_geometry(&opts, &bare, 0, 1000, 800);
    assert_eq!(r2.w, 300);
    assert_eq!(r2.x, 700);
}

#[test]
fn unrecognized_layout_falls_back_to_custom_positions() {
    let config = base_config();
    let mut opts = CmdOptions::default();
    opts.layout = Some("sideways".to_string());
    let r = determine_window_geometry(&opts, &config, 1, 1000, 1000);
    // width = 600; x = 1000*0.5 - 300 = 200; h = 78; y = 1000*0.3 - 39 = 261
    assert_eq!(r, Rect { x: 200, y: 261, w: 600, h: 78 });
}

#[test]
fn max_width_clamps_the_computed_width() {
    let mut config = base_config();
    config.dimensions.max_width = Some(500);
    let mut opts = CmdOptions::default();
    opts.layout = Some("center-dialog".to_string());
    let r = determine_window_geometry(&opts, &config, 0, 1000, 800);
    assert_eq!(r.w, 500);
    assert_eq!(r.x, 250);
}

#[test]
fn cli_geometry_overrides_apply_in_order() {
    let config = base_config();
    let mut opts = CmdOptions::default();
    opts.layout = Some("top-left".to_string());
    opts.cli_width_percent = Some(Fraction { micros: 500_000 });
    opts.cli_max_width = Some(450);
    opts.cli_height = Some(77);
    opts.cli_x_pos = Some("100".to_string());
    opts.cli_y_pos = Some("r0.5".to_string());
    let r = determine_window_geometry(&opts, &config, 3, 1000, 900);
    // width 1000*0.5 = 500, clamped to 450; height replaced by 77
    // x absolute 100; y = 900*0.5 - 77/2 = 450 - 38 = 412
    assert_eq!(r, Rect { x: 100, y: 412, w: 450, h: 77 });
}

#[test]
fn positions_resolve_relative_absolute_and_fallback() {
    // relative: 1000 * 0.5 - 200/2 = 400
    assert_eq!(calculate_position_detailed("r0.5", 1000, 200), 400);
    // absolute, negative allowed
    assert_eq!(calculate_position_detailed("-15", 1000, 200), -15);
    // unusable text centers the window
    assert_eq!(calculate_position_detailed("oops", 1000, 200), 400);
    assert_eq!(calculate_position_detailed("r", 1000, 200), 400);
    // the relative marker with junk after it also centers
    assert_eq!(calculate_position_detailed("rX", 1000, 200), 400);
}
