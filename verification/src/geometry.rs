//! The geometry planner: from layout mode, screen size, visible item count
//! and the effective configuration to the panel's on-screen rectangle.
//!
//! Every computation is integer arithmetic; divisions truncate toward zero.

use vstd::prelude::*;

verus! {

use crate::numbers::{Fraction, fraction_wf, spec_parse_fraction, spec_parse_i32};
use crate::config::{
    RmenuConfig, ConfigV, CmdOptions, CmdOptionsV, config_wf, cmd_options_wf, MAX_DIMENSION,
};

// ===== truncating division =====

/// Integer division truncating toward zero, as machine division does.
pub open spec fn spec_tdiv(a: int, b: int) -> int {
    if a >= 0 {
        a / b
    } else {
        -((-a) / b)
    }
}

fn tdiv64(a: i64, b: u64) -> (q: i64)
    requires
        b >= 1,
        a != i64::MIN,
    ensures
        q as int == spec_tdiv(a as int, b as int),
{
    if a >= 0 {
        ((a as u64) / b) as i64
    } else {
        let m: u64 = ((-a) as u64) / b;
        proof {
            assert(m <= (-a) as u64) by (nonlinear_arith)
                requires
                    b >= 1,
                    m == ((-a) as u64) as int / b as int,
            ;
        }
        -(m as i64)
    }
}

// ===== position specifications =====

/// A position given as text, parsed eagerly: absolute pixels, a fraction of
/// the screen dimension, or unusable text that falls back to centering.
#[derive(Clone, Copy, Debug, PartialEq, Eq, Structural)]
pub enum PositionSpec {
    Absolute(i32),
    Relative(Fraction),
    Centered,
}

/// The position denoted by `s`: the relative marker `r` followed by a
/// fraction; else a whole number taken verbatim; else centered.
pub open spec fn spec_parse_position(s: Seq<char>) -> PositionSpec {
    let rel = if s.len() > 0 && s[0] == 'r' {
        spec_parse_fraction(s.drop_first())
    } else {
        None
    };
    match rel {
        Some(f) => PositionSpec::Relative(f),
        None => match spec_parse_i32(s) {
            Some(a) => PositionSpec::Absolute(a),
            None => PositionSpec::Centered,
        },
    }
}

pub fn parse_position(v: &Vec<char>) -> (r: PositionSpec)
    ensures
        r == spec_parse_position(v@),
        r matches PositionSpec::Relative(f) ==> fraction_wf(f),
{
    if v.len() > 0 && v[0] == 'r' {
        let rest = crate::text::subvec(v, 1, v.len());
        proof {
            assert(rest@ =~= v@.drop_first());
        }
        if let Some(f) = crate::numbers::parse_fraction(&rest) {
            return PositionSpec::Relative(f);
        }
    }
    match crate::numbers::parse_i32(v) {
        Some(a) => PositionSpec::Absolute(a),
        None => PositionSpec::Centered,
    }
}

/// The coordinate a position specification resolves to: relative positions
/// scale the screen dimension and center the window on that point; absolute
/// positions are used verbatim; anything else centers the window.
pub open spec fn spec_resolve_position(p: PositionSpec, screen: int, win: int) -> int {
    match p {
        PositionSpec::Absolute(a) => a as int,
        PositionSpec::Relative(f) => spec_tdiv(screen * f.micros, 1_000_000) - spec_tdiv(win, 2),
        PositionSpec::Centered => spec_tdiv(screen - win, 2),
    }
}

/// The product of a screen extent and a well-formed fraction's millionths
/// stays comfortably inside a machine word.
proof fn lemma_mul_bound(screen: int, micros: int)
    requires
        0 <= screen <= 2_147_483_647,
        -999_999_999 <= micros <= 999_999_999,
    ensures
        -2_200_000_000_000_000_000 <= screen * micros <= 2_200_000_000_000_000_000,
{
    assert(-2_200_000_000_000_000_000 <= screen * micros <= 2_200_000_000_000_000_000)
        by (nonlinear_arith)
        requires
            0 <= screen <= 2_147_483_647,
            -999_999_999 <= micros <= 999_999_999,
    ;
}

fn resolve_position(p: &PositionSpec, screen: i32, win: i64) -> (r: i64)
    requires
        screen >= 0,
        -4_000_000_000_000 <= win <= 4_000_000_000_000,
        p matches PositionSpec::Relative(f) ==> fraction_wf(*f),
    ensures
        r as int == spec_resolve_position(*p, screen as int, win as int),
{
    match p {
        PositionSpec::Absolute(a) => *a as i64,
        PositionSpec::Relative(f) => {
            proof {
                lemma_mul_bound(screen as int, f.micros as int);
            }
            let prod: i64 = (screen as i64) * f.micros;
            let scaled = tdiv64(prod, 1_000_000);
            proof {
                lemma_tdiv_shrinks(prod as int, 1_000_000);
            }
            scaled - tdiv64(win, 2)
        },
        PositionSpec::Centered => tdiv64((screen as i64) - win, 2),
    }
}

/// The x or y coordinate for a textual position specification; the public
/// entry that parses and resolves in one step.
pub fn calculate_position_detailed(position_str: &str, screen_dimension: i32, window_dimension: i64) -> (r: i64)
    requires
        screen_dimension >= 0,
        -4_000_000_000_000 <= window_dimension <= 4_000_000_000_000,
    ensures
        r as int == spec_resolve_position(
            spec_parse_position(position_str@),
            screen_dimension as int,
            window_dimension as int,
        ),
{
    let v = crate::text::chars_of(position_str);
    let p = parse_position(&v);
    resolve_position(&p, screen_dimension, window_dimension)
}

// ===== layout modes =====

#[derive(Clone, Copy, Debug, PartialEq, Eq, Structural)]
pub enum LayoutMode {
    TopFullwidth,
    BottomFullwidth,
    CenterDialog,
    TopLeft,
    TopRight,
    BottomLeft,
    BottomRight,
    Custom,
}

/// The layout a name denotes; unrecognized names behave as `custom`.
pub open spec fn spec_layout_of(s: Seq<char>) -> LayoutMode {
    if s == "top-fullwidth"@ {
        LayoutMode::TopFullwidth
    } else if s == "bottom-fullwidth"@ {
        LayoutMode::BottomFullwidth
    } else if s == "center-dialog"@ {
        LayoutMode::CenterDialog
    } else if s == "top-left"@ {
        LayoutMode::TopLeft
    } else if s == "top-right"@ {
        LayoutMode::TopRight
    } else if s == "bottom-left"@ {
        LayoutMode::BottomLeft
    } else if s == "bottom-right"@ {
        LayoutMode::BottomRight
    } else {
        LayoutMode::Custom
    }
}

pub fn layout_from_str(s: &str) -> (m: LayoutMode)
    ensures
        m == spec_layout_of(s@),
{
    let v = crate::text::chars_of(s);
    if crate::text::seq_eq_str(&v, "top-fullwidth") {
        LayoutMode::TopFullwidth
    } else if crate::text::seq_eq_str(&v, "bottom-fullwidth") {
        LayoutMode::BottomFullwidth
    } else if crate::text::seq_eq_str(&v, "center-dialog") {
        LayoutMode::CenterDialog
    } else if crate::text::seq_eq_str(&v, "top-left") {
        LayoutMode::TopLeft
    } else if crate::text::seq_eq_str(&v, "top-right") {
        LayoutMode::TopRight
    } else if crate::text::seq_eq_str(&v, "bottom-left") {
        LayoutMode::BottomLeft
    } else if crate::text::seq_eq_str(&v, "bottom-right") {
        LayoutMode::BottomRight
    } else {
        LayoutMode::Custom
    }
}

/// The layout in force: the command-line layout flag, else the configured
/// default layout, else `custom`.
pub open spec fn spec_selected_layout(cmd: CmdOptionsV, cfg: ConfigV) -> LayoutMode {
    match cmd.layout {
        Some(l) => spec_layout_of(l),
        None => match cfg.dimensions.default_layout {
            Some(d) => spec_layout_of(d),
            None => LayoutMode::Custom,
        },
    }
}

// ===== the planner =====

#[derive(Clone, Copy, Debug, PartialEq, Eq, Structural)]
pub struct Rect {
    pub x: i64,
    pub y: i64,
    pub w: i64,
    pub h: i64,
}

pub ghost struct RectV {
    pub x: int,
    pub y: int,
    pub w: int,
    pub h: int,
}

impl View for Rect {
    type V = RectV;

    open spec fn view(&self) -> RectV {
        RectV { x: self.x as int, y: self.y as int, w: self.w as int, h: self.h as int }
    }
}

/// The panel's total height: the input bar, the item list with its padding,
/// and the border on both sides.
pub open spec fn spec_total_height(cfg: ConfigV, visible: int) -> int {
    cfg.dimensions.height + visible * cfg.dimensions.item_height + 2 * cfg.dimensions.padding + 2
        * cfg.dimensions.border_width
}

/// The width of a percent-sized mode: the screen width scaled by the
/// configured fraction (or the mode's default), clamped to the configured
/// maximum width when one is set and exceeded.
pub open spec fn spec_percent_width(
    screen: int,
    wp: Option<Fraction>,
    default_micros: int,
    max_w: Option<u32>,
) -> int {
    let micros = match wp {
        Some(f) => f.micros as int,
        None => default_micros,
    };
    let w = spec_tdiv(screen * micros, 1_000_000);
    match max_w {
        Some(m) => if w > m {
            m as int
        } else {
            w
        },
        None => w,
    }
}

/// The rectangle the selected mode itself computes, before command-line
/// geometry overrides.
pub open spec fn spec_mode_rect(
    cmd: CmdOptionsV,
    cfg: ConfigV,
    screen_w: int,
    screen_h: int,
    visible: int,
) -> RectV {
    let th = spec_total_height(cfg, visible);
    let wp = cfg.dimensions.width_percent;
    let mw = cfg.dimensions.max_width;
    match spec_selected_layout(cmd, cfg) {
        LayoutMode::TopFullwidth => RectV { x: 0, y: 0, w: screen_w, h: th },
        LayoutMode::BottomFullwidth => RectV { x: 0, y: screen_h - th, w: screen_w, h: th },
        LayoutMode::CenterDialog => {
            let w = spec_percent_width(screen_w, wp, 600_000, mw);
            RectV { x: spec_tdiv(screen_w - w, 2), y: spec_tdiv(screen_h - th, 2), w: w, h: th }
        },
        LayoutMode::TopLeft => {
            let w = spec_percent_width(screen_w, wp, 300_000, mw);
            RectV { x: 0, y: 0, w: w, h: th }
        },
        LayoutMode::TopRight => {
            let w = spec_percent_width(screen_w, wp, 300_000, mw);
            RectV { x: screen_w - w, y: 0, w: w, h: th }
        },
        LayoutMode::BottomLeft => {
            let w = spec_percent_width(screen_w, wp, 300_000, mw);
            RectV { x: 0, y: screen_h - th, w: w, h: th }
        },
        LayoutMode::BottomRight => {
            let w = spec_percent_width(screen_w, wp, 300_000, mw);
            RectV { x: screen_w - w, y: screen_h - th, w: w, h: th }
        },
        LayoutMode::Custom => {
            let w = spec_percent_width(screen_w, wp, 600_000, mw);
            let xs = match cfg.dimensions.x_position {
                Some(p) => p,
                None => "r0.5"@,
            };
            let ys = match cfg.dimensions.y_position {
                Some(p) => p,
                None => "r0.3"@,
            };
            RectV {
                x: spec_resolve_position(spec_parse_position(xs), screen_w, w),
                y: spec_resolve_position(spec_parse_position(ys), screen_h, th),
                w: w,
                h: th,
            }
        },
    }
}

/// The planned rectangle: the mode's rectangle, then the command-line
/// overrides in order — an explicit width percent recomputes the width
/// (re-clamped against the command-line or configured maximum); else an
/// explicit maximum width alone still clamps; an explicit height replaces
/// the height; explicit positions re-resolve against the final extents.
pub open spec fn spec_plan(
    cmd: CmdOptionsV,
    cfg: ConfigV,
    screen_w: int,
    screen_h: int,
    visible: int,
) -> RectV {
    let base = spec_mode_rect(cmd, cfg, screen_w, screen_h, visible);
    let w1 = match cmd.cli_width_percent {
        Some(f) => {
            let w = spec_tdiv(screen_w * f.micros, 1_000_000);
            match (cmd.cli_max_width, cfg.dimensions.max_width) {
                (Some(m), _) => if w > m {
                    m as int
                } else {
                    w
                },
                (None, Some(m)) => if w > m {
                    m as int
                } else {
                    w
                },
                (None, None) => w,
            }
        },
        None => match cmd.cli_max_width {
            Some(m) => if base.w > m {
                m as int
            } else {
                base.w
            },
            None => base.w,
        },
    };
    let h1 = match cmd.cli_height {
        Some(h) => h as int,
        None => base.h,
    };
    let x1 = match cmd.cli_x_pos {
        Some(s) => spec_resolve_position(spec_parse_position(s), screen_w, w1),
        None => base.x,
    };
    let y1 = match cmd.cli_y_pos {
        Some(s) => spec_resolve_position(spec_parse_position(s), screen_h, h1),
        None => base.y,
    };
    RectV { x: x1, y: y1, w: w1, h: h1 }
}

/// The planner is deterministic: two rectangles planned from identical
/// inputs are identical — the result is a function of its arguments alone.
pub proof fn lemma_plan_deterministic(
    a: RectV,
    b: RectV,
    cmd: CmdOptionsV,
    cfg: ConfigV,
    screen_w: int,
    screen_h: int,
    visible: int,
)
    requires
        a == spec_plan(cmd, cfg, screen_w, screen_h, visible),
        b == spec_plan(cmd, cfg, screen_w, screen_h, visible),
    ensures
        a == b,
{
}

fn percent_width(screen: i32, wp: &Option<Fraction>, default_micros: i64, max_w: &Option<u32>) -> (w: i64)
    requires
        screen >= 0,
        (*wp matches Some(f) ==> fraction_wf(f)),
        -999_999_999 <= default_micros <= 999_999_999,
    ensures
        w as int == spec_percent_width(screen as int, *wp, default_micros as int, *max_w),
        -3_000_000_000_000 <= w <= 3_000_000_000_000,
{
    let micros: i64 = match wp {
        Some(f) => f.micros,
        None => default_micros,
    };
    proof {
        lemma_mul_bound(screen as int, micros as int);
    }
    let prod: i64 = (screen as i64) * micros;
    let w0 = tdiv64(prod, 1_000_000);
    proof {
        lemma_tdiv_div_bound(prod as int);
    }
    match max_w {
        Some(m) => {
            if w0 > *m as i64 {
                *m as i64
            } else {
                w0
            }
        },
        None => w0,
    }
}

/// Scaling a bounded product down to pixels keeps it within the planner's
/// working range.
proof fn lemma_tdiv_div_bound(a: int)
    requires
        -2_200_000_000_000_000_000 <= a <= 2_200_000_000_000_000_000,
    ensures
        -3_000_000_000_000 <= spec_tdiv(a, 1_000_000) <= 3_000_000_000_000,
{
    if a >= 0 {
        assert(0 <= a / 1_000_000 <= 2_200_000_000_000) by (nonlinear_arith)
            requires
                0 <= a <= 2_200_000_000_000_000_000,
        ;
    } else {
        assert(0 <= (-a) / 1_000_000 <= 2_200_000_000_000) by (nonlinear_arith)
            requires
                0 <= -a <= 2_200_000_000_000_000_000,
        ;
    }
}

/// Truncating division by a positive divisor never grows the magnitude.
proof fn lemma_tdiv_shrinks(a: int, b: int)
    requires
        b >= 1,
    ensures
        a >= 0 ==> 0 <= spec_tdiv(a, b) <= a,
        a < 0 ==> a <= spec_tdiv(a, b) <= 0,
{
    if a >= 0 {
        assert(0 <= a / b <= a) by (nonlinear_arith)
            requires
                b >= 1,
                a >= 0,
        ;
    } else {
        assert(0 <= (-a) / b <= -a) by (nonlinear_arith)
            requires
                b >= 1,
                a < 0,
        ;
    }
}

/// Plans the panel rectangle.  The screen extents come from the caller (the
/// presentation layer reads them from the display); the visible item count
/// is the number of list rows the panel will show.
pub fn determine_window_geometry(
    cmd_opts: &CmdOptions,
    config: &RmenuConfig,
    num_items_to_show: usize,
    screen_width: i32,
    screen_height: i32,
) -> (r: Rect)
    requires
        config_wf(config@),
        cmd_options_wf(cmd_opts@),
        screen_width >= 0,
        screen_height >= 0,
        num_items_to_show <= MAX_DIMENSION as usize,
    ensures
        r@ == spec_plan(
            cmd_opts@,
            config@,
            screen_width as int,
            screen_height as int,
            num_items_to_show as int,
        ),
{
    proof {
        assert(0 <= (num_items_to_show as int) * (config.dimensions.item_height as int)
            <= 1_000_000_000_000) by (nonlinear_arith)
            requires
                0 <= num_items_to_show as int <= 1_000_000,
                0 <= config.dimensions.item_height as int <= 1_000_000,
        ;
    }
    let list_height: i64 = (num_items_to_show as i64) * (config.dimensions.item_height as i64) + 2
        * (config.dimensions.padding as i64);
    let total_height: i64 = (config.dimensions.height as i64) + list_height + 2 * (
    config.dimensions.border_width as i64);
    proof {
        assert(total_height == spec_total_height(config@, num_items_to_show as int));
        assert(0 <= total_height <= 2_000_000_000_000);
    }
    let mode = match &cmd_opts.layout {
        Some(l) => layout_from_str(l.as_str()),
        None => match &config.dimensions.default_layout {
            Some(d) => layout_from_str(d.as_str()),
            None => LayoutMode::Custom,
        },
    };
    let th = total_height;
    let mut x: i64;
    let mut y: i64;
    let mut w: i64;
    let mut h: i64 = th;
    match mode {
        LayoutMode::TopFullwidth => {
            x = 0;
            y = 0;
            w = screen_width as i64;
        },
        LayoutMode::BottomFullwidth => {
            x = 0;
            y = (screen_height as i64) - th;
            w = screen_width as i64;
        },
        LayoutMode::CenterDialog => {
            w = percent_width(
                screen_width,
                &config.dimensions.width_percent,
                600_000,
                &config.dimensions.max_width,
            );
            x = tdiv64((screen_width as i64) - w, 2);
            y = tdiv64((screen_height as i64) - th, 2);
        },
        LayoutMode::TopLeft => {
            w = percent_width(
                screen_width,
                &config.dimensions.width_percent,
                300_000,
                &config.dimensions.max_width,
            );
            x = 0;
            y = 0;
        },
        LayoutMode::TopRight => {
            w = percent_width(
                screen_width,
                &config.dimensions.width_percent,
                300_000,
                &config.dimensions.max_width,
            );
            x = (screen_width as i64) - w;
            y = 0;
        },
        LayoutMode::BottomLeft => {
            w = percent_width(
                screen_width,
                &config.dimensions.width_percent,
                300_000,
                &config.dimensions.max_width,
            );
            x = 0;
            y = (screen_height as i64) - th;
        },
        LayoutMode::BottomRight => {
            w = percent_width(
                screen_width,
                &config.dimensions.width_percent,
                300_000,
                &config.dimensions.max_width,
            );
            x = (screen_width as i64) - w;
            y = (screen_height as i64) - th;
        },
        LayoutMode::Custom => {
            w = percent_width(
                screen_width,
                &config.dimensions.width_percent,
                600_000,
                &config.dimensions.max_width,
            );
            x = match &config.dimensions.x_position {
                Some(xp) => resolve_from_str_any(xp.as_str(), screen_width, w),
                None => resolve_from_str_any("r0.5", screen_width, w),
            };
            y = match &config.dimensions.y_position {
                Some(yp) => resolve_from_str_any(yp.as_str(), screen_height, th),
                None => resolve_from_str_any("r0.3", screen_height, th),
            };
        },
    }
    // command-line overrides, strictly after the mode computation
    if let Some(f) = &cmd_opts.cli_width_percent {
        proof {
            lemma_mul_bound(screen_width as int, f.micros as int);
        }
        let prod: i64 = (screen_width as i64) * f.micros;
        w = tdiv64(prod, 1_000_000);
        proof {
            lemma_tdiv_div_bound(prod as int);
        }
        match (cmd_opts.cli_max_width, config.dimensions.max_width) {
            (Some(m), _) => {
                if w > m as i64 {
                    w = m as i64;
                }
            },
            (None, Some(m)) => {
                if w > m as i64 {
                    w = m as i64;
                }
            },
            (None, None) => {},
        }
    } else if let Some(m) = cmd_opts.cli_max_width {
        if w > m as i64 {
            w = m as i64;
        }
    }
    if let Some(ch) = cmd_opts.cli_height {
        h = ch as i64;
    }
    if let Some(xs) = &cmd_opts.cli_x_pos {
        x = resolve_from_str_any(xs.as_str(), screen_width, w);
    }
    if let Some(ys) = &cmd_opts.cli_y_pos {
        y = resolve_from_str_any(ys.as_str(), screen_height, h);
    }
    Rect { x, y, w, h }
}

/// Position resolution for an extent that may be negative (a negative
/// configured width flows through unchanged, as any other number would).
fn resolve_from_str_any(position_str: &str, screen: i32, win: i64) -> (r: i64)
    requires
        screen >= 0,
        -4_000_000_000_000 <= win <= 4_000_000_000_000,
    ensures
        r as int == spec_resolve_position(
            spec_parse_position(position_str@),
            screen as int,
            win as int,
        ),
{
    let v = crate::text::chars_of(position_str);
    let p = parse_position(&v);
    match p {
        PositionSpec::Absolute(a) => a as i64,
        PositionSpec::Relative(f) => {
            proof {
                lemma_mul_bound(screen as int, f.micros as int);
            }
            let prod: i64 = (screen as i64) * f.micros;
            let scaled = tdiv64(prod, 1_000_000);
            proof {
                lemma_tdiv_shrinks(prod as int, 1_000_000);
            }
            scaled - tdiv64(win, 2)
        },
        PositionSpec::Centered => tdiv64((screen as i64) - win, 2),
    }
}

} // verus!
