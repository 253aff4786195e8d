//! The configuration file: section/key text in, effective values out, and
//! the exact inverse rendering.
//!
//! Parsing is tolerant per field: a key that is absent or fails to parse
//! leaves its field at the value it had, and a malformed color is
//! additionally reported through the returned flag — it never aborts the
//! rest of the file.

use vstd::prelude::*;

verus! {

use crate::color::spec_parse_color;
use crate::config::{
    RmenuConfig, ConfigV, ColorConfig, DimensionConfig, DimensionV, FontConfig, FontV,
    BehaviorConfig, config_wf, spec_default_config, MAX_DIMENSION,
};
use crate::numbers::{spec_parse_bounded_nat, spec_parse_fraction, spec_parse_bool};
use crate::text::{spec_trim, first_index_of};

// ===== sections =====

#[derive(Clone, Copy, Debug, PartialEq, Eq, Structural)]
pub enum Section {
    Colors,
    Dimensions,
    Font,
    Behavior,
    Other,
}

pub open spec fn spec_section_of(name: Seq<char>) -> Section {
    if name == "Colors"@ {
        Section::Colors
    } else if name == "Dimensions"@ {
        Section::Dimensions
    } else if name == "Font"@ {
        Section::Font
    } else if name == "Behavior"@ {
        Section::Behavior
    } else {
        Section::Other
    }
}

fn section_of(name: &Vec<char>) -> (s: Section)
    ensures
        s == spec_section_of(name@),
{
    if crate::text::seq_eq_str(name, "Colors") {
        Section::Colors
    } else if crate::text::seq_eq_str(name, "Dimensions") {
        Section::Dimensions
    } else if crate::text::seq_eq_str(name, "Font") {
        Section::Font
    } else if crate::text::seq_eq_str(name, "Behavior") {
        Section::Behavior
    } else {
        Section::Other
    }
}

// ===== applying one key =====

/// A color key: a parsed value replaces the channel triple; a malformed one
/// keeps the field and raises the reported-error flag.
pub open spec fn spec_apply_colors(key: Seq<char>, val: Seq<char>, c: ColorConfig, err: bool) -> (
    ColorConfig,
    bool,
) {
    if key == "background"@ || key == "foreground"@ || key == "selected_background"@ || key
        == "selected_foreground"@ || key == "border"@ {
        match spec_parse_color(val) {
            Some(rgb) => (
                ColorConfig {
                    background: if key == "background"@ {
                        rgb
                    } else {
                        c.background
                    },
                    foreground: if key == "foreground"@ {
                        rgb
                    } else {
                        c.foreground
                    },
                    selected_background: if key == "selected_background"@ {
                        rgb
                    } else {
                        c.selected_background
                    },
                    selected_foreground: if key == "selected_foreground"@ {
                        rgb
                    } else {
                        c.selected_foreground
                    },
                    border: if key == "border"@ {
                        rgb
                    } else {
                        c.border
                    },
                },
                err,
            ),
            None => (c, true),
        }
    } else {
        (c, err)
    }
}

/// A numeric value usable for a pixel measure: digits, within bounds.
pub open spec fn spec_dim_value(val: Seq<char>) -> Option<u32> {
    spec_parse_bounded_nat(val, MAX_DIMENSION as int)
}

/// A positive count or size: digits, at least one, within bounds.
pub open spec fn spec_pos_value(val: Seq<char>) -> Option<u32> {
    match spec_parse_bounded_nat(val, MAX_DIMENSION as int) {
        Some(n) => if n >= 1 {
            Some(n)
        } else {
            None
        },
        None => None,
    }
}

pub open spec fn spec_apply_dimensions(key: Seq<char>, val: Seq<char>, d: DimensionV) -> DimensionV {
    if key == "default_layout"@ {
        DimensionV { default_layout: Some(val), ..d }
    } else if key == "width_percent"@ {
        match spec_parse_fraction(val) {
            Some(f) => DimensionV { width_percent: Some(f), ..d },
            None => d,
        }
    } else if key == "max_width"@ {
        match spec_dim_value(val) {
            Some(n) => DimensionV { max_width: Some(n), ..d },
            None => d,
        }
    } else if key == "height"@ {
        match spec_dim_value(val) {
            Some(n) => DimensionV { height: n, ..d },
            None => d,
        }
    } else if key == "item_height"@ {
        match spec_dim_value(val) {
            Some(n) => DimensionV { item_height: n, ..d },
            None => d,
        }
    } else if key == "x_position"@ {
        DimensionV { x_position: Some(val), ..d }
    } else if key == "y_position"@ {
        DimensionV { y_position: Some(val), ..d }
    } else if key == "padding"@ {
        match spec_dim_value(val) {
            Some(n) => DimensionV { padding: n, ..d },
            None => d,
        }
    } else if key == "border_width"@ {
        match spec_dim_value(val) {
            Some(n) => DimensionV { border_width: n, ..d },
            None => d,
        }
    } else {
        d
    }
}

pub open spec fn spec_apply_font(key: Seq<char>, val: Seq<char>, f: FontV) -> FontV {
    if key == "name"@ {
        FontV { name: Some(val), ..f }
    } else if key == "size"@ {
        match spec_pos_value(val) {
            Some(n) => FontV { size: n, ..f },
            None => f,
        }
    } else if key == "weight"@ {
        match spec_dim_value(val) {
            Some(n) => FontV { weight: n, ..f },
            None => f,
        }
    } else {
        f
    }
}

pub open spec fn spec_apply_behavior(key: Seq<char>, val: Seq<char>, b: BehaviorConfig) -> BehaviorConfig {
    if key == "case_sensitive"@ {
        match spec_parse_bool(val) {
            Some(v) => BehaviorConfig { case_sensitive: v, ..b },
            None => b,
        }
    } else if key == "instant_selection"@ {
        match spec_parse_bool(val) {
            Some(v) => BehaviorConfig { instant_selection: v, ..b },
            None => b,
        }
    } else if key == "max_items"@ {
        match spec_pos_value(val) {
            Some(n) => BehaviorConfig { max_items: n, ..b },
            None => b,
        }
    } else if key == "element_delimiter"@ {
        if val.len() > 0 {
            BehaviorConfig { element_delimiter: val[0], ..b }
        } else {
            b
        }
    } else {
        b
    }
}

/// One `key = value` line applied to the configuration under its section.
pub open spec fn spec_apply_kv(
    sec: Section,
    key: Seq<char>,
    val: Seq<char>,
    c: ConfigV,
    err: bool,
) -> (ConfigV, bool) {
    match sec {
        Section::Colors => {
            let (cc, e) = spec_apply_colors(key, val, c.colors, err);
            (ConfigV { colors: cc, ..c }, e)
        },
        Section::Dimensions => (
            ConfigV { dimensions: spec_apply_dimensions(key, val, c.dimensions), ..c },
            err,
        ),
        Section::Font => (ConfigV { font: spec_apply_font(key, val, c.font), ..c }, err),
        Section::Behavior => (
            ConfigV { behavior: spec_apply_behavior(key, val, c.behavior), ..c },
            err,
        ),
        Section::Other => (c, err),
    }
}

// ===== lines =====

/// One line of the file applied to the running state: blank lines and
/// comments are skipped, a bracketed name switches the section, a line with
/// an equals sign sets one key, anything else is ignored.
pub open spec fn spec_line_step(c: ConfigV, err: bool, sec: Section, line: Seq<char>) -> (
    ConfigV,
    bool,
    Section,
) {
    let t = spec_trim(line);
    if t.len() == 0 {
        (c, err, sec)
    } else if t[0] == '#' {
        (c, err, sec)
    } else if t[0] == '[' && t[t.len() - 1] == ']' {
        (c, err, spec_section_of(t.subrange(1, t.len() - 1)))
    } else {
        let e = first_index_of(t, '=');
        if e < t.len() {
            let key = spec_trim(t.subrange(0, e));
            let val = spec_trim(t.subrange(e + 1, t.len() as int));
            let (c1, err1) = spec_apply_kv(sec, key, val, c, err);
            (c1, err1, sec)
        } else {
            (c, err, sec)
        }
    }
}

/// The text split at newlines, every piece kept.
pub open spec fn spec_lines(s: Seq<char>) -> Seq<Seq<char>>
    decreases s.len(),
{
    let i = first_index_of(s, '\n');
    if 0 <= i < s.len() {
        seq![s.subrange(0, i)] + spec_lines(s.subrange(i + 1, s.len() as int))
    } else {
        seq![s]
    }
}

pub open spec fn spec_parse_lines(
    lines: Seq<Seq<char>>,
    c: ConfigV,
    err: bool,
    sec: Section,
) -> (ConfigV, bool)
    decreases lines.len(),
{
    if lines.len() == 0 {
        (c, err)
    } else {
        let (c1, err1, sec1) = spec_line_step(c, err, sec, lines[0]);
        spec_parse_lines(lines.drop_first(), c1, err1, sec1)
    }
}

/// The configuration a file's text denotes, together with the flag that
/// reports a malformed color somewhere in it: the built-in defaults,
/// overwritten by each recognized key in order.
pub open spec fn spec_parse_config(s: Seq<char>) -> (ConfigV, bool) {
    spec_parse_lines(spec_lines(s), spec_default_config(), false, Section::Other)
}

// ===== executable parsing =====

fn apply_colors(c: &mut ColorConfig, key: &Vec<char>, val: &Vec<char>, err: bool) -> (e: bool)
    ensures
        (*final(c), e) == spec_apply_colors(key@, val@, *old(c), err),
{
    let known = crate::text::seq_eq_str(key, "background") || crate::text::seq_eq_str(
        key,
        "foreground",
    ) || crate::text::seq_eq_str(key, "selected_background") || crate::text::seq_eq_str(
        key,
        "selected_foreground",
    ) || crate::text::seq_eq_str(key, "border");
    if !known {
        return err;
    }
    match crate::color::parse_color_hex(val) {
        Some(rgb) => {
            if crate::text::seq_eq_str(key, "background") {
                c.background = rgb;
            }
            if crate::text::seq_eq_str(key, "foreground") {
                c.foreground = rgb;
            }
            if crate::text::seq_eq_str(key, "selected_background") {
                c.selected_background = rgb;
            }
            if crate::text::seq_eq_str(key, "selected_foreground") {
                c.selected_foreground = rgb;
            }
            if crate::text::seq_eq_str(key, "border") {
                c.border = rgb;
            }
            err
        },
        None => true,
    }
}

fn apply_dimensions(d: &mut crate::config::DimensionConfig, key: &Vec<char>, val: &Vec<char>)
    ensures
        final(d)@ == spec_apply_dimensions(key@, val@, old(d)@),
{
    if crate::text::seq_eq_str(key, "default_layout") {
        d.default_layout = Some(crate::text::string_of(val));
    } else if crate::text::seq_eq_str(key, "width_percent") {
        if let Some(f) = crate::numbers::parse_fraction(val) {
            d.width_percent = Some(f);
        }
    } else if crate::text::seq_eq_str(key, "max_width") {
        if let Some(n) = crate::numbers::parse_bounded_nat(val, MAX_DIMENSION) {
            d.max_width = Some(n);
        }
    } else if crate::text::seq_eq_str(key, "height") {
        if let Some(n) = crate::numbers::parse_bounded_nat(val, MAX_DIMENSION) {
            d.height = n;
        }
    } else if crate::text::seq_eq_str(key, "item_height") {
        if let Some(n) = crate::numbers::parse_bounded_nat(val, MAX_DIMENSION) {
            d.item_height = n;
        }
    } else if crate::text::seq_eq_str(key, "x_position") {
        d.x_position = Some(crate::text::string_of(val));
    } else if crate::text::seq_eq_str(key, "y_position") {
        d.y_position = Some(crate::text::string_of(val));
    } else if crate::text::seq_eq_str(key, "padding") {
        if let Some(n) = crate::numbers::parse_bounded_nat(val, MAX_DIMENSION) {
            d.padding = n;
        }
    } else if crate::text::seq_eq_str(key, "border_width") {
        if let Some(n) = crate::numbers::parse_bounded_nat(val, MAX_DIMENSION) {
            d.border_width = n;
        }
    }
}

fn pos_value(val: &Vec<char>) -> (r: Option<u32>)
    ensures
        r == spec_pos_value(val@),
{
    match crate::numbers::parse_bounded_nat(val, MAX_DIMENSION) {
        Some(n) => if n >= 1 {
            Some(n)
        } else {
            None
        },
        None => None,
    }
}

fn apply_font(f: &mut crate::config::FontConfig, key: &Vec<char>, val: &Vec<char>)
    ensures
        final(f)@ == spec_apply_font(key@, val@, old(f)@),
{
    if crate::text::seq_eq_str(key, "name") {
        f.name = Some(crate::text::string_of(val));
    } else if crate::text::seq_eq_str(key, "size") {
        if let Some(n) = pos_value(val) {
            f.size = n;
        }
    } else if crate::text::seq_eq_str(key, "weight") {
        if let Some(n) = crate::numbers::parse_bounded_nat(val, MAX_DIMENSION) {
            f.weight = n;
        }
    }
}

fn apply_behavior(b: &mut BehaviorConfig, key: &Vec<char>, val: &Vec<char>)
    ensures
        final(b)@ == spec_apply_behavior(key@, val@, old(b)@),
{
    if crate::text::seq_eq_str(key, "case_sensitive") {
        if let Some(v) = crate::numbers::parse_bool(val) {
            b.case_sensitive = v;
        }
    } else if crate::text::seq_eq_str(key, "instant_selection") {
        if let Some(v) = crate::numbers::parse_bool(val) {
            b.instant_selection = v;
        }
    } else if crate::text::seq_eq_str(key, "max_items") {
        if let Some(n) = pos_value(val) {
            b.max_items = n;
        }
    } else if crate::text::seq_eq_str(key, "element_delimiter") {
        if val.len() > 0 {
            b.element_delimiter = val[0];
        }
    }
}

fn apply_kv(config: &mut RmenuConfig, sec: Section, key: &Vec<char>, val: &Vec<char>, err: bool) -> (e: bool)
    ensures
        (final(config)@, e) == spec_apply_kv(sec, key@, val@, old(config)@, err),
{
    match sec {
        Section::Colors => apply_colors(&mut config.colors, key, val, err),
        Section::Dimensions => {
            apply_dimensions(&mut config.dimensions, key, val);
            err
        },
        Section::Font => {
            apply_font(&mut config.font, key, val);
            err
        },
        Section::Behavior => {
            apply_behavior(&mut config.behavior, key, val);
            err
        },
        Section::Other => err,
    }
}

fn process_line(config: &mut RmenuConfig, line: &Vec<char>, sec: Section, err: bool) -> (r: (
    Section,
    bool,
))
    ensures
        spec_line_step(old(config)@, err, sec, line@) == (final(config)@, r.1, r.0),
{
    let t = crate::text::trim_chars(line);
    if t.len() == 0 {
        return (sec, err);
    }
    if t[0] == '#' {
        return (sec, err);
    }
    if t[0] == '[' && t[t.len() - 1] == ']' {
        let name = crate::text::subvec(&t, 1, t.len() - 1);
        return (section_of(&name), err);
    }
    match crate::text::find_char(&t, '=') {
        Some(e) => {
            proof {
                crate::text::lemma_first_index_of(t@, '=');
            }
            let key = crate::text::trim_chars(&crate::text::subvec(&t, 0, e));
            let val = crate::text::trim_chars(&crate::text::subvec(&t, e + 1, t.len()));
            let err1 = apply_kv(config, sec, &key, &val, err);
            (sec, err1)
        },
        None => {
            proof {
                crate::text::lemma_first_index_of(t@, '=');
            }
            (sec, err)
        },
    }
}

/// Parses configuration-file text onto the built-in defaults.  The flag
/// reports whether some color value was structurally invalid; such a value
/// leaves its field at the default and never aborts the rest of the file.
#[verifier::loop_isolation(false)]
pub fn parse_config(content: &str) -> (r: (RmenuConfig, bool))
    ensures
        (r.0@, r.1) == spec_parse_config(content@),
        config_wf(r.0@),
{
    let v = crate::text::chars_of(content);
    let mut config = RmenuConfig::default();
    let mut err = false;
    let mut sec = Section::Other;
    let ghost goal = spec_parse_config(content@);
    let mut start: usize = 0;
    proof {
        assert(v@.subrange(0, v@.len() as int) =~= v@);
    }
    let mut done = false;
    while !done
        invariant
            start <= v@.len(),
            config_wf(config@),
            !done ==> spec_parse_lines(
                spec_lines(v@.subrange(start as int, v@.len() as int)),
                config@,
                err,
                sec,
            ) == goal,
            done ==> (config@, err) == goal,
        decreases v@.len() - start + (if done {
            0int
        } else {
            1int
        }),
    {
        let ghost suffix = v@.subrange(start as int, v@.len() as int);
        let mut j: usize = start;
        while j < v.len() && v[j] != '\n'
            invariant
                start <= j <= v@.len(),
                forall|k: int| start <= k < j ==> v@[k] != '\n',
            decreases v@.len() - j,
        {
            j += 1;
        }
        proof {
            crate::text::lemma_first_index_of(suffix, '\n');
            let fi = first_index_of(suffix, '\n');
            assert forall|k: int| 0 <= k < j - start implies suffix[k] != '\n' by {
                assert(v@[start + k] != '\n');
            };
            if j < v.len() {
                assert(suffix[j - start] == '\n');
                if fi < j - start {
                    assert(suffix[fi] == '\n');
                    assert(false);
                }
                if fi > j - start {
                    assert(suffix[j - start] != '\n');
                    assert(false);
                }
                assert(fi == j - start);
            } else {
                if fi < suffix.len() {
                    assert(suffix[fi] == '\n');
                    assert(false);
                }
                assert(fi == suffix.len());
            }
        }
        let line = crate::text::subvec(&v, start, j);
        proof {
            assert(line@ =~= suffix.subrange(0, j - start));
        }
        let ghost pre_cfg = config@;
        let ghost pre_err = err;
        let ghost pre_sec = sec;
        let (sec1, err1) = process_line(&mut config, &line, sec, err);
        sec = sec1;
        err = err1;
        proof {
            lemma_line_step_wf(pre_cfg, line@);
        }
        if j == v.len() {
            proof {
                let lines = spec_lines(suffix);
                assert(line@ =~= suffix);
                assert(lines =~= seq![suffix]);
                assert(spec_line_step(pre_cfg, pre_err, pre_sec, lines[0]) == (
                    config@,
                    err,
                    sec,
                ));
                assert(spec_parse_lines(lines, pre_cfg, pre_err, pre_sec) == spec_parse_lines(
                    lines.drop_first(),
                    config@,
                    err,
                    sec,
                ));
                assert(lines.drop_first().len() == 0);
            }
            done = true;
        } else {
            proof {
                let lines = spec_lines(suffix);
                let rest = suffix.subrange(j - start + 1, suffix.len() as int);
                assert(lines == seq![suffix.subrange(0, j - start)] + spec_lines(rest));
                assert(lines[0] == line@);
                assert(lines.drop_first() =~= spec_lines(rest));
                assert(rest =~= v@.subrange(j + 1, v@.len() as int));
            }
            start = j + 1;
        }
    }
    (config, err)
}

// ===== rendering =====

pub open spec fn spec_bool_text(b: bool) -> Seq<char> {
    if b {
        "true"@
    } else {
        "false"@
    }
}

/// Rendering a boolean and parsing it back returns the same boolean.
pub proof fn lemma_bool_text_round_trip(b: bool)
    ensures
        spec_parse_bool(spec_bool_text(b)) == Some(b),
{
    reveal_strlit("true");
    reveal_strlit("false");
    assert("true"@.len() == 4);
    assert("false"@.len() == 5);
}

pub open spec fn spec_render_colors(c: ColorConfig) -> Seq<char> {
    "[Colors]\nbackground = "@ + crate::color::spec_color_text(c.background)
        + "\nforeground = "@ + crate::color::spec_color_text(c.foreground)
        + "\nselected_background = "@ + crate::color::spec_color_text(c.selected_background)
        + "\nselected_foreground = "@ + crate::color::spec_color_text(c.selected_foreground)
        + "\nborder = "@ + crate::color::spec_color_text(c.border) + "\n\n"@
}

pub open spec fn spec_render_dimensions(d: DimensionV) -> Seq<char> {
    let a1 = "[Dimensions]\n# layouts: custom, top-fullwidth, bottom-fullwidth, center-dialog, top-left, top-right, bottom-left, bottom-right\ndefault_layout = "@
        + (match d.default_layout {
        Some(l) => l,
        None => "custom"@,
    })
        + "\n\n# the detailed values below apply when the layout is 'custom',\n# unless command-line flags override them\n"@;
    let a2 = a1 + (match d.width_percent {
        Some(f) => "width_percent = "@ + crate::numbers::spec_fraction_text(f) + "\n"@,
        None => Seq::<char>::empty(),
    });
    let a3 = a2 + (match d.max_width {
        Some(n) => "max_width = "@ + crate::numbers::dec_digits(n as int) + "\n"@,
        None => Seq::<char>::empty(),
    });
    let a4 = a3 + "height = "@ + crate::numbers::dec_digits(d.height as int)
        + "\nitem_height = "@ + crate::numbers::dec_digits(d.item_height as int) + "\n"@;
    let a5 = a4 + (match d.x_position {
        Some(p) => "x_position = "@ + p + "\n"@,
        None => Seq::<char>::empty(),
    });
    let a6 = a5 + (match d.y_position {
        Some(p) => "y_position = "@ + p + "\n"@,
        None => Seq::<char>::empty(),
    });
    a6 + "padding = "@ + crate::numbers::dec_digits(d.padding as int) + "\nborder_width = "@
        + crate::numbers::dec_digits(d.border_width as int) + "\n\n"@
}

pub open spec fn spec_render_font(f: FontV) -> Seq<char> {
    let a1 = "[Font]\n"@ + (match f.name {
        Some(n) => "name = "@ + n + "\n"@,
        None => Seq::<char>::empty(),
    });
    a1 + "size = "@ + crate::numbers::dec_digits(f.size as int) + "\nweight = "@
        + crate::numbers::dec_digits(f.weight as int) + "\n\n"@
}

pub open spec fn spec_render_behavior(b: BehaviorConfig) -> Seq<char> {
    "[Behavior]\ncase_sensitive = "@ + spec_bool_text(b.case_sensitive)
        + "\ninstant_selection = "@ + spec_bool_text(b.instant_selection) + "\nmax_items = "@
        + crate::numbers::dec_digits(b.max_items as int) + "\nelement_delimiter = "@ + seq![
        b.element_delimiter,
    ] + "\n"@
}

/// The configuration's file text: every field in its section, colors as
/// upper-case `#RRGGBB`, booleans as their lowercase words, numbers in
/// decimal — the exact inverse of parsing for every field.
pub open spec fn spec_render_config(c: ConfigV) -> Seq<char> {
    spec_render_colors(c.colors) + spec_render_dimensions(c.dimensions) + spec_render_font(c.font)
        + spec_render_behavior(c.behavior)
}

fn render_colors(c: &ColorConfig) -> (r: String)
    ensures
        r@ == spec_render_colors(*c),
{
    let mut s = String::new();
    s.append("[Colors]\nbackground = ");
    crate::color::push_color(&mut s, &c.background);
    s.append("\nforeground = ");
    crate::color::push_color(&mut s, &c.foreground);
    s.append("\nselected_background = ");
    crate::color::push_color(&mut s, &c.selected_background);
    s.append("\nselected_foreground = ");
    crate::color::push_color(&mut s, &c.selected_foreground);
    s.append("\nborder = ");
    crate::color::push_color(&mut s, &c.border);
    s.append("\n\n");
    proof {
        assert(s@ =~= spec_render_colors(*c));
    }
    s
}

#[verifier::rlimit(100)]
fn render_dimensions(d: &DimensionConfig) -> (r: String)
    requires
        d@.width_percent matches Some(f) ==> crate::numbers::fraction_wf(f),
    ensures
        r@ == spec_render_dimensions(d@),
{
    let mut s = String::new();
    s.append(
        "[Dimensions]\n# layouts: custom, top-fullwidth, bottom-fullwidth, center-dialog, top-left, top-right, bottom-left, bottom-right\ndefault_layout = ",
    );
    match &d.default_layout {
        Some(l) => s.append(l.as_str()),
        None => s.append("custom"),
    }
    s.append(
        "\n\n# the detailed values below apply when the layout is 'custom',\n# unless command-line flags override them\n",
    );
    if let Some(f) = &d.width_percent {
        s.append("width_percent = ");
        let ft = crate::numbers::render_fraction(f);
        s.append(ft.as_str());
        s.append("\n");
    }
    proof {
        assert(s@ =~= spec_render_dimensions_a2(d@));
    }
    if let Some(n) = d.max_width {
        s.append("max_width = ");
        crate::numbers::push_dec(&mut s, n);
        s.append("\n");
    }
    s.append("height = ");
    crate::numbers::push_dec(&mut s, d.height);
    s.append("\nitem_height = ");
    crate::numbers::push_dec(&mut s, d.item_height);
    s.append("\n");
    proof {
        assert(s@ =~= spec_render_dimensions_a4(d@));
    }
    if let Some(p) = &d.x_position {
        s.append("x_position = ");
        s.append(p.as_str());
        s.append("\n");
    }
    if let Some(p) = &d.y_position {
        s.append("y_position = ");
        s.append(p.as_str());
        s.append("\n");
    }
    s.append("padding = ");
    crate::numbers::push_dec(&mut s, d.padding);
    s.append("\nborder_width = ");
    crate::numbers::push_dec(&mut s, d.border_width);
    s.append("\n\n");
    proof {
        assert(s@ =~= spec_render_dimensions(d@));
    }
    s
}

/// The dimensions text up to and including the width percent line.
pub open spec fn spec_render_dimensions_a2(d: DimensionV) -> Seq<char> {
    "[Dimensions]\n# layouts: custom, top-fullwidth, bottom-fullwidth, center-dialog, top-left, top-right, bottom-left, bottom-right\ndefault_layout = "@
        + (match d.default_layout {
        Some(l) => l,
        None => "custom"@,
    })
        + "\n\n# the detailed values below apply when the layout is 'custom',\n# unless command-line flags override them\n"@
        + (match d.width_percent {
        Some(f) => "width_percent = "@ + crate::numbers::spec_fraction_text(f) + "\n"@,
        None => Seq::<char>::empty(),
    })
}

/// The dimensions text up to and including the item height line.
pub open spec fn spec_render_dimensions_a4(d: DimensionV) -> Seq<char> {
    spec_render_dimensions_a2(d) + (match d.max_width {
        Some(n) => "max_width = "@ + crate::numbers::dec_digits(n as int) + "\n"@,
        None => Seq::<char>::empty(),
    }) + "height = "@ + crate::numbers::dec_digits(d.height as int) + "\nitem_height = "@
        + crate::numbers::dec_digits(d.item_height as int) + "\n"@
}

fn render_font(f: &FontConfig) -> (r: String)
    ensures
        r@ == spec_render_font(f@),
{
    let mut s = String::new();
    s.append("[Font]\n");
    if let Some(n) = &f.name {
        s.append("name = ");
        s.append(n.as_str());
        s.append("\n");
    }
    s.append("size = ");
    crate::numbers::push_dec(&mut s, f.size);
    s.append("\nweight = ");
    crate::numbers::push_dec(&mut s, f.weight);
    s.append("\n\n");
    proof {
        assert(s@ =~= spec_render_font(f@));
    }
    s
}

fn render_behavior(b: &BehaviorConfig) -> (r: String)
    ensures
        r@ == spec_render_behavior(*b),
{
    let mut s = String::new();
    s.append("[Behavior]\ncase_sensitive = ");
    if b.case_sensitive {
        s.append("true");
    } else {
        s.append("false");
    }
    s.append("\ninstant_selection = ");
    if b.instant_selection {
        s.append("true");
    } else {
        s.append("false");
    }
    s.append("\nmax_items = ");
    crate::numbers::push_dec(&mut s, b.max_items);
    s.append("\nelement_delimiter = ");
    crate::text::push_char(&mut s, b.element_delimiter);
    s.append("\n");
    proof {
        assert(s@ =~= spec_render_behavior(*b));
    }
    s
}

/// Renders the configuration back to file text, the inverse of parsing.
pub fn render_config(config: &RmenuConfig) -> (r: String)
    requires
        config@.dimensions.width_percent matches Some(f) ==> crate::numbers::fraction_wf(f),
    ensures
        r@ == spec_render_config(config@),
{
    let mut s = render_colors(&config.colors);
    let d = render_dimensions(&config.dimensions);
    s.append(d.as_str());
    let f = render_font(&config.font);
    s.append(f.as_str());
    let b = render_behavior(&config.behavior);
    s.append(b.as_str());
    proof {
        assert(s@ =~= spec_render_config(config@));
    }
    s
}

/// One line keeps the bounds invariant: every numeric value it can write
/// came through the bounded parser.
proof fn lemma_line_step_wf(c: ConfigV, line: Seq<char>)
    ensures
        forall|err: bool, sec: Section|
            config_wf(c) ==> config_wf(
                #[trigger] spec_line_step(c, err, sec, line).0,
            ),
{
    assert forall|err: bool, sec: Section| config_wf(c) implies config_wf(
        #[trigger] spec_line_step(c, err, sec, line).0,
    ) by {
        let t = spec_trim(line);
        if t.len() > 0 && t[0] != '#' && !(t[0] == '[' && t[t.len() - 1] == ']') {
            let e = first_index_of(t, '=');
            if e < t.len() {
                let key = spec_trim(t.subrange(0, e));
                let val = spec_trim(t.subrange(e + 1, t.len() as int));
                lemma_apply_kv_wf(sec, key, val, c, err);
            }
        }
    };
}

proof fn lemma_apply_kv_wf(sec: Section, key: Seq<char>, val: Seq<char>, c: ConfigV, err: bool)
    requires
        config_wf(c),
    ensures
        config_wf(spec_apply_kv(sec, key, val, c, err).0),
{
    if sec is Dimensions {
        if key == "width_percent"@ {
            crate::numbers::lemma_parse_fraction_wf(val);
        }
    }
    if crate::numbers::all_digits(val) {
        crate::numbers::lemma_digits_val_nonneg(val);
    }
}

} // verus!
