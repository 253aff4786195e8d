//! The command-line surface: a plain left-to-right scan over the argument
//! vector.  Every flag is optional, a flag that needs a value consumes the
//! next argument, a value that does not parse leaves the option unset, and
//! unknown flags are ignored.

use vstd::prelude::*;

verus! {

use crate::config::{CmdOptions, CmdOptionsV, cmd_options_wf, spec_empty_cmd_options, MAX_DIMENSION};
use crate::text::lower_of;
use crate::numbers::{spec_parse_fraction, spec_parse_bounded_nat};

/// The options after scanning the arguments from position `i` on.
pub open spec fn spec_args_loop(args: Seq<Seq<char>>, i: int, o: CmdOptionsV) -> CmdOptionsV
    decreases args.len() - i,
{
    if i < 0 || i >= args.len() {
        o
    } else {
        let a = args[i];
        let has_val = i + 1 < args.len();
        if a == "-e"@ || a == "--elements"@ {
            if has_val {
                spec_args_loop(args, i + 2, CmdOptionsV { elements_str: Some(args[i + 1]), ..o })
            } else {
                spec_args_loop(args, i + 1, o)
            }
        } else if a == "-p"@ || a == "--prompt"@ {
            if has_val {
                spec_args_loop(args, i + 2, CmdOptionsV { prompt: Some(args[i + 1]), ..o })
            } else {
                spec_args_loop(args, i + 1, o)
            }
        } else if a == "-c"@ || a == "--config"@ {
            if has_val {
                spec_args_loop(args, i + 2, CmdOptionsV { config_path: Some(args[i + 1]), ..o })
            } else {
                spec_args_loop(args, i + 1, o)
            }
        } else if a == "-s"@ || a == "--silent"@ {
            spec_args_loop(args, i + 1, CmdOptionsV { silent: true, ..o })
        } else if a == "-h"@ || a == "--help"@ {
            spec_args_loop(args, i + 1, CmdOptionsV { help: true, ..o })
        } else if a == "--layout"@ {
            if has_val {
                spec_args_loop(
                    args,
                    i + 2,
                    CmdOptionsV { layout: Some(lower_of(args[i + 1])), ..o },
                )
            } else {
                spec_args_loop(args, i + 1, o)
            }
        } else if a == "--x-pos"@ {
            if has_val {
                spec_args_loop(args, i + 2, CmdOptionsV { cli_x_pos: Some(args[i + 1]), ..o })
            } else {
                spec_args_loop(args, i + 1, o)
            }
        } else if a == "--y-pos"@ {
            if has_val {
                spec_args_loop(args, i + 2, CmdOptionsV { cli_y_pos: Some(args[i + 1]), ..o })
            } else {
                spec_args_loop(args, i + 1, o)
            }
        } else if a == "--width-percent"@ {
            if has_val {
                spec_args_loop(
                    args,
                    i + 2,
                    CmdOptionsV { cli_width_percent: spec_parse_fraction(args[i + 1]), ..o },
                )
            } else {
                spec_args_loop(args, i + 1, o)
            }
        } else if a == "--max-width"@ {
            if has_val {
                spec_args_loop(
                    args,
                    i + 2,
                    CmdOptionsV {
                        cli_max_width: spec_parse_bounded_nat(args[i + 1], MAX_DIMENSION as int),
                        ..o
                    },
                )
            } else {
                spec_args_loop(args, i + 1, o)
            }
        } else if a == "--height"@ {
            if has_val {
                spec_args_loop(
                    args,
                    i + 2,
                    CmdOptionsV {
                        cli_height: spec_parse_bounded_nat(args[i + 1], MAX_DIMENSION as int),
                        ..o
                    },
                )
            } else {
                spec_args_loop(args, i + 1, o)
            }
        } else if a == "--item-height"@ {
            if has_val {
                spec_args_loop(
                    args,
                    i + 2,
                    CmdOptionsV {
                        cli_item_height: spec_parse_bounded_nat(args[i + 1], MAX_DIMENSION as int),
                        ..o
                    },
                )
            } else {
                spec_args_loop(args, i + 1, o)
            }
        } else if a == "--padding"@ {
            if has_val {
                spec_args_loop(
                    args,
                    i + 2,
                    CmdOptionsV {
                        cli_padding: spec_parse_bounded_nat(args[i + 1], MAX_DIMENSION as int),
                        ..o
                    },
                )
            } else {
                spec_args_loop(args, i + 1, o)
            }
        } else if a == "--border-width"@ {
            if has_val {
                spec_args_loop(
                    args,
                    i + 2,
                    CmdOptionsV {
                        cli_border_width: spec_parse_bounded_nat(args[i + 1], MAX_DIMENSION as int),
                        ..o
                    },
                )
            } else {
                spec_args_loop(args, i + 1, o)
            }
        } else {
            spec_args_loop(args, i + 1, o)
        }
    }
}

/// The options a full argument vector denotes (the element at index zero is
/// the program name and is skipped).
pub open spec fn spec_parse_args(args: Seq<Seq<char>>) -> CmdOptionsV {
    spec_args_loop(args, 1, spec_empty_cmd_options())
}

/// Scans an argument vector into command-line options.
#[verifier::loop_isolation(false)]
#[verifier::rlimit(100)]
pub fn parse_args_from(args: &Vec<String>) -> (o: CmdOptions)
    ensures
        o@ == spec_parse_args(args.deep_view()),
        cmd_options_wf(o@),
{
    let ghost dv = args.deep_view();
    let mut o = CmdOptions::default();
    let mut i: usize = 1;
    while i < args.len()
        invariant
            1 <= i,
            cmd_options_wf(o@),
            spec_args_loop(dv, i as int, o@) == spec_parse_args(dv),
        decreases args@.len() - i,
    {
        let a = crate::text::chars_of(args[i].as_str());
        proof {
            assert(a@ == dv[i as int]);
        }
        let has_val = i + 1 < args.len();
        proof {
            if has_val {
                assert(args[i + 1 as int]@ == dv[i as int + 1]);
            }
        }
        if crate::text::seq_eq_str(&a, "-e") || crate::text::seq_eq_str(&a, "--elements") {
            if has_val {
                o.elements_str = Some(args[i + 1].clone());
                i += 2;
            } else {
                i += 1;
            }
        } else if crate::text::seq_eq_str(&a, "-p") || crate::text::seq_eq_str(&a, "--prompt") {
            if has_val {
                o.prompt = Some(args[i + 1].clone());
                i += 2;
            } else {
                i += 1;
            }
        } else if crate::text::seq_eq_str(&a, "-c") || crate::text::seq_eq_str(&a, "--config") {
            if has_val {
                o.config_path = Some(args[i + 1].clone());
                i += 2;
            } else {
                i += 1;
            }
        } else if crate::text::seq_eq_str(&a, "-s") || crate::text::seq_eq_str(&a, "--silent") {
            o.silent = true;
            i += 1;
        } else if crate::text::seq_eq_str(&a, "-h") || crate::text::seq_eq_str(&a, "--help") {
            o.help = true;
            i += 1;
        } else if crate::text::seq_eq_str(&a, "--layout") {
            if has_val {
                o.layout = Some(crate::text::to_lowercase(args[i + 1].as_str()));
                i += 2;
            } else {
                i += 1;
            }
        } else if crate::text::seq_eq_str(&a, "--x-pos") {
            if has_val {
                o.cli_x_pos = Some(args[i + 1].clone());
                i += 2;
            } else {
                i += 1;
            }
        } else if crate::text::seq_eq_str(&a, "--y-pos") {
            if has_val {
                o.cli_y_pos = Some(args[i + 1].clone());
                i += 2;
            } else {
                i += 1;
            }
        } else if crate::text::seq_eq_str(&a, "--width-percent") {
            if has_val {
                let v = crate::text::chars_of(args[i + 1].as_str());
                o.cli_width_percent = crate::numbers::parse_fraction(&v);
                i += 2;
            } else {
                i += 1;
            }
        } else if crate::text::seq_eq_str(&a, "--max-width") {
            if has_val {
                let v = crate::text::chars_of(args[i + 1].as_str());
                o.cli_max_width = crate::numbers::parse_bounded_nat(&v, MAX_DIMENSION);
                i += 2;
            } else {
                i += 1;
            }
        } else if crate::text::seq_eq_str(&a, "--height") {
            if has_val {
                let v = crate::text::chars_of(args[i + 1].as_str());
                o.cli_height = crate::numbers::parse_bounded_nat(&v, MAX_DIMENSION);
                i += 2;
            } else {
                i += 1;
            }
        } else if crate::text::seq_eq_str(&a, "--item-height") {
            if has_val {
                let v = crate::text::chars_of(args[i + 1].as_str());
                o.cli_item_height = crate::numbers::parse_bounded_nat(&v, MAX_DIMENSION);
                i += 2;
            } else {
                i += 1;
            }
        } else if crate::text::seq_eq_str(&a, "--padding") {
            if has_val {
                let v = crate::text::chars_of(args[i + 1].as_str());
                o.cli_padding = crate::numbers::parse_bounded_nat(&v, MAX_DIMENSION);
                i += 2;
            } else {
                i += 1;
            }
        } else if crate::text::seq_eq_str(&a, "--border-width") {
            if has_val {
                let v = crate::text::chars_of(args[i + 1].as_str());
                o.cli_border_width = crate::numbers::parse_bounded_nat(&v, MAX_DIMENSION);
                i += 2;
            } else {
                i += 1;
            }
        } else {
            i += 1;
        }
    }
    o
}

} // verus!
