//! The command line: polling interval, alert threshold, verbosity, help.

use crate::binary64::Binary64;
use crate::decimal::{parse_u64, parse_u64_spec};
use crate::text::{chars_of, spells};
use vstd::prelude::*;

verus! {

/// The bit pattern of the double `70.0`, the threshold when none is given.
pub const DEFAULT_THRESHOLD_BITS: u64 = 0x4051_8000_0000_0000;

/// The polling interval in seconds when none is given.
pub const DEFAULT_INTERVAL: u64 = 5;

/// What the command line asks for.
#[derive(Clone, Copy, Debug, PartialEq, Eq, Structural)]
pub struct Args {
    /// The seconds between two polls.
    pub interval: u64,
    /// The alert threshold in percent, a double.
    pub threshold: Binary64,
    /// Whether each poll is reported, and alerts are raised.
    pub verbose: bool,
}

/// Why reading the command line ended before its last argument.
#[derive(Clone, Copy, Debug, PartialEq, Eq, Structural)]
pub enum ArgsStop {
    /// Help was asked for.
    Help,
    /// The argument with this index, which follows `-i`, is no unsigned
    /// decimal number of 64 bits.
    InvalidInterval { index: usize },
    /// The argument with this index, which follows `-t`, is no number.
    InvalidThreshold { index: usize },
}

/// The texts of the arguments.
pub open spec fn texts(argv: Seq<String>) -> Seq<Seq<char>> {
    Seq::new(argv.len(), |i: int| argv[i]@)
}

/// The double that argument `i` denotes, by its bit pattern, as the caller
/// has read it; `None` where it denotes none or nothing was read for it.
pub open spec fn double_at(doubles: Seq<Option<u64>>, i: int) -> Option<u64> {
    if 0 <= i < doubles.len() {
        doubles[i]
    } else {
        None
    }
}

/// The settings before any argument is read.
pub open spec fn defaults() -> Args {
    Args {
        interval: DEFAULT_INTERVAL,
        threshold: Binary64 { bits: DEFAULT_THRESHOLD_BITS },
        verbose: false,
    }
}

/// What argument `i` does to the settings `args`.
///
/// `-i` and `-t` take the next argument as their value, if there is one,
/// and stop the reading where it is no number; the value is looked at
/// again as an argument of its own. `-v` switches verbose mode on. `-h`,
/// `help` and `--help` stop the reading. Anything else is passed over.
pub open spec fn after_arg(
    args: Args,
    argv: Seq<Seq<char>>,
    doubles: Seq<Option<u64>>,
    i: int,
) -> Result<Args, ArgsStop> {
    let a = argv[i];
    if a == "-i"@ {
        if i + 1 < argv.len() {
            match parse_u64_spec(argv[i + 1]) {
                Some(v) => Ok(Args { interval: v, ..args }),
                None => Err(ArgsStop::InvalidInterval { index: (i + 1) as usize }),
            }
        } else {
            Ok(args)
        }
    } else if a == "-t"@ {
        if i + 1 < argv.len() {
            match double_at(doubles, i + 1) {
                Some(bits) => Ok(Args { threshold: Binary64 { bits }, ..args }),
                None => Err(ArgsStop::InvalidThreshold { index: (i + 1) as usize }),
            }
        } else {
            Ok(args)
        }
    } else if a == "-v"@ {
        Ok(Args { verbose: true, ..args })
    } else if a == "-h"@ || a == "help"@ || a == "--help"@ {
        Err(ArgsStop::Help)
    } else {
        Ok(args)
    }
}

/// The settings after the arguments from `i` on, read in order from
/// `args`; the first stop ends the reading.
pub open spec fn after_args(
    args: Args,
    argv: Seq<Seq<char>>,
    doubles: Seq<Option<u64>>,
    i: int,
) -> Result<Args, ArgsStop>
    decreases argv.len() - i,
{
    if i < 0 || i >= argv.len() {
        Ok(args)
    } else {
        match after_arg(args, argv, doubles, i) {
            Ok(next) => after_args(next, argv, doubles, i + 1),
            Err(stop) => Err(stop),
        }
    }
}

/// The lines of the help text.
pub open spec fn usage_text() -> Seq<char> {
    "Usage: bee [options]\nOptions:\n  -i <interval>  Polling interval in seconds (default: 5)\n  -t <threshold> Alert threshold in percentage (default: 70.0)\n  -v             Verbose mode\n"@
}

/// The help text.
pub fn usage() -> (s: String)
    ensures
        s@ == usage_text(),
{
    "Usage: bee [options]\nOptions:\n  -i <interval>  Polling interval in seconds (default: 5)\n  -t <threshold> Alert threshold in percentage (default: 70.0)\n  -v             Verbose mode\n".to_owned()
}

impl Args {
    /// The settings when no argument is given.
    pub fn new() -> (args: Args)
        ensures
            args == defaults(),
    {
        Args {
            interval: DEFAULT_INTERVAL,
            threshold: Binary64 { bits: DEFAULT_THRESHOLD_BITS },
            verbose: false,
        }
    }

    /// Reads the command line `argv`, program name included, as
    /// [`after_args`] says from the [`defaults`].
    ///
    /// Decimal doubles are not read here: `doubles` holds, for each
    /// argument, the bit pattern of the double that it denotes, or `None`.
    pub fn parse(argv: &Vec<String>, doubles: &Vec<Option<u64>>) -> (r: Result<Args, ArgsStop>)
        ensures
            r == after_args(defaults(), texts(argv@), doubles@, 0),
    {
        let mut args = Args::new();
        let ghost all = texts(argv@);
        let mut i: usize = 0;
        while i < argv.len()
            invariant
                i <= argv.len(),
                all == texts(argv@),
                after_args(defaults(), all, doubles@, 0) == after_args(args, all, doubles@, i as int),
            decreases argv.len() - i,
        {
            assert(all[i as int] == argv@[i as int]@);
            let a = chars_of(argv[i].as_str());
            if spells(&a, "-i") {
                if i + 1 < argv.len() {
                    assert(all[i + 1] == argv@[i + 1]@);
                    let value = chars_of(argv[i + 1].as_str());
                    match parse_u64(&value) {
                        Some(v) => {
                            args.interval = v;
                        },
                        None => {
                            return Err(ArgsStop::InvalidInterval { index: i + 1 });
                        },
                    }
                }
            } else if spells(&a, "-t") {
                if i + 1 < argv.len() {
                    let given: Option<u64> = if i + 1 < doubles.len() {
                        doubles[i + 1]
                    } else {
                        None
                    };
                    match given {
                        Some(bits) => {
                            args.threshold = Binary64 { bits };
                        },
                        None => {
                            return Err(ArgsStop::InvalidThreshold { index: i + 1 });
                        },
                    }
                }
            } else if spells(&a, "-v") {
                args.verbose = true;
            } else if spells(&a, "-h") || spells(&a, "help") || spells(&a, "--help") {
                return Err(ArgsStop::Help);
            }
            i += 1;
        }
        Ok(args)
    }
}

} // verus!
