//! Reading the command line: which files to highlight, which rule file to
//! load, and whether only help or the rule dump was asked for.

use vstd::prelude::*;
use vstd::string::StrSliceExecFns;
use vstd::string::StringExecFns;

verus! {

/// Why the command line was rejected.
#[derive(Debug)]
pub enum ConfigError {
    /// `-c`/`--config` came last, with no file name after it.
    MissingConfigValue,
    /// An option that the program does not know.
    Unrecognized { arg: String },
}

/// The outcome of reading a command line, as mathematical values.
pub enum ArgOutcome {
    Accepted { files: Seq<Seq<char>>, conf: Seq<char>, show_help: bool, show_rules: bool },
    MissingConfigValue,
    Unrecognized { arg: Seq<char> },
}

/// The path that stands for standard input.
pub open spec fn stdin_marker() -> Seq<char> {
    "/dev/stdin"@
}

/// One pass over the arguments from index `i` onward, with what was read so
/// far: `-h`/`--help`/`--usage` ask for help, `--show-rules`/`--dump-rules`
/// ask for the rule dump, `-c`/`--config` take the next argument as the
/// rule file, `-` stands for standard input, any other argument starting
/// with `-` is rejected, and anything else is an input file.
pub open spec fn parse_args(
    args: Seq<Seq<char>>,
    i: int,
    files: Seq<Seq<char>>,
    conf: Seq<char>,
    help: bool,
    rules: bool,
) -> ArgOutcome
    decreases args.len() - i,
{
    if i < 0 || i >= args.len() {
        ArgOutcome::Accepted { files, conf, show_help: help, show_rules: rules }
    } else {
        let a = args[i];
        if a == "-h"@ || a == "--help"@ || a == "--usage"@ {
            parse_args(args, i + 1, files, conf, true, rules)
        } else if a == "--show-rules"@ || a == "--dump-rules"@ {
            parse_args(args, i + 1, files, conf, help, true)
        } else if a == "-c"@ || a == "--config"@ {
            if i + 1 >= args.len() {
                ArgOutcome::MissingConfigValue
            } else {
                parse_args(args, i + 2, files, args[i + 1], help, rules)
            }
        } else if a == "-"@ {
            parse_args(args, i + 1, files.push(stdin_marker()), conf, help, rules)
        } else if a.len() > 0 && a[0] == '-' {
            ArgOutcome::Unrecognized { arg: a }
        } else {
            parse_args(args, i + 1, files.push(a), conf, help, rules)
        }
    }
}

/// What the whole command line asks for: the arguments after the program
/// name, read in order; where neither help nor the rule dump was asked for
/// and no file was named, standard input is the one input file.
pub open spec fn config_outcome(args: Seq<Seq<char>>) -> ArgOutcome {
    match parse_args(args, 1, Seq::<Seq<char>>::empty(), Seq::<char>::empty(), false, false) {
        ArgOutcome::Accepted { files, conf, show_help, show_rules } => {
            if !show_help && !show_rules && files.len() == 0 {
                ArgOutcome::Accepted {
                    files: seq![stdin_marker()],
                    conf,
                    show_help,
                    show_rules,
                }
            } else {
                ArgOutcome::Accepted { files, conf, show_help, show_rules }
            }
        },
        ArgOutcome::MissingConfigValue => ArgOutcome::MissingConfigValue,
        ArgOutcome::Unrecognized { arg } => ArgOutcome::Unrecognized { arg },
    }
}

/// A list of owned strings as a list of character sequences.
pub open spec fn strings_model(ss: Seq<String>) -> Seq<Seq<char>> {
    Seq::new(ss.len(), |j: int| ss[j]@)
}

/// What one run works on: the input files, the path of the rule file whose
/// text is handed to `Rules::new` (empty for the built-in rules — the rule
/// set itself is built from that text, not carried here), and whether only
/// help or the rule dump was asked for.
pub struct Config {
    pub files: Vec<String>,
    pub conf: String,
    pub show_help: bool,
    pub show_rules: bool,
}

impl Config {
    /// Reads the command line (the program name first, as handed to the
    /// process).  Returns the run's configuration, or the reason the
    /// command line was rejected.
    pub fn new(args: Vec<String>) -> (r: Result<Config, ConfigError>)
        ensures
            (config_outcome(strings_model(args@)) matches ArgOutcome::Accepted {
                files,
                conf,
                show_help,
                show_rules,
            } ==> r is Ok && strings_model(r->Ok_0.files@) == files && r->Ok_0.conf@ == conf
                && r->Ok_0.show_help == show_help && r->Ok_0.show_rules == show_rules),
            (config_outcome(strings_model(args@)) is MissingConfigValue ==> r is Err
                && r->Err_0 is MissingConfigValue),
            (config_outcome(strings_model(args@)) matches ArgOutcome::Unrecognized { arg } ==> r
                is Err && (r->Err_0 matches ConfigError::Unrecognized { arg: a } && a@ == arg)),
    {
        let opt_h = String::from_str("-h");
        let opt_help = String::from_str("--help");
        let opt_usage = String::from_str("--usage");
        let opt_show = String::from_str("--show-rules");
        let opt_dump = String::from_str("--dump-rules");
        let opt_c = String::from_str("-c");
        let opt_config = String::from_str("--config");
        let dash = String::from_str("-");
        let ghost am = strings_model(args@);
        let mut files: Vec<String> = Vec::new();
        let mut conf: String = String::new();
        let mut show_help: bool = false;
        let mut show_rules: bool = false;
        let mut index: usize = 1;
        proof {
            assert(strings_model(files@) =~= Seq::<Seq<char>>::empty());
        }
        while index < args.len()
            invariant
                am == strings_model(args@),
                opt_h@ == "-h"@,
                opt_help@ == "--help"@,
                opt_usage@ == "--usage"@,
                opt_show@ == "--show-rules"@,
                opt_dump@ == "--dump-rules"@,
                opt_c@ == "-c"@,
                opt_config@ == "--config"@,
                dash@ == "-"@,
                parse_args(am, index as int, strings_model(files@), conf@, show_help, show_rules)
                    == parse_args(
                    am,
                    1,
                    Seq::<Seq<char>>::empty(),
                    Seq::<char>::empty(),
                    false,
                    false,
                ),
            decreases args@.len() - index,
        {
            let ghost files0 = strings_model(files@);
            let arg = &args[index];
            proof {
                assert(am[index as int] == arg@);
            }
            if *arg == opt_h || *arg == opt_help || *arg == opt_usage {
                show_help = true;
            } else if *arg == opt_show || *arg == opt_dump {
                show_rules = true;
            } else if *arg == opt_c || *arg == opt_config {
                index = index + 1;
                if index >= args.len() {
                    return Err(ConfigError::MissingConfigValue);
                }
                conf = args[index].clone();
                proof {
                    assert(am[index as int] == conf@);
                }
            } else if *arg == dash {
                files.push(String::from_str("/dev/stdin"));
                proof {
                    assert(strings_model(files@) =~= files0.push(stdin_marker()));
                }
            } else {
                let starts_dash = if arg.as_str().is_empty() {
                    false
                } else {
                    arg.as_str().get_char(0) == '-'
                };
                if starts_dash {
                    return Err(ConfigError::Unrecognized { arg: arg.clone() });
                }
                files.push(arg.clone());
                proof {
                    assert(strings_model(files@) =~= files0.push(arg@));
                }
            }
            index = index + 1;
        }
        if !show_help && !show_rules && files.len() == 0 {
            files.push(String::from_str("/dev/stdin"));
            proof {
                assert(strings_model(files@) =~= seq![stdin_marker()]);
            }
        }
        Ok(Config { files, conf, show_help, show_rules })
    }
}

} // verus!
