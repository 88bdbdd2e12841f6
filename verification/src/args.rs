use vstd::prelude::*;

verus! {

/// The parsed command surface: at most a path to the monitor file.
#[derive(Debug, PartialEq)]
pub struct CommandLineArgs {
    pub monitor_file_path: Option<String>,
}

impl CommandLineArgs {
    /// The empty configuration, with no file path: what an unknown flag or a
    /// flag missing its value falls back to.
    pub fn new() -> (r: Self)
        ensures
            r.monitor_file_path is None,
    {
        CommandLineArgs { monitor_file_path: None }
    }
}

/// How a scan of the argument list ends: with a path, with none (no flag was
/// given), or stopped on an unknown flag or a flag missing its value.
pub enum ScanOutcome {
    Path(Seq<char>),
    NoPath,
    UnknownOption(Seq<char>),
    MissingValue,
}

/// The scan of the argument list from position `i`, carrying the last path
/// parsed so far. The one known flag is `-monitorFile`, which takes the next
/// argument as its value; the scan stops on the first unknown flag, and on a
/// trailing flag without a value.
pub open spec fn spec_scan(args: Seq<Seq<char>>, i: int, acc: Option<Seq<char>>) -> ScanOutcome
    decreases args.len() - i,
{
    if i >= args.len() {
        match acc {
            Some(p) => ScanOutcome::Path(p),
            None => ScanOutcome::NoPath,
        }
    } else if args[i] == "-monitorFile"@ {
        if i + 1 < args.len() {
            spec_scan(args, i + 2, Some(args[i + 1]))
        } else {
            ScanOutcome::MissingValue
        }
    } else {
        ScanOutcome::UnknownOption(args[i])
    }
}

/// The scan's result reduced to the path alone: every stop yields none.
pub open spec fn spec_parse_args(args: Seq<Seq<char>>, i: int, acc: Option<Seq<char>>) -> Option<
    Seq<char>,
>
    decreases args.len() - i,
{
    if i >= args.len() {
        acc
    } else if args[i] == "-monitorFile"@ {
        if i + 1 < args.len() {
            spec_parse_args(args, i + 2, Some(args[i + 1]))
        } else {
            None
        }
    } else {
        None
    }
}

/// The path view of the scan: `spec_parse_args` yields a path exactly when
/// the scan ends in one, and that path.
pub proof fn lemma_scan_parse_agree(args: Seq<Seq<char>>, i: int, acc: Option<Seq<char>>)
    ensures
        spec_parse_args(args, i, acc) == (match spec_scan(args, i, acc) {
            ScanOutcome::Path(p) => Some(p),
            _ => None::<Seq<char>>,
        }),
    decreases args.len() - i,
{
    if i >= args.len() {
    } else if args[i] == "-monitorFile"@ {
        if i + 1 < args.len() {
            lemma_scan_parse_agree(args, i + 2, Some(args[i + 1]));
        }
    }
}

/// The sequence of views of the argument strings.
pub open spec fn args_view(args: Seq<String>) -> Seq<Seq<char>> {
    Seq::new(args.len(), |i: int| args[i]@)
}

/// Why a scan of the argument list ended with the empty configuration.
#[derive(Debug, PartialEq)]
pub enum ArgsError {
    /// The flag at the position where the scan stopped is not `-monitorFile`.
    UnknownOption(String),
    /// A trailing `-monitorFile` had no value after it.
    MissingValue,
}

/// Scans the argument list (the program name at position zero is skipped)
/// and returns the configuration or error that `spec_scan` describes: a path
/// or the empty configuration on a clean scan, and otherwise exactly the
/// error the scan stopped on, with the offending flag.
pub fn scan_args(args: &Vec<String>) -> (r: Result<CommandLineArgs, ArgsError>)
    ensures
        r matches Ok(c) ==> {
            &&& (c.monitor_file_path matches Some(p) ==> spec_scan(args_view(args@), 1, None)
                == ScanOutcome::Path(p@))
            &&& (c.monitor_file_path is None ==> spec_scan(args_view(args@), 1, None)
                is NoPath)
        },
        r matches Err(ArgsError::MissingValue) <==> spec_scan(args_view(args@), 1, None)
            is MissingValue,
        r matches Err(ArgsError::UnknownOption(s)) ==> spec_scan(args_view(args@), 1, None)
            == ScanOutcome::UnknownOption(s@),
        spec_scan(args_view(args@), 1, None) is UnknownOption ==> (r matches Err(
            ArgsError::UnknownOption(s),
        ) && s@ == spec_scan(args_view(args@), 1, None)->UnknownOption_0),
{
    let flag: String = "-monitorFile".to_owned();
    let mut parsed = CommandLineArgs::new();
    let mut index: usize = 1;
    while index < args.len()
        invariant
            flag@ == "-monitorFile"@,
            1 <= index,
            spec_scan(args_view(args@), 1, None) == spec_scan(
                args_view(args@),
                index as int,
                crate::model::opt_str_view(parsed.monitor_file_path),
            ),
        decreases args.len() - index,
    {
        if args[index] == flag {
            proof {
                assert(args_view(args@)[index as int] == "-monitorFile"@);
            }
            if index + 1 < args.len() {
                parsed.monitor_file_path = Some(args[index + 1].clone());
                proof {
                    assert(args_view(args@)[index + 1] == args@[index + 1]@);
                }
                index += 2;
            } else {
                return Err(ArgsError::MissingValue);
            }
        } else {
            proof {
                assert(args_view(args@)[index as int] == args@[index as int]@);
            }
            let bad = args[index].clone();
            proof {
                assert(args@[index as int]@ == bad@);
            }
            return Err(ArgsError::UnknownOption(bad));
        }
    }
    Ok(parsed)
}

/// Scans the argument list and falls back to the empty configuration on any
/// error, exactly as `spec_parse_args` describes.
pub fn process_command_line_args(args: &Vec<String>) -> (r: CommandLineArgs)
    ensures
        r.monitor_file_path is Some <==> spec_parse_args(args_view(args@), 1, None) is Some,
        r.monitor_file_path matches Some(p) ==> spec_parse_args(args_view(args@), 1, None)
            == Some(p@),
{
    proof {
        lemma_scan_parse_agree(args_view(args@), 1, None);
    }
    match scan_args(args) {
        Ok(c) => c,
        Err(_) => CommandLineArgs::new(),
    }
}

/// An unknown flag at any position the scan reaches behaves as if no file
/// path were given: the scan yields no path at all.
pub proof fn lemma_unknown_flag_yields_no_path(
    args: Seq<Seq<char>>,
    i: int,
    acc: Option<Seq<char>>,
    k: int,
)
    requires
        i <= k < args.len(),
        (k - i) % 2 == 0,
        forall|j: int| i <= j < k && (j - i) % 2 == 0 ==> #[trigger] args[j] == "-monitorFile"@,
        args[k] != "-monitorFile"@,
    ensures
        spec_parse_args(args, i, acc) is None,
    decreases args.len() - i,
{
    if i == k {
    } else {
        assert(args[i] == "-monitorFile"@);
        if i + 1 < args.len() {
            lemma_unknown_flag_yields_no_path(args, i + 2, Some(args[i + 1]), k);
        }
    }
}

} // verus!
