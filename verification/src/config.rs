//! Command-line configuration: which file to read and which command to run.
use vstd::prelude::*;

use crate::commands::{self, Command, CommandView};
use crate::error::{ArgsError, ArgsErrorView};
use crate::text;

verus! {

/// The parsed command line: the command to run and the optional input file.
#[derive(Debug)]
pub struct Config {
    pub command: Command,
    pub file_name: Option<String>,
}

/// The abstract value of a `Config`.
pub struct ConfigView {
    pub command: CommandView,
    pub file_name: Option<Seq<char>>,
}

impl View for Config {
    type V = ConfigView;

    open spec fn view(&self) -> ConfigView {
        ConfigView {
            command: self.command@,
            file_name: match &self.file_name {
                Some(f) => Some(f@),
                None => None,
            },
        }
    }
}

/// An argument names an input file when it ends in `.txt`.
pub open spec fn is_file_arg(a: Seq<char>) -> bool {
    text::has_suffix(a, ".txt"@)
}

/// An argument is a flag when it starts with `--`.
pub open spec fn is_flag_arg(a: Seq<char>) -> bool {
    text::has_prefix(a, "--"@)
}

/// The arguments of `args` split, in order, into positional options and flags.
pub open spec fn split_flags(args: Seq<Seq<char>>) -> (Seq<Seq<char>>, Seq<Seq<char>>)
    decreases args.len(),
{
    if args.len() == 0 {
        (seq![], seq![])
    } else {
        let (options, flags) = split_flags(args.drop_last());
        if is_flag_arg(args.last()) {
            (options, flags.push(args.last()))
        } else {
            (options.push(args.last()), flags)
        }
    }
}

/// How the arguments are read: an optional file name (only as the first
/// argument, and only when more arguments follow), the command name, its
/// options and its flags.
pub open spec fn config_parts(args: Seq<Seq<char>>) -> Result<
    (Option<Seq<char>>, Seq<char>, Seq<Seq<char>>, Seq<Seq<char>>),
    ArgsErrorView,
> {
    if args.len() == 0 {
        Err(ArgsErrorView::NoArgs)
    } else if is_file_arg(args[0]) && args.len() == 1 {
        Err(ArgsErrorView::MissingCmd)
    } else if exists|j: int| 1 <= j < args.len() && is_file_arg(#[trigger] args[j]) {
        Err(ArgsErrorView::Invalid)
    } else if is_file_arg(args[0]) {
        let (options, flags) = split_flags(args.skip(2));
        Ok((Some(args[0]), args[1], options, flags))
    } else {
        let (options, flags) = split_flags(args.skip(1));
        Ok((None, args[0], options, flags))
    }
}

/// The configuration that `Config::new` builds from the arguments, or the
/// error it reports.
pub open spec fn config_spec(args: Seq<Seq<char>>) -> Result<ConfigView, ArgsErrorView> {
    match config_parts(args) {
        Err(e) => Err(e),
        Ok((file_name, cmd, options, flags)) => match commands::command_spec(cmd, options, flags) {
            Ok(command) => Ok(ConfigView { command, file_name }),
            Err(e) => Err(e),
        },
    }
}

/// The views of a vector of strings.
pub open spec fn strings_view(v: Seq<String>) -> Seq<Seq<char>> {
    v.map_values(|s: String| s@)
}

/// The abstract value of the result of `Config::new`.
pub open spec fn config_result_view(r: Result<Config, ArgsError>) -> Result<ConfigView, ArgsErrorView> {
    match r {
        Ok(c) => Ok(c@),
        Err(e) => Err(e@),
    }
}

impl Config {
    /// Reads the command line (without the program name): `[<file>.txt] <command> [options] [--flags]`.
    pub fn new(args: &Vec<String>) -> (r: Result<Self, ArgsError>)
        ensures
            config_result_view(r) == config_spec(strings_view(args@)),
    {
        let ghost av = strings_view(args@);
        let n = args.len();
        if n == 0 {
            return Err(ArgsError::NoArgs);
        }
        assert(av[0] == args@[0]@);
        let first_file = text::ends_with(args[0].as_str(), ".txt");
        if first_file && n == 1 {
            return Err(ArgsError::MissingCmd);
        }
        let mut k: usize = 1;
        while k < n
            invariant
                n == args.len(),
                av == strings_view(args@),
                1 <= k <= n,
                forall|j: int| 1 <= j < k ==> !is_file_arg(#[trigger] av[j]),
            decreases n - k,
        {
            assert(av[k as int] == args@[k as int]@);
            if text::ends_with(args[k].as_str(), ".txt") {
                return Err(ArgsError::Invalid);
            }
            k = k + 1;
        }
        let start: usize = if first_file { 2 } else { 1 };
        let file_name: Option<String> = if first_file { Some(args[0].clone()) } else { None };
        let cmd: &str = args[start - 1].as_str();
        assert(av[start - 1] == args@[start - 1]@);
        let mut options: Vec<&str> = Vec::new();
        let mut flags: Vec<&str> = Vec::new();
        let mut i: usize = start;
        assert(av.skip(start as int).take(0) =~= Seq::<Seq<char>>::empty());
        while i < n
            invariant
                n == args.len(),
                av == strings_view(args@),
                start <= i <= n,
                split_flags(av.skip(start as int).take(i - start)) == (
                    commands::strs_view(options@),
                    commands::strs_view(flags@),
                ),
            decreases n - i,
        {
            let a: &str = args[i].as_str();
            assert(av[i as int] == a@);
            let ghost rest = av.skip(start as int);
            assert(rest.take(i - start + 1).drop_last() =~= rest.take(i - start));
            assert(rest.take(i - start + 1).last() == a@);
            if text::starts_with(a, "--") {
                flags.push(a);
                assert(commands::strs_view(flags@) =~= commands::strs_view(flags@.drop_last()).push(a@));
            } else {
                options.push(a);
                assert(commands::strs_view(options@) =~= commands::strs_view(options@.drop_last()).push(a@));
            }
            i = i + 1;
        }
        assert(av.skip(start as int).take(n - start) =~= av.skip(start as int));
        let command = Command::new(cmd, &options, &flags)?;
        Ok(Config { command, file_name })
    }
}

/// The help text shown after an argument error: the argument pattern, then
/// help for every command (for general errors) or for the command concerned.
pub open spec fn config_help_text(err: ArgsErrorView) -> Seq<char> {
    "Arguments pattern: <file> <command> [options]\n"@ + match err {
        ArgsErrorView::MissingOption(cmd) => commands::help_line(cmd),
        ArgsErrorView::InvalidOption(cmd, _) => commands::help_line(cmd),
        _ => commands::help_all_text(),
    }
}

/// Returns the help message that fits an argument error.
pub fn get_config_help_msg(err: ArgsError) -> (r: String)
    ensures
        r@ == config_help_text(err@),
{
    let mut msg = String::from_str("Arguments pattern: <file> <command> [options]\n");
    match err {
        ArgsError::Invalid | ArgsError::NoArgs | ArgsError::MissingCmd => {
            let all = commands::get_help_all();
            msg.append(all.as_str());
        },
        ArgsError::MissingOption(cmd) => {
            let help = commands::get_help(cmd.0.as_str());
            msg.append(help.as_str());
        },
        ArgsError::InvalidOption(cmd, _) => {
            let help = commands::get_help(cmd.0.as_str());
            msg.append(help.as_str());
        },
    }
    msg
}


/// Splitting keeps every argument: the options are the arguments that are no
/// flags and the flags those that are, each in their original order.
pub proof fn lemma_split_flags_partition(args: Seq<Seq<char>>)
    ensures
        ({
            let (options, flags) = split_flags(args);
            &&& options.len() + flags.len() == args.len()
            &&& forall|i: int| 0 <= i < options.len() ==> !is_flag_arg(#[trigger] options[i])
            &&& forall|i: int| 0 <= i < flags.len() ==> is_flag_arg(#[trigger] flags[i])
            &&& options == args.filter(|a: Seq<char>| !is_flag_arg(a))
            &&& flags == args.filter(|a: Seq<char>| is_flag_arg(a))
        }),
    decreases args.len(),
{
    reveal(Seq::filter);
    if args.len() > 0 {
        lemma_split_flags_partition(args.drop_last());
    }
}

/// A file name is accepted only as the first argument: any later argument
/// that names a file makes the command line invalid.
pub proof fn lemma_file_name_only_first(args: Seq<Seq<char>>)
    requires
        exists|j: int| 1 <= j < args.len() && is_file_arg(#[trigger] args[j]),
    ensures
        config_spec(args) == Err::<ConfigView, ArgsErrorView>(ArgsErrorView::Invalid),
{
}

/// Without a file name, the first argument is the command and the others are
/// handed to the command parser as options and flags; with a leading file name
/// (and more arguments after it), the same holds of the arguments after it.
pub proof fn lemma_config_hands_rest_to_command(args: Seq<Seq<char>>)
    requires
        args.len() >= 1,
        forall|j: int| 1 <= j < args.len() ==> !is_file_arg(#[trigger] args[j]),
        is_file_arg(args[0]) ==> args.len() >= 2,
    ensures
        ({
            let file = is_file_arg(args[0]);
            let start = if file {
                2int
            } else {
                1int
            };
            let (options, flags) = split_flags(args.skip(start));
            config_spec(args) == match commands::command_spec(args[start - 1], options, flags) {
                Ok(command) => Ok::<ConfigView, ArgsErrorView>(
                    ConfigView { command, file_name: if file {
                        Some(args[0])
                    } else {
                        None
                    } },
                ),
                Err(e) => Err(e),
            }
        }),
{
}

} // verus!
