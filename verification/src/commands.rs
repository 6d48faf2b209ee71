//! Commands for the text processor CLI.
use vstd::prelude::*;

use crate::error::{ArgsError, ArgsErrorView, InvalidParam, ValidCommand};
use crate::text;

verus! {

/// Represents a command for the text processor CLI.
#[derive(Debug)]
pub enum CommandType {
    /// Prints general statistics for the input text.
    Stats,
    /// Finds lines containing the given pattern.
    Find(String),
    /// Prints the top N most frequent words.
    Top(usize),
    /// Filters lines containing the given pattern.
    Filter(String),
    /// Prints the longest line in the input text.
    Longest,
    /// Prints unique lines from the input text.
    Unique,
    /// Replaces occurrences of the first string with the second string.
    Replace(String, String),
}

/// The abstract value of a `CommandType`.
pub enum CommandTypeView {
    Stats,
    Find(Seq<char>),
    Top(usize),
    Filter(Seq<char>),
    Longest,
    Unique,
    Replace(Seq<char>, Seq<char>),
}

impl View for CommandType {
    type V = CommandTypeView;

    open spec fn view(&self) -> CommandTypeView {
        match self {
            CommandType::Stats => CommandTypeView::Stats,
            CommandType::Find(s) => CommandTypeView::Find(s@),
            CommandType::Top(n) => CommandTypeView::Top(*n),
            CommandType::Filter(s) => CommandTypeView::Filter(s@),
            CommandType::Longest => CommandTypeView::Longest,
            CommandType::Unique => CommandTypeView::Unique,
            CommandType::Replace(a, b) => CommandTypeView::Replace(a@, b@),
        }
    }
}

/// Parsed CLI command configuration.
#[derive(Debug)]
pub struct Command {
    /// The operation to run.
    pub cmd: CommandType,
    /// Whether pattern matching should preserve letter case.
    pub case_sensitive: bool,
}

/// The abstract value of a `Command`.
pub struct CommandView {
    pub cmd: CommandTypeView,
    pub case_sensitive: bool,
}

impl View for Command {
    type V = CommandView;

    open spec fn view(&self) -> CommandView {
        CommandView { cmd: self.cmd@, case_sensitive: self.case_sensitive }
    }
}

/// The views of a vector of string slices.
pub open spec fn strs_view(v: Seq<&str>) -> Seq<Seq<char>> {
    v.map_values(|s: &str| s@)
}

/// The abstract value of the result of parsing a command.
pub open spec fn command_result_view(r: Result<Command, ArgsError>) -> Result<
    CommandView,
    ArgsErrorView,
> {
    match r {
        Ok(c) => Ok(c@),
        Err(e) => Err(e@),
    }
}

/// The command that `Command::new` builds from a command name, its options
/// and its flags, or the error it reports.
pub open spec fn command_spec(cmd: Seq<char>, options: Seq<Seq<char>>, flags: Seq<Seq<char>>) -> Result<
    CommandView,
    ArgsErrorView,
> {
    let no_options = options.len() == 0;
    let case_sensitive = !flags.contains("--ignore-case"@);
    let plain = |t: CommandTypeView| Ok(CommandView { cmd: t, case_sensitive: false });
    if cmd == "stats"@ {
        plain(CommandTypeView::Stats)
    } else if cmd == "longest-line"@ {
        plain(CommandTypeView::Longest)
    } else if cmd == "unique-lines"@ {
        plain(CommandTypeView::Unique)
    } else if (cmd == "find"@ || cmd == "top-words"@ || cmd == "filter-lines"@ || cmd
        == "replace"@) && no_options {
        Err(ArgsErrorView::MissingOption(cmd))
    } else if cmd == "find"@ {
        Ok(CommandView { cmd: CommandTypeView::Find(options[0]), case_sensitive })
    } else if cmd == "top-words"@ {
        match text::parse_int(options[0], 0, usize::MAX as int) {
            Ok(n) => plain(CommandTypeView::Top(n as usize)),
            Err(k) => Err(ArgsErrorView::InvalidOption("top-words"@, text::int_error_text(k))),
        }
    } else if cmd == "filter-lines"@ {
        Ok(CommandView { cmd: CommandTypeView::Filter(options[0]), case_sensitive })
    } else if cmd == "replace"@ {
        if options.len() < 2 {
            Err(ArgsErrorView::MissingOption("replace"@))
        } else {
            plain(CommandTypeView::Replace(options[0], options[1]))
        }
    } else {
        Err(ArgsErrorView::Invalid)
    }
}

/// Whether one of the slices in `v` equals `x`.
pub fn contains_str(v: &Vec<&str>, x: &str) -> (r: bool)
    ensures
        r == strs_view(v@).contains(x@),
{
    let mut i: usize = 0;
    while i < v.len()
        invariant
            i <= v.len(),
            forall|j: int| 0 <= j < i ==> v@[j]@ != x@,
        decreases v.len() - i,
    {
        if text::str_eq(v[i], x) {
            assert(strs_view(v@)[i as int] == x@);
            return true;
        }
        i = i + 1;
    }
    assert forall|j: int| 0 <= j < strs_view(v@).len() implies strs_view(v@)[j] != x@ by {
        assert(strs_view(v@)[j] == v@[j]@);
    }
    false
}

impl Default for Command {
    fn default() -> (r: Self)
        ensures
            r@ == (CommandView { cmd: CommandTypeView::Stats, case_sensitive: false }),
    {
        Command { cmd: CommandType::Stats, case_sensitive: false }
    }
}

impl Command {
    /// Builds a command from the command name, positional options, and flags.
    ///
    /// Commands that require options return [`ArgsError::MissingOption`] with
    /// the command name when none are provided. `top-words` returns
    /// [`ArgsError::InvalidOption`] with the command name and parse failure when
    /// its count cannot be parsed as an unsigned integer, and unknown command
    /// names return [`ArgsError::Invalid`].
    pub fn new(cmd: &str, options: &Vec<&str>, flags: &Vec<&str>) -> (r: Result<Self, ArgsError>)
        ensures
            command_result_view(r) == command_spec(cmd@, strs_view(options@), strs_view(flags@)),
    {
        let no_options = options.len() == 0;
        let ignore_case = contains_str(flags, "--ignore-case");
        proof {
            assert(strs_view(options@).len() == options@.len());
            if !no_options {
                assert(strs_view(options@)[0] == options@[0]@);
            }
            if options@.len() >= 2 {
                assert(strs_view(options@)[1] == options@[1]@);
            }
        }
        if text::str_eq(cmd, "stats") {
            Ok(Command::default())
        } else if text::str_eq(cmd, "longest-line") {
            Ok(Command { cmd: CommandType::Longest, case_sensitive: false })
        } else if text::str_eq(cmd, "unique-lines") {
            Ok(Command { cmd: CommandType::Unique, case_sensitive: false })
        } else if (text::str_eq(cmd, "find") || text::str_eq(cmd, "top-words") || text::str_eq(
            cmd,
            "filter-lines",
        ) || text::str_eq(cmd, "replace")) && no_options {
            Err(ArgsError::MissingOption(ValidCommand(String::from_str(cmd))))
        } else if text::str_eq(cmd, "find") {
            Ok(Command { cmd: CommandType::Find(String::from_str(options[0])), case_sensitive: !ignore_case })
        } else if text::str_eq(cmd, "top-words") {
            match text::parse_usize(options[0]) {
                Ok(count) => Ok(Command { cmd: CommandType::Top(count), case_sensitive: false }),
                Err(e) => Err(
                    ArgsError::InvalidOption(
                        ValidCommand(String::from_str("top-words")),
                        InvalidParam(e.message()),
                    ),
                ),
            }
        } else if text::str_eq(cmd, "filter-lines") {
            Ok(Command { cmd: CommandType::Filter(String::from_str(options[0])), case_sensitive: !ignore_case })
        } else if text::str_eq(cmd, "replace") {
            if options.len() < 2 {
                Err(ArgsError::MissingOption(ValidCommand(String::from_str("replace"))))
            } else {
                Ok(
                    Command {
                        cmd: CommandType::Replace(
                            String::from_str(options[0]),
                            String::from_str(options[1]),
                        ),
                        case_sensitive: false,
                    },
                )
            }
        } else {
            Err(ArgsError::Invalid)
        }
    }
}


/// The text that `Display` gives a command type.
pub open spec fn command_type_text(t: CommandTypeView) -> Seq<char> {
    match t {
        CommandTypeView::Stats => "stats"@,
        CommandTypeView::Find(s) => "find "@ + s,
        CommandTypeView::Top(n) => "top-"@ + text::decimal(n as nat),
        CommandTypeView::Filter(s) => "filter "@ + s,
        CommandTypeView::Longest => "longest-line"@,
        CommandTypeView::Unique => "unique-lines"@,
        CommandTypeView::Replace(a, b) => "replace "@ + a + " "@ + b,
    }
}

/// The text that `Display` gives a command.
pub open spec fn command_text(c: CommandView) -> Seq<char> {
    command_type_text(c.cmd) + " "@ + if c.case_sensitive {
        "(case sensitive)"@
    } else {
        "(case insensitive)"@
    }
}

impl CommandType {
    /// The display text of this command type, such as `find rust` or `top-5`.
    pub fn describe(&self) -> (r: String)
        ensures
            r@ == command_type_text(self@),
    {
        match self {
            CommandType::Stats => String::from_str("stats"),
            CommandType::Find(s) => {
                let mut r = String::from_str("find ");
                r.append(s.as_str());
                r
            },
            CommandType::Top(n) => {
                let mut r = String::from_str("top-");
                let digits = text::usize_to_string(*n);
                r.append(digits.as_str());
                r
            },
            CommandType::Filter(s) => {
                let mut r = String::from_str("filter ");
                r.append(s.as_str());
                r
            },
            CommandType::Longest => String::from_str("longest-line"),
            CommandType::Unique => String::from_str("unique-lines"),
            CommandType::Replace(a, b) => {
                let mut r = String::from_str("replace ");
                r.append(a.as_str());
                r.append(" ");
                r.append(b.as_str());
                r
            },
        }
    }
}

impl Command {
    /// The display text of this command, such as `find rust (case sensitive)`.
    pub fn describe(&self) -> (r: String)
        ensures
            r@ == command_text(self@),
    {
        let mut r = self.cmd.describe();
        r.append(" ");
        if self.case_sensitive {
            r.append("(case sensitive)");
        } else {
            r.append("(case insensitive)");
        }
        r
    }
}

/// The help line for a command name (without a line break).
pub open spec fn help_line(cmd: Seq<char>) -> Seq<char> {
    if cmd == "stats"@ {
        "'stats': Print general statistics about the file."@
    } else if cmd == "longest-line"@ {
        "'longest-line': Print the longest line in the file."@
    } else if cmd == "unique-lines"@ {
        "'unique-lines': Print unique lines in the file."@
    } else if cmd == "find"@ {
        "'find <pattern>': Find lines containing a specific pattern."@
    } else if cmd == "top-words"@ {
        "'top-words <count>': Print the top N most frequent words in the file."@
    } else if cmd == "filter-lines"@ {
        "'filter-lines <pattern>': Filter lines containing a specific pattern."@
    } else if cmd == "replace"@ {
        "'replace <pattern> <replacement>': Replace occurrences of a pattern with a replacement."@
    } else {
        "Unsupported command: "@ + cmd
    }
}

/// The supported command names, in the order in which help lists them.
pub open spec fn supported_commands() -> Seq<Seq<char>> {
    seq![
        "stats"@,
        "longest-line"@,
        "unique-lines"@,
        "find"@,
        "top-words"@,
        "filter-lines"@,
        "replace"@,
    ]
}

/// The help lines of `cmds`, each followed by a line break.
pub open spec fn help_lines(cmds: Seq<Seq<char>>) -> Seq<char>
    decreases cmds.len(),
{
    if cmds.len() == 0 {
        seq![]
    } else {
        help_lines(cmds.drop_last()) + help_line(cmds.last()) + "\n"@
    }
}

/// The help text for every supported command.
pub open spec fn help_all_text() -> Seq<char> {
    "Available commands:\n"@ + help_lines(supported_commands())
}

/// Returns the help line for a command name (without a line break).
pub fn get_help(cmd: &str) -> (r: String)
    ensures
        r@ == help_line(cmd@),
{
    if text::str_eq(cmd, "stats") {
        String::from_str("'stats': Print general statistics about the file.")
    } else if text::str_eq(cmd, "longest-line") {
        String::from_str("'longest-line': Print the longest line in the file.")
    } else if text::str_eq(cmd, "unique-lines") {
        String::from_str("'unique-lines': Print unique lines in the file.")
    } else if text::str_eq(cmd, "find") {
        String::from_str("'find <pattern>': Find lines containing a specific pattern.")
    } else if text::str_eq(cmd, "top-words") {
        String::from_str("'top-words <count>': Print the top N most frequent words in the file.")
    } else if text::str_eq(cmd, "filter-lines") {
        String::from_str("'filter-lines <pattern>': Filter lines containing a specific pattern.")
    } else if text::str_eq(cmd, "replace") {
        String::from_str(
            "'replace <pattern> <replacement>': Replace occurrences of a pattern with a replacement.",
        )
    } else {
        let mut r = String::from_str("Unsupported command: ");
        r.append(cmd);
        r
    }
}

/// Writes command-specific help text for a command name, followed by a line break.
pub fn write_help(cmd: &str, writer: &mut String)
    ensures
        final(writer)@ == old(writer)@ + help_line(cmd@) + "\n"@,
{
    let line = get_help(cmd);
    writer.append(line.as_str());
    writer.append("\n");
}

/// Writes help text for every supported command.
pub fn write_help_all(writer: &mut String)
    ensures
        final(writer)@ == old(writer)@ + help_all_text(),
{
    let ghost start = writer@;
    writer.append("Available commands:\n");
    let cmds: [&str; 7] = [
        "stats",
        "longest-line",
        "unique-lines",
        "find",
        "top-words",
        "filter-lines",
        "replace",
    ];
    let ghost names = supported_commands();
    assert(cmds@.map_values(|c: &str| c@) =~= names);
    let mut i: usize = 0;
    while i < 7
        invariant
            i <= 7,
            cmds@.map_values(|c: &str| c@) == names,
            names == supported_commands(),
            writer@ == start + "Available commands:\n"@ + help_lines(names.take(i as int)),
        decreases 7 - i,
    {
        assert(cmds@.map_values(|c: &str| c@)[i as int] == cmds@[i as int]@);
        write_help(cmds[i], writer);
        assert(names.take(i + 1).drop_last() =~= names.take(i as int));
        i = i + 1;
    }
    assert(names.take(7) =~= names);
}

/// Returns the help text for every supported command.
pub fn get_help_all() -> (r: String)
    ensures
        r@ == help_all_text(),
{
    let mut r = String::new();
    write_help_all(&mut r);
    assert(r@ =~= help_all_text());
    r
}


/// The seven command names differ from one another.
proof fn lemma_command_names_distinct()
    ensures
        supported_commands().no_duplicates(),
        supported_commands()[0] == "stats"@,
        supported_commands()[1] == "longest-line"@,
        supported_commands()[2] == "unique-lines"@,
        supported_commands()[3] == "find"@,
        supported_commands()[4] == "top-words"@,
        supported_commands()[5] == "filter-lines"@,
        supported_commands()[6] == "replace"@,
        supported_commands().len() == 7,
{
    reveal_strlit("stats");
    reveal_strlit("longest-line");
    reveal_strlit("unique-lines");
    reveal_strlit("find");
    reveal_strlit("top-words");
    reveal_strlit("filter-lines");
    reveal_strlit("replace");
    let c = supported_commands();
    assert(c[0].len() == 5 && c[1].len() == 12 && c[2].len() == 12 && c[3].len() == 4);
    assert(c[4].len() == 9 && c[5].len() == 12 && c[6].len() == 7);
    assert(c[1][0] == 'l' && c[2][0] == 'u' && c[5][0] == 'f');
}

/// The commands that need an option (`find`, `top-words`, `filter-lines`,
/// `replace`) are refused without one, and the error names the command.
pub proof fn lemma_missing_option_names_command(cmd: Seq<char>, flags: Seq<Seq<char>>)
    requires
        cmd == "find"@ || cmd == "top-words"@ || cmd == "filter-lines"@ || cmd == "replace"@,
    ensures
        command_spec(cmd, seq![], flags) == Err::<CommandView, ArgsErrorView>(
            ArgsErrorView::MissingOption(cmd),
        ),
{
    lemma_command_names_distinct();
}

/// A name that is none of the supported commands is refused as invalid,
/// whatever the options and flags.
pub proof fn lemma_unknown_command_is_invalid(
    cmd: Seq<char>,
    options: Seq<Seq<char>>,
    flags: Seq<Seq<char>>,
)
    requires
        !supported_commands().contains(cmd),
    ensures
        command_spec(cmd, options, flags) == Err::<CommandView, ArgsErrorView>(
            ArgsErrorView::Invalid,
        ),
{
    assert(supported_commands()[0] == "stats"@);
    assert(supported_commands()[1] == "longest-line"@);
    assert(supported_commands()[2] == "unique-lines"@);
    assert(supported_commands()[3] == "find"@);
    assert(supported_commands()[4] == "top-words"@);
    assert(supported_commands()[5] == "filter-lines"@);
    assert(supported_commands()[6] == "replace"@);
}

/// Only `find` and `filter-lines` match case-sensitively, and they do so
/// exactly when `--ignore-case` is not among the flags.
pub proof fn lemma_case_sensitivity(cmd: Seq<char>, options: Seq<Seq<char>>, flags: Seq<Seq<char>>)
    ensures
        command_spec(cmd, options, flags) matches Ok(c) ==> (c.case_sensitive <==> ((cmd
            == "find"@ || cmd == "filter-lines"@) && !flags.contains("--ignore-case"@))),
{
    lemma_command_names_distinct();
}

/// `top-words` reads back the count that a number's decimal text gives it.
pub proof fn lemma_top_words_reads_count(n: usize, flags: Seq<Seq<char>>)
    ensures
        command_spec("top-words"@, seq![text::decimal(n as nat)], flags) == Ok::<
            CommandView,
            ArgsErrorView,
        >(CommandView { cmd: CommandTypeView::Top(n), case_sensitive: false }),
{
    lemma_command_names_distinct();
    text::lemma_parse_decimal_round_trip(n as nat, 0, usize::MAX as int);
}

/// `needle` occurs in `hay` as a contiguous run.
pub open spec fn occurs_in(needle: Seq<char>, hay: Seq<char>) -> bool {
    exists|k: int|
        0 <= k && k + needle.len() <= hay.len() && #[trigger] hay.subrange(k, k + needle.len())
            == needle
}

proof fn lemma_help_lines_hold(cmds: Seq<Seq<char>>, i: int)
    requires
        0 <= i < cmds.len(),
    ensures
        occurs_in(help_line(cmds[i]) + "\n"@, help_lines(cmds)),
    decreases cmds.len(),
{
    let last = help_line(cmds.last()) + "\n"@;
    let before = help_lines(cmds.drop_last());
    assert(help_lines(cmds) == before + last);
    if i == cmds.len() - 1 {
        let k = before.len() as int;
        assert((before + last).subrange(k, k + last.len()) =~= last);
    } else {
        lemma_help_lines_hold(cmds.drop_last(), i);
        assert(cmds.drop_last()[i] == cmds[i]);
        let needle = help_line(cmds[i]) + "\n"@;
        let k = choose|k: int|
            0 <= k && k + needle.len() <= before.len() && #[trigger] before.subrange(
                k,
                k + needle.len(),
            ) == needle;
        assert((before + last).subrange(k, k + needle.len()) =~= before.subrange(
            k,
            k + needle.len(),
        ));
    }
}

/// The help for all commands holds the help line of every supported command,
/// each followed by a line break.
pub proof fn lemma_help_all_lists_every_command(cmd: Seq<char>)
    requires
        supported_commands().contains(cmd),
    ensures
        occurs_in(help_line(cmd) + "\n"@, help_all_text()),
{
    let cmds = supported_commands();
    let i = choose|i: int| 0 <= i < cmds.len() && cmds[i] == cmd;
    lemma_help_lines_hold(cmds, i);
    let needle = help_line(cmd) + "\n"@;
    let lines = help_lines(cmds);
    let k = choose|k: int|
        0 <= k && k + needle.len() <= lines.len() && #[trigger] lines.subrange(
            k,
            k + needle.len(),
        ) == needle;
    let head = "Available commands:\n"@;
    let k2 = head.len() + k;
    assert((head + lines).subrange(k2, k2 + needle.len()) =~= lines.subrange(k, k + needle.len()));
}

} // verus!
