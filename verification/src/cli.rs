//! The command line: the parser's definition, and reading the options out of
//! a parsed command line. Parsing itself is done by `clap`.
use clap::builder::NonEmptyStringValueParser;
use clap::{Arg, ArgAction, ArgMatches, Command};
use vstd::prelude::*;
use vstd::string::StringExecFns;

use crate::graph::string_views;
use crate::structs::Opts;

verus! {

#[verifier::external_type_specification]
#[verifier::external_body]
pub struct ExArg(Arg);

#[verifier::external_type_specification]
#[verifier::external_body]
pub struct ExArgMatches(ArgMatches);

/// How an argument takes its values.
#[derive(Clone, Copy, Debug, PartialEq, Eq, Structural)]
pub enum ArgKind {
    /// One value.
    Single,
    /// One or more values.
    Append,
    /// A flag without value.
    SetTrue,
}

/// A command line that `clap` refused, or a request for help or version:
/// the text `clap` renders, the exit status it asks for, and whether the
/// text goes to standard error.
#[derive(Clone, Debug)]
pub struct ArgError {
    pub message: String,
    pub exit_code: i32,
    pub use_stderr: bool,
}

/// Calls `Arg::new`.
#[verifier::external_body]
fn arg_new(id: &'static str) -> Arg {
    Arg::new(id)
}

/// Calls `Arg::action` with the `ArgAction` that `kind` stands for.
#[verifier::external_body]
fn arg_action(arg: Arg, kind: ArgKind) -> Arg {
    arg.action(
        match kind {
            ArgKind::Single => ArgAction::Set,
            ArgKind::Append => ArgAction::Append,
            ArgKind::SetTrue => ArgAction::SetTrue,
        },
    )
}

/// Calls `Arg::required`.
#[verifier::external_body]
fn arg_required(arg: Arg, yes: bool) -> Arg {
    arg.required(yes)
}

/// Calls `Arg::value_parser` with a `NonEmptyStringValueParser`, which
/// refuses empty values.
#[verifier::external_body]
fn arg_non_empty(arg: Arg) -> Arg {
    arg.value_parser(NonEmptyStringValueParser::new())
}

/// Calls `Arg::short`, whose debug checks refuse `-` as a short name.
#[verifier::external_body]
fn arg_short(arg: Arg, short: char) -> Arg
    requires
        short != '-',
{
    arg.short(short)
}

/// Calls `Arg::long`.
#[verifier::external_body]
fn arg_long(arg: Arg, long: &'static str) -> Arg {
    arg.long(long)
}

/// Calls `Arg::help`.
#[verifier::external_body]
fn arg_help(arg: Arg, help: &'static str) -> Arg {
    arg.help(help)
}

/// Calls `Arg::default_value`.
#[verifier::external_body]
fn arg_default_value(arg: Arg, value: &'static str) -> Arg {
    arg.default_value(value)
}

/// One argument of the command line, as it is described to the parser.
#[derive(Clone, Copy, Debug)]
pub enum ArgDef {
    /// A positional argument; with `non_empty`, empty values are refused.
    Positional { id: &'static str, kind: ArgKind, required: bool, non_empty: bool },
    /// A flag `-short` / `--long` with a help text and a default value.
    Flag {
        id: &'static str,
        short: char,
        long: &'static str,
        help: &'static str,
        kind: ArgKind,
        default_value: &'static str,
    },
}

/// An argument's description, with its texts as character sequences.
pub enum ArgModel {
    Positional { id: Seq<char>, kind: ArgKind, required: bool, non_empty: bool },
    Flag {
        id: Seq<char>,
        short: char,
        long: Seq<char>,
        help: Seq<char>,
        kind: ArgKind,
        default_value: Seq<char>,
    },
}

impl View for ArgDef {
    type V = ArgModel;

    open spec fn view(&self) -> ArgModel {
        match *self {
            ArgDef::Positional { id, kind, required, non_empty } => ArgModel::Positional {
                id: id@,
                kind,
                required,
                non_empty,
            },
            ArgDef::Flag { id, short, long, help, kind, default_value } => ArgModel::Flag {
                id: id@,
                short,
                long: long@,
                help: help@,
                kind,
                default_value: default_value@,
            },
        }
    }
}

/// The description of a command line: the program's name, author and
/// purpose, and its arguments in order.
#[derive(Clone, Debug)]
pub struct CommandDef {
    pub name: &'static str,
    pub author: &'static str,
    pub about: &'static str,
    pub args: Vec<ArgDef>,
}

/// A command line's description, with its texts as character sequences.
pub struct CommandModel {
    pub name: Seq<char>,
    pub author: Seq<char>,
    pub about: Seq<char>,
    pub args: Seq<ArgModel>,
}

impl View for CommandDef {
    type V = CommandModel;

    open spec fn view(&self) -> CommandModel {
        CommandModel {
            name: self.name@,
            author: self.author@,
            about: self.about@,
            args: self.args@.map_values(|a: ArgDef| a@),
        }
    }
}

/// The description of a flag that is off unless given.
pub open spec fn flag_model(id: Seq<char>, short: char, long: Seq<char>, help: Seq<char>) -> ArgModel {
    ArgModel::Flag { id, short, long, help, kind: ArgKind::SetTrue, default_value: "false"@ }
}

/// The arguments of this program: the source pattern and the destination
/// pattern (one value each), one or more non-empty paths, all three
/// required, then the flags `-c/--copy`, `-m/--move`, `-f/--force` and
/// `-l/--log`.
pub open spec fn parser_args() -> Seq<ArgModel> {
    seq![
        ArgModel::Positional { id: "source_pattern"@, kind: ArgKind::Single, required: true, non_empty: false },
        ArgModel::Positional { id: "dest_pattern"@, kind: ArgKind::Single, required: true, non_empty: false },
        ArgModel::Positional { id: "paths"@, kind: ArgKind::Append, required: true, non_empty: true },
        flag_model("copy"@, 'c', "copy"@, "Flag to enable copying"@),
        flag_model("move"@, 'm', "move"@, "Flag to enable moving"@),
        flag_model("force"@, 'f', "force"@, "Flag to force the changes"@),
        flag_model("log"@, 'l', "log"@, "Flag to enable logging of changes to json file"@),
    ]
}

/// A flag `-short` / `--long` that is off unless given.
fn flag(id: &'static str, short: char, long: &'static str, help: &'static str) -> (r: ArgDef)
    ensures
        r@ == flag_model(id@, short, long@, help@),
{
    ArgDef::Flag { id, short, long, help, kind: ArgKind::SetTrue, default_value: "false" }
}

/// This program's command line: named `File stat`, with its author and
/// purpose, and the arguments of `parser_args`.
pub open spec fn program_parser() -> CommandModel {
    CommandModel {
        name: "File stat"@,
        author: "Sabarish, github.com/sabarish-vm"@,
        about: "An alternative to zmv command from zsh written in rust"@,
        args: parser_args(),
    }
}

/// The command-line parser of this program, described: named `File stat`,
/// with its author and purpose, and the arguments of `parser_args`.
pub fn build_parser() -> (r: CommandDef)
    ensures
        r@ == program_parser(),
{
    let mut args: Vec<ArgDef> = Vec::new();
    args.push(ArgDef::Positional { id: "source_pattern", kind: ArgKind::Single, required: true, non_empty: false });
    args.push(ArgDef::Positional { id: "dest_pattern", kind: ArgKind::Single, required: true, non_empty: false });
    args.push(ArgDef::Positional { id: "paths", kind: ArgKind::Append, required: true, non_empty: true });
    args.push(flag("copy", 'c', "copy", "Flag to enable copying"));
    args.push(flag("move", 'm', "move", "Flag to enable moving"));
    args.push(flag("force", 'f', "force", "Flag to force the changes"));
    args.push(flag("log", 'l', "log", "Flag to enable logging of changes to json file"));
    assert(args@.map_values(|a: ArgDef| a@) =~= parser_args());
    CommandDef {
        name: "File stat",
        author: "Sabarish, github.com/sabarish-vm",
        about: "An alternative to zmv command from zsh written in rust",
        args,
    }
}

/// What `clap` makes of a command line (the program name first) under the
/// parser that `parser` describes: `None` when it returns an error (a
/// refused command line, or a request for help or version), else the values
/// of the arguments that take text, by id (an empty sequence for one not
/// given), and the values of the flags, by id.
pub uninterp spec fn clap_parse(parser: CommandModel, args: Seq<Seq<char>>) -> Option<
    (Map<Seq<char>, Seq<Seq<char>>>, Map<Seq<char>, bool>),
>;

/// The text values that a parsed command line holds, by argument id (an
/// empty sequence for an argument not given).
pub uninterp spec fn matches_strings(matches: ArgMatches) -> Map<Seq<char>, Seq<Seq<char>>>;

/// The flag values that a parsed command line holds, by argument id.
pub uninterp spec fn matches_flags(matches: ArgMatches) -> Map<Seq<char>, bool>;

/// What a command line parsed by this program's parser always holds: the
/// two patterns and at least one path, every path non-empty (the arguments
/// are required, and paths go through a parser that refuses empty text),
/// and a value for each of the four flags (each has a default).
pub open spec fn program_matches(
    strings: Map<Seq<char>, Seq<Seq<char>>>,
    flags: Map<Seq<char>, bool>,
) -> bool {
    &&& strings.contains_key("source_pattern"@) && strings["source_pattern"@].len() >= 1
    &&& strings.contains_key("dest_pattern"@) && strings["dest_pattern"@].len() >= 1
    &&& strings.contains_key("paths"@) && strings["paths"@].len() >= 1
    &&& forall|k: int|
        0 <= k < strings["paths"@].len() ==> (#[trigger] strings["paths"@][k]).len() > 0
    &&& flags.contains_key("copy"@)
    &&& flags.contains_key("move"@)
    &&& flags.contains_key("force"@)
    &&& flags.contains_key("log"@)
}

/// The `clap` argument that `def` describes.
fn clap_arg(def: &ArgDef) -> Arg
    requires
        def@ matches ArgModel::Flag { short, .. } ==> short != '-',
{
    match *def {
        ArgDef::Positional { id, kind, required, non_empty } => {
            let arg = arg_required(arg_action(arg_new(id), kind), required);
            if non_empty {
                arg_non_empty(arg)
            } else {
                arg
            }
        },
        ArgDef::Flag { id, short, long, help, kind, default_value } => {
            let arg = arg_short(arg_new(id), short);
            let arg = arg_long(arg, long);
            let arg = arg_help(arg, help);
            let arg = arg_action(arg, kind);
            arg_default_value(arg, default_value)
        },
    }
}

/// Builds the `clap` command that `parser` describes (`Command::new`,
/// `author`, `about`, and `args` with the arguments of `clap_arg`) and calls
/// `Command::try_get_matches_from` on the words of a command line. The
/// result is what `clap` makes of the command line under that parser
/// (`clap_parse`); on success, this program's parser always yields the
/// values that `program_matches` lists. A refusal is rendered into an
/// `ArgError`, whose text and exit status are not stated here. Only this
/// program's parser is accepted: `clap`'s debug checks could refuse another.
#[verifier::external_body]
fn try_get_matches_from(parser: &CommandDef, args: Vec<String>) -> (r: Result<ArgMatches, ArgError>)
    requires
        parser@ == program_parser(),
    ensures
        (r is Ok) <==> clap_parse(parser@, string_views(args@)) is Some,
        r matches Ok(m) ==> clap_parse(parser@, string_views(args@)) == Some(
            (matches_strings(m), matches_flags(m)),
        ) && program_matches(matches_strings(m), matches_flags(m)),
{
    let cmd = Command::new(parser.name).author(parser.author).about(parser.about);
    match cmd.args(parser.args.iter().map(|a| clap_arg(a))).try_get_matches_from(args) {
        Ok(matches) => Ok(matches),
        Err(e) => Err(
            ArgError { message: e.render().to_string(), exit_code: e.exit_code(), use_stderr: e.use_stderr() },
        ),
    }
}

/// Calls `ArgMatches::get_flag`: the flag's value. The id must be that of a
/// flag that has a value (else `clap` panics).
#[verifier::external_body]
fn get_flag(matches: &ArgMatches, id: &'static str) -> (r: bool)
    requires
        matches_flags(*matches).contains_key(id@),
    ensures
        r == matches_flags(*matches)[id@],
{
    matches.get_flag(id)
}

/// Calls `ArgMatches::get_one::<String>` and copies the value out: the first
/// value given, or `None` when there is none. The id must be that of an
/// argument that takes text (else `clap` panics).
#[verifier::external_body]
fn get_one(matches: &ArgMatches, id: &'static str) -> (r: Option<String>)
    requires
        matches_strings(*matches).contains_key(id@),
    ensures
        match r {
            Some(v) => matches_strings(*matches)[id@].len() > 0 && v@ == matches_strings(
                *matches,
            )[id@][0],
            None => matches_strings(*matches)[id@].len() == 0,
        },
{
    matches.get_one::<String>(id).cloned()
}

/// Calls `ArgMatches::get_many::<String>` and copies the values out, in the
/// order given, or `None` when there are none. The id must be that of an
/// argument that takes text (else `clap` panics).
#[verifier::external_body]
fn get_many(matches: &ArgMatches, id: &'static str) -> (r: Option<Vec<String>>)
    requires
        matches_strings(*matches).contains_key(id@),
    ensures
        match r {
            Some(vs) => string_views(vs@) == matches_strings(*matches)[id@],
            None => matches_strings(*matches)[id@].len() == 0,
        },
{
    matches.get_many::<String>(id).map(|values| values.cloned().collect())
}

/// Whether `opts` holds what was read from a parsed command line: the paths,
/// the first value of each pattern, and the four flags, each under its id.
pub open spec fn options_read(
    opts: Opts,
    strings: Map<Seq<char>, Seq<Seq<char>>>,
    flags: Map<Seq<char>, bool>,
) -> bool {
    &&& string_views(opts.files@) == strings["paths"@]
    &&& opts.source_pattern@ == strings["source_pattern"@][0]
    &&& opts.dest_pattern@ == strings["dest_pattern"@][0]
    &&& opts.copy_bool == flags["copy"@]
    &&& opts.move_bool == flags["move"@]
    &&& opts.force_run == flags["force"@]
    &&& opts.log_bool == flags["log"@]
}

/// Parses a command line (the program name first) into options, with this
/// program's parser. It is accepted exactly when `clap` accepts it; the
/// options then hold the values read under each id, with at least one path
/// and no empty path. A refused command line, or a request for help or
/// version, gives `clap`'s rendered error.
pub fn argparse(args: Vec<String>) -> (r: Result<Opts, ArgError>)
    ensures
        (r is Ok) <==> clap_parse(program_parser(), string_views(args@)) is Some,
        r matches Ok(opts) ==> (clap_parse(program_parser(), string_views(args@)) matches Some(
            (strings, flags),
        ) && options_read(opts, strings, flags)),
        r matches Ok(opts) ==> opts.files@.len() >= 1 && forall|k: int|
            0 <= k < opts.files@.len() ==> (#[trigger] opts.files@[k])@.len() > 0,
{
    let parser = build_parser();
    let matches = match try_get_matches_from(&parser, args) {
        Ok(matches) => matches,
        Err(e) => {
            return Err(e);
        },
    };
    let files = match get_many(&matches, "paths") {
        Some(files) => files,
        None => Vec::new(),
    };
    let move_bool = get_flag(&matches, "move");
    let copy_bool = get_flag(&matches, "copy");
    let force_run = get_flag(&matches, "force");
    let log_bool = get_flag(&matches, "log");
    let source_pattern = match get_one(&matches, "source_pattern") {
        Some(p) => p,
        None => String::new(),
    };
    let dest_pattern = match get_one(&matches, "dest_pattern") {
        Some(p) => p,
        None => String::new(),
    };
    let opts = Opts { files, copy_bool, move_bool, force_run, log_bool, source_pattern, dest_pattern };
    proof {
        let strings = matches_strings(matches);
        assert forall|k: int| 0 <= k < opts.files@.len() implies (#[trigger] opts.files@[k])@.len()
            > 0 by {
            assert(string_views(opts.files@)[k] == strings["paths"@][k]);
        }
    }
    Ok(opts)
}

} // verus!
