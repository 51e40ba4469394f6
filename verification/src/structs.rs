use vstd::prelude::*;
use vstd::string::StringExecFns;

use crate::graph::{error_code, UniqueLinks};

verus! {

/// The command-line options: the paths to work on, what to do with them,
/// and the two patterns.
#[derive(Clone, Debug)]
pub struct Opts {
    pub files: Vec<String>,
    pub copy_bool: bool,
    pub move_bool: bool,
    pub force_run: bool,
    pub log_bool: bool,
    pub source_pattern: String,
    pub dest_pattern: String,
}

/// What a run does after showing the plan.
#[derive(Clone, Copy, Debug, PartialEq, Eq, Structural)]
pub enum RunAction {
    /// Move every planned file.
    Rename,
    /// Copy every planned file.
    Copy,
    /// Only show the plan.
    Nothing,
}

/// The line shown before the plan: a dry-run notice when copying or moving
/// was asked for without `--force`, and nothing otherwise.
pub open spec fn banner_text(copy_bool: bool, move_bool: bool, force_run: bool) -> Seq<char> {
    if copy_bool && !force_run {
        "\n"@ + ansi_sequence(Color::Blue) + "This is a DRY run for copying "@ + ansi_sequence(
            Color::Default,
        )
    } else if move_bool && !force_run {
        "\n"@ + ansi_sequence(Color::Blue) + "This is a DRY run for renaming/moving "@
            + ansi_sequence(Color::Default)
    } else {
        Seq::empty()
    }
}

/// A forced run is never announced as a dry run: the banner is empty
/// exactly when `--force` is given or neither copying nor moving is asked
/// for; otherwise it announces the copy when `--copy` is given, and the move
/// when only `--move` is.
pub proof fn lemma_banner(copy_bool: bool, move_bool: bool, force_run: bool)
    ensures
        banner_text(copy_bool, move_bool, force_run).len() == 0 <==> force_run || (!copy_bool
            && !move_bool),
        copy_bool && !force_run ==> banner_text(copy_bool, move_bool, force_run) == "\n"@
            + ansi_sequence(Color::Blue) + "This is a DRY run for copying "@ + ansi_sequence(
            Color::Default,
        ),
        !copy_bool && move_bool && !force_run ==> banner_text(copy_bool, move_bool, force_run)
            == "\n"@ + ansi_sequence(Color::Blue) + "This is a DRY run for renaming/moving "@
            + ansi_sequence(Color::Default),
{
    reveal_strlit("\n");
}

impl Opts {
    /// The line to print before the plan (see `banner_text`).
    pub fn banner(&self) -> (r: String)
        ensures
            r@ == banner_text(self.copy_bool, self.move_bool, self.force_run),
    {
        let mut text = String::new();
        if self.copy_bool && !self.force_run {
            text.append("\n");
            text.append(Color::Blue.as_str());
            text.append("This is a DRY run for copying ");
            text.append(Color::Default.as_str());
        } else if self.move_bool && !self.force_run {
            text.append("\n");
            text.append(Color::Blue.as_str());
            text.append("This is a DRY run for renaming/moving ");
            text.append(Color::Default.as_str());
        }
        text
    }

    /// What to do once the plan is shown: with `--force`, move when `--move`
    /// was given, otherwise copy when `--copy` was given; without `--force`,
    /// nothing.
    pub fn run_action(&self) -> (r: RunAction)
        ensures
            r == (if self.move_bool && self.force_run {
                RunAction::Rename
            } else if self.copy_bool && self.force_run {
                RunAction::Copy
            } else {
                RunAction::Nothing
            }),
    {
        if self.move_bool && self.force_run {
            RunAction::Rename
        } else if self.copy_bool && self.force_run {
            RunAction::Copy
        } else {
            RunAction::Nothing
        }
    }
}

/// Terminal colours used when a planned move is shown to the user.
#[derive(Clone, Copy, Debug, PartialEq, Eq, Structural)]
pub enum Color {
    Red,
    Green,
    Blue,
    Default,
}

/// The ANSI escape sequence `ESC [ code m` that selects `color` on a terminal.
pub open spec fn ansi_sequence(color: Color) -> Seq<char> {
    match color {
        Color::Red => seq!['\u{1b}', '[', '3', '1', 'm'],
        Color::Green => seq!['\u{1b}', '[', '3', '2', 'm'],
        Color::Blue => seq!['\u{1b}', '[', '3', '4', 'm'],
        Color::Default => seq!['\u{1b}', '[', '0', 'm'],
    }
}

impl Color {
    /// The escape sequence that switches the terminal to this colour.
    pub fn as_str(&self) -> (r: &'static str)
        ensures
            r@ == ansi_sequence(*self),
    {
        match self {
            Color::Red => {
                proof {
                    reveal_strlit("\x1b[31m");
                }
                "\x1b[31m"
            },
            Color::Green => {
                proof {
                    reveal_strlit("\x1b[32m");
                }
                "\x1b[32m"
            },
            Color::Blue => {
                proof {
                    reveal_strlit("\x1b[34m");
                }
                "\x1b[34m"
            },
            Color::Default => {
                proof {
                    reveal_strlit("\x1b[0m");
                }
                "\x1b[0m"
            },
        }
    }
}

/// The record of a batch of copies or moves: for each link, its source and
/// destination paths, and a status code with a description.
pub struct OperationStatus {
    pub files: Vec<(String, String)>,
    pub status: Vec<(String, String)>,
}

impl OperationStatus {
    /// An empty record, with room reserved for `size + 1` operations.
    pub fn new(size: usize) -> (r: OperationStatus)
        requires
            size < usize::MAX,
        ensures
            r.files@.len() == 0,
            r.status@.len() == 0,
    {
        OperationStatus { files: Vec::with_capacity(size + 1), status: Vec::with_capacity(size + 1) }
    }

    /// Records one operation on `source` -> `destination`: `Success` when it
    /// succeeded, otherwise the code that `UniqueLinks::get_err_code` reads
    /// from the error's one-line rendering.
    pub fn record_outcome(
        &mut self,
        source: String,
        destination: String,
        outcome: &Result<(), String>,
    )
        ensures
            final(self).files@ == old(self).files@.push((source, destination)),
            final(self).status@.len() == old(self).status@.len() + 1,
            final(self).status@.drop_last() == old(self).status@,
            ({
                let last = final(self).status@.last();
                match outcome {
                    Ok(_) => last.0@ == "Success"@ && last.1@ == "Operation successfully completed"@,
                    Err(message) => (last.0@, last.1@) == error_code(message@),
                }
            }),
    {
        self.files.push((source, destination));
        let entry = match outcome {
            Ok(_) => (
                String::from_str("Success"),
                String::from_str("Operation successfully completed"),
            ),
            Err(message) => UniqueLinks::get_err_code(message.as_str()),
        };
        self.status.push(entry);
        assert(self.status@.drop_last() =~= old(self).status@);
    }
}

/// What was found to stand in the way of moving or copying one file.
#[derive(Clone, Copy, Debug, PartialEq, Eq, Structural)]
pub enum FileFailure {
    /// Something, file or directory, already has the destination's path.
    DestinationTaken,
    /// The destination's directory does not exist.
    ParentMissing,
    /// The source is a directory, which is not copied.
    SourceIsDirectory,
}

/// The status code recorded when `action` meets `failure`, if it has one:
/// a move refuses a taken destination (`ERN001`) and a missing directory
/// (`ERN003`); a copy refuses a directory as source (`ECP_DIR`).
pub open spec fn failure_code_text(action: RunAction, failure: FileFailure) -> Option<Seq<char>> {
    match (action, failure) {
        (RunAction::Rename, FileFailure::DestinationTaken) => Some("ERN001"@),
        (RunAction::Rename, FileFailure::ParentMissing) => Some("ERN003"@),
        (RunAction::Copy, FileFailure::SourceIsDirectory) => Some("ECP_DIR"@),
        _ => None,
    }
}

/// The status code for `failure` met while carrying out `action`, or `None`
/// where that action does not refuse on it.
pub fn failure_code(action: RunAction, failure: FileFailure) -> (r: Option<&'static str>)
    ensures
        match r {
            Some(code) => failure_code_text(action, failure) == Some(code@),
            None => failure_code_text(action, failure) is None,
        },
{
    match (action, failure) {
        (RunAction::Rename, FileFailure::DestinationTaken) => Some("ERN001"),
        (RunAction::Rename, FileFailure::ParentMissing) => Some("ERN003"),
        (RunAction::Copy, FileFailure::SourceIsDirectory) => Some("ECP_DIR"),
        _ => None,
    }
}

} // verus!
