//! The decisions of the command line: what each argument does to the
//! parsed options, what is refused, and the report format that the output
//! path asks for. Reading the arguments and the file system is left to the
//! caller, which hands each argument in as an event.
use vstd::prelude::*;

use crate::text::{lowercase, str_is, to_lowercase};

verus! {

/// An argument as the command-line lexer gives it.
pub enum ArgEvent {
    /// `-c`
    Short(char),
    /// `--name`
    Long(String),
    /// A free-standing value.
    Value,
}

/// Why the arguments are refused.
#[derive(Debug, Clone, Copy, PartialEq, Eq, Structural)]
pub enum ArgError {
    /// `--output` was given twice.
    DuplicateOutput,
    /// A second free-standing value after the archive path.
    ExtraArgument,
    /// An option that is not known.
    Unexpected,
    /// No archive path was given.
    MissingArchive,
    /// The archive path does not exist.
    ArchiveNotFound,
    /// The archive path is not a directory.
    ArchiveNotDirectory,
}

/// What the caller does with an argument.
#[derive(Debug, Clone, Copy, PartialEq, Eq, Structural)]
pub enum ArgAction {
    /// Print the help and exit successfully.
    ShowHelp,
    /// Print the version and exit successfully.
    ShowVersion,
    /// The report includes parts and programs.
    SetFull,
    /// Read the next value as the output path.
    ReadOutput,
    /// The value is the archive path.
    SetArchive,
    /// Stop with this error.
    Fail(ArgError),
}

/// What the arguments seen so far have set.
#[derive(Debug, Clone, Copy, PartialEq, Eq, Structural)]
pub struct ArgState {
    pub has_archive: bool,
    pub has_output: bool,
    pub full: bool,
}

/// The state after an argument, and what the caller does with it.
pub open spec fn arg_step(s: ArgState, ev: ArgEvent) -> (ArgState, ArgAction) {
    match ev {
        ArgEvent::Short(c) => {
            if c == 'h' {
                (s, ArgAction::ShowHelp)
            } else if c == 'V' {
                (s, ArgAction::ShowVersion)
            } else if c == 'f' {
                (ArgState { full: true, ..s }, ArgAction::SetFull)
            } else if c == 'o' {
                output_step(s)
            } else {
                (s, ArgAction::Fail(ArgError::Unexpected))
            }
        },
        ArgEvent::Long(name) => {
            if name@ == "help"@ {
                (s, ArgAction::ShowHelp)
            } else if name@ == "version"@ {
                (s, ArgAction::ShowVersion)
            } else if name@ == "full"@ {
                (ArgState { full: true, ..s }, ArgAction::SetFull)
            } else if name@ == "output"@ {
                output_step(s)
            } else {
                (s, ArgAction::Fail(ArgError::Unexpected))
            }
        },
        ArgEvent::Value => {
            if s.has_archive {
                (s, ArgAction::Fail(ArgError::ExtraArgument))
            } else {
                (ArgState { has_archive: true, ..s }, ArgAction::SetArchive)
            }
        },
    }
}

/// `-o`/`--output`: accepted once.
pub open spec fn output_step(s: ArgState) -> (ArgState, ArgAction) {
    if s.has_output {
        (s, ArgAction::Fail(ArgError::DuplicateOutput))
    } else {
        (ArgState { has_output: true, ..s }, ArgAction::ReadOutput)
    }
}

/// Each option's short and long forms act alike: `-h`/`--help`,
/// `-V`/`--version`, `-f`/`--full` and `-o`/`--output`.
pub proof fn law_short_and_long_options_agree(s: ArgState, name: String)
    ensures
        name@ == "help"@ ==> arg_step(s, ArgEvent::Long(name)) == arg_step(s, ArgEvent::Short('h')),
        name@ == "version"@ ==> arg_step(s, ArgEvent::Long(name)) == arg_step(
            s,
            ArgEvent::Short('V'),
        ),
        name@ == "full"@ ==> arg_step(s, ArgEvent::Long(name)) == arg_step(s, ArgEvent::Short('f')),
        name@ == "output"@ ==> arg_step(s, ArgEvent::Long(name)) == arg_step(
            s,
            ArgEvent::Short('o'),
        ),
{
    reveal_strlit("help");
    reveal_strlit("version");
    reveal_strlit("full");
    reveal_strlit("output");
    assert("version"@ != "help"@) by {
        assert("version"@.len() != "help"@.len());
    }
    assert("full"@ != "help"@) by {
        assert("full"@[0] != "help"@[0]);
    }
    assert("full"@ != "version"@) by {
        assert("full"@.len() != "version"@.len());
    }
    assert("output"@ != "help"@) by {
        assert("output"@.len() != "help"@.len());
    }
    assert("output"@ != "version"@) by {
        assert("output"@.len() != "version"@.len());
    }
    assert("output"@ != "full"@) by {
        assert("output"@.len() != "full"@.len());
    }
}

/// `--full` turns the full report on and touches nothing else; help and
/// version change nothing.
pub proof fn law_full_sets_only_full(s: ArgState)
    ensures
        arg_step(s, ArgEvent::Short('f')).0 == (ArgState { full: true, ..s }),
        arg_step(s, ArgEvent::Short('h')).0 == s,
        arg_step(s, ArgEvent::Short('V')).0 == s,
{
}

/// The output path and the archive path are each taken once: the first
/// `--output` is read and later ones are refused; the first free value is
/// the archive and later ones are refused; a refusal changes nothing.
pub proof fn law_output_and_archive_taken_once(s: ArgState)
    ensures
        arg_step(s, ArgEvent::Short('o')).1 == ArgAction::ReadOutput <==> !s.has_output,
        arg_step(s, ArgEvent::Short('o')).0.has_output,
        arg_step(arg_step(s, ArgEvent::Short('o')).0, ArgEvent::Short('o')).1 == ArgAction::Fail(
            ArgError::DuplicateOutput,
        ),
        arg_step(s, ArgEvent::Value).1 == ArgAction::SetArchive <==> !s.has_archive,
        arg_step(arg_step(s, ArgEvent::Value).0, ArgEvent::Value).1 == ArgAction::Fail(
            ArgError::ExtraArgument,
        ),
        arg_step(s, ArgEvent::Value).1 is Fail ==> arg_step(s, ArgEvent::Value).0 == s,
        arg_step(s, ArgEvent::Short('o')).1 is Fail ==> arg_step(s, ArgEvent::Short('o')).0 == s,
{
}

impl ArgState {
    /// Nothing set yet.
    pub fn new() -> (r: Self)
        ensures
            !r.has_archive && !r.has_output && !r.full,
    {
        ArgState { has_archive: false, has_output: false, full: false }
    }

    fn on_output(&mut self) -> (r: ArgAction)
        ensures
            (*final(self), r) == output_step(*old(self)),
    {
        if self.has_output {
            ArgAction::Fail(ArgError::DuplicateOutput)
        } else {
            self.has_output = true;
            ArgAction::ReadOutput
        }
    }

    /// Takes one argument.
    pub fn step(&mut self, ev: &ArgEvent) -> (r: ArgAction)
        ensures
            (*final(self), r) == arg_step(*old(self), *ev),
    {
        match ev {
            ArgEvent::Short(c) => {
                if *c == 'h' {
                    ArgAction::ShowHelp
                } else if *c == 'V' {
                    ArgAction::ShowVersion
                } else if *c == 'f' {
                    self.full = true;
                    ArgAction::SetFull
                } else if *c == 'o' {
                    self.on_output()
                } else {
                    ArgAction::Fail(ArgError::Unexpected)
                }
            },
            ArgEvent::Long(name) => {
                if str_is(name.as_str(), "help") {
                    ArgAction::ShowHelp
                } else if str_is(name.as_str(), "version") {
                    ArgAction::ShowVersion
                } else if str_is(name.as_str(), "full") {
                    self.full = true;
                    ArgAction::SetFull
                } else if str_is(name.as_str(), "output") {
                    self.on_output()
                } else {
                    ArgAction::Fail(ArgError::Unexpected)
                }
            },
            ArgEvent::Value => {
                if self.has_archive {
                    ArgAction::Fail(ArgError::ExtraArgument)
                } else {
                    self.has_archive = true;
                    ArgAction::SetArchive
                }
            },
        }
    }

    /// After the last argument: the archive path is required.
    pub fn finish(&self) -> (r: Result<(), ArgError>)
        ensures
            r == (if self.has_archive {
                Ok(())
            } else {
                Err(ArgError::MissingArchive)
            }),
    {
        if self.has_archive {
            Ok(())
        } else {
            Err(ArgError::MissingArchive)
        }
    }
}

/// The archive path must exist and be a directory.
pub fn check_archive(exists: bool, is_dir: bool) -> (r: Result<(), ArgError>)
    ensures
        r == (if !exists {
            Err(ArgError::ArchiveNotFound)
        } else if !is_dir {
            Err(ArgError::ArchiveNotDirectory)
        } else {
            Ok(())
        }),
{
    if !exists {
        Err(ArgError::ArchiveNotFound)
    } else if !is_dir {
        Err(ArgError::ArchiveNotDirectory)
    } else {
        Ok(())
    }
}

/// The output path when none is given.
pub fn default_output() -> (r: String)
    ensures
        r@ == ".\\output.json"@,
{
    String::from_str(".\\output.json")
}

/// The report formats.
#[derive(Debug, Clone, Copy, PartialEq, Eq, Structural)]
pub enum OutputFormat {
    Json,
    Csv,
}

/// Why an output path is refused.
#[derive(Debug)]
pub enum OutputFormatError {
    /// The extension, in lower case, names no report format.
    Unsupported(String),
    /// The path has no extension.
    MissingExtension,
}

/// The format of a lower-case extension, or `None` for an unknown one.
pub open spec fn output_format_for(lower: Seq<char>) -> Option<OutputFormat> {
    if lower == "json"@ {
        Some(OutputFormat::Json)
    } else if lower == "csv"@ {
        Some(OutputFormat::Csv)
    } else {
        None
    }
}

/// The report format of an extension already in lower case.
pub fn output_format_of_lowercase(lower: String) -> (r: Result<OutputFormat, OutputFormatError>)
    ensures
        match output_format_for(lower@) {
            Some(f) => r matches Ok(g) && g == f,
            None => r matches Err(OutputFormatError::Unsupported(e)) && e@ == lower@,
        },
{
    if str_is(lower.as_str(), "json") {
        Ok(OutputFormat::Json)
    } else if str_is(lower.as_str(), "csv") {
        Ok(OutputFormat::Csv)
    } else {
        Err(OutputFormatError::Unsupported(lower))
    }
}

/// The report format that the output path's extension asks for (the
/// extension as text, `None` when there is none), compared in lower case.
pub fn output_format(ext: Option<&str>) -> (r: Result<OutputFormat, OutputFormatError>)
    ensures
        match ext {
            None => r matches Err(OutputFormatError::MissingExtension),
            Some(e) => match output_format_for(lowercase(e@)) {
                Some(f) => r matches Ok(g) && g == f,
                None => r matches Err(OutputFormatError::Unsupported(l)) && l@ == lowercase(e@),
            },
        },
{
    match ext {
        None => Err(OutputFormatError::MissingExtension),
        Some(e) => output_format_of_lowercase(to_lowercase(e)),
    }
}

} // verus!
