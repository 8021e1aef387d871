//! The decisions of the command line: which files are meant, and whether
//! the run can start.

use vstd::prelude::*;
use vstd::string::*;

verus! {

/// The command line did not name one input file and at most one output
/// file.
#[derive(Debug)]
pub struct UsageError {
    /// The name under which the program was called.
    pub program: String,
}

/// The file names that a command line stands for, or the program's name
/// where the command line is not in order.
///
/// The first argument is the program's name. One more argument names the
/// input file, and the report goes to `formatted_work_history.txt`; two
/// more name the input file and the output file.
pub open spec fn parse_args_spec(args: Seq<Seq<char>>) -> Result<(Seq<char>, Seq<char>), Seq<char>> {
    if args.len() == 2 {
        Ok((args[1], "formatted_work_history.txt"@))
    } else if args.len() == 3 {
        Ok((args[1], args[2]))
    } else if args.len() > 0 {
        Err(args[0])
    } else {
        Err("program"@)
    }
}

/// The usage message for a program of the given name.
pub open spec fn usage_text(program: Seq<char>) -> Seq<char> {
    "Usage: "@ + program + " <input_csv_file> [output_txt_file]\nExample: "@ + program
        + " work_history.csv my_output.txt\nIf output file is not specified, 'formatted_work_history.txt' will be created in the current directory"@
}

impl UsageError {
    /// The message that tells how the program is called.
    pub fn message(&self) -> (text: String)
        ensures
            text@ == usage_text(self.program@),
    {
        let mut text: String = String::from_str("Usage: ");
        text.append(self.program.as_str());
        text.append(" <input_csv_file> [output_txt_file]\nExample: ");
        text.append(self.program.as_str());
        text.append(
            " work_history.csv my_output.txt\nIf output file is not specified, 'formatted_work_history.txt' will be created in the current directory",
        );
        text
    }
}

/// Reads the input path and the output path off the command line, the
/// program's name included as its first argument.
pub fn parse_args(args: &Vec<String>) -> (paths: Result<(String, String), UsageError>)
    ensures
        match paths {
            Ok((input, output)) => parse_args_spec(args.deep_view()) == Ok::<
                (Seq<char>, Seq<char>),
                Seq<char>,
            >((input@, output@)),
            Err(error) => parse_args_spec(args.deep_view()) == Err::<
                (Seq<char>, Seq<char>),
                Seq<char>,
            >(error.program@),
        },
{
    if args.len() < 2 || args.len() > 3 {
        let program: String = if args.len() > 0 {
            args[0].clone()
        } else {
            String::from_str("program")
        };
        return Err(UsageError { program });
    }
    let input: String = args[1].clone();
    let output: String = if args.len() == 3 {
        args[2].clone()
    } else {
        String::from_str("formatted_work_history.txt")
    };
    Ok((input, output))
}

/// A path that the run needs and that is not there.
#[derive(Debug)]
pub enum PathNotFoundError {
    /// The input file does not exist.
    InputFile { path: String },
    /// The directory that the output file is to stand in does not exist.
    OutputDirectory { path: String },
}

/// The message for a missing input file.
pub open spec fn input_not_found_text(path: Seq<char>) -> Seq<char> {
    "Input file not found: "@ + path
}

/// The message for a missing output directory.
pub open spec fn output_directory_not_found_text(path: Seq<char>) -> Seq<char> {
    "Output directory not found: "@ + path
}

impl PathNotFoundError {
    /// The message that names the missing path.
    pub fn message(&self) -> (text: String)
        ensures
            match self {
                PathNotFoundError::InputFile { path } => text@ == input_not_found_text(path@),
                PathNotFoundError::OutputDirectory { path } => text@
                    == output_directory_not_found_text(path@),
            },
    {
        match self {
            PathNotFoundError::InputFile { path } => {
                let mut text: String = String::from_str("Input file not found: ");
                text.append(path.as_str());
                text
            },
            PathNotFoundError::OutputDirectory { path } => {
                let mut text: String = String::from_str("Output directory not found: ");
                text.append(path.as_str());
                text
            },
        }
    }
}

/// Decides whether the run can start, from what is known of the two paths:
/// the input path and whether a file exists there, the directory part of
/// the output path, if it has one, and whether that directory exists.
///
/// The input file must exist. A directory part that is not empty must exist
/// too. A missing input file is reported before a missing directory.
pub fn validate_paths(
    input_path: &str,
    input_exists: bool,
    output_parent: Option<&str>,
    output_parent_exists: bool,
) -> (checked: Result<(), PathNotFoundError>)
    ensures
        match checked {
            Ok(_) => input_exists && (output_parent matches Some(parent) ==> parent@.len() == 0
                || output_parent_exists),
            Err(PathNotFoundError::InputFile { path }) => !input_exists && path@ == input_path@,
            Err(PathNotFoundError::OutputDirectory { path }) => input_exists
                && !output_parent_exists && (output_parent matches Some(parent) && parent@.len() > 0
                && path@ == parent@),
        },
{
    if !input_exists {
        return Err(PathNotFoundError::InputFile { path: String::from_str(input_path) });
    }
    if let Some(parent) = output_parent {
        if !parent.is_empty() && !output_parent_exists {
            return Err(PathNotFoundError::OutputDirectory { path: String::from_str(parent) });
        }
    }
    Ok(())
}

} // verus!
