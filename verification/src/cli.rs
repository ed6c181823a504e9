//! The command line of the benchmarking tool, and the command line that the
//! tool hands to the program it measures.

use shellwords::MismatchedQuotes;
use vstd::prelude::*;

verus! {

#[verifier::external_type_specification]
#[verifier::external_body]
pub struct ExMismatchedQuotes(MismatchedQuotes);

/// What the user asked the benchmarking tool to do.
pub struct Args {
    /// Path to the program to benchmark.
    pub path: String,
    /// Arguments passed down to the program.
    pub args: String,
    /// Verbose output.
    pub verbose: bool,
    /// Shared library mode, with the C ABI.
    pub c: bool,
    /// Shared library mode, use the Rust ABI instead of C.
    pub rust: bool,
    /// Print results as JSON.
    pub json: bool,
}

/// How the program to benchmark is run.
#[derive(Debug, Clone, Copy, PartialEq, Eq, Structural)]
pub enum Target {
    /// An executable, run as a child process.
    Executable,
    /// A shared library with the C interface.
    SharedC,
    /// A shared library with the Rust interface.
    SharedRust,
}

/// Why a command line cannot be served.
#[derive(Debug, Clone, Copy, PartialEq, Eq, Structural)]
pub enum CliError {
    /// Both interfaces were asked for; only one can be selected.
    BothInterfaces,
    /// A quoted string in the arguments of the program is not closed.
    MismatchedQuotes,
}

/// The name under which the measured program sees itself.
pub open spec fn program_name() -> Seq<char> {
    "bench_target"@
}

/// The words that a Bourne shell would split `input` into, or `None` if a
/// quoted string in it is not closed.
pub uninterp spec fn shell_words(input: Seq<char>) -> Option<Seq<Seq<char>>>;

/// `shellwords::split`: splits `input` into words as a Bourne shell does,
/// and fails if a quoted string in it is not closed.
#[verifier::external_body]
fn split_words(input: &str) -> (words: Result<Vec<String>, MismatchedQuotes>)
    ensures
        match words {
            Ok(words) => shell_words(input@) == Some(words.deep_view()),
            Err(_) => shell_words(input@) is None,
        },
{
    shellwords::split(input)
}

impl Args {
    /// How to run the program, given the two interface flags.
    pub open spec fn spec_target(c: bool, rust: bool) -> Result<Target, CliError> {
        if c && rust {
            Err(CliError::BothInterfaces)
        } else if c {
            Ok(Target::SharedC)
        } else if rust {
            Ok(Target::SharedRust)
        } else {
            Ok(Target::Executable)
        }
    }

    /// How to run the program: as an executable unless one of the shared
    /// library interfaces was asked for. Asking for both is an error.
    pub fn target(&self) -> (target: Result<Target, CliError>)
        ensures
            target == Self::spec_target(self.c, self.rust),
    {
        match (self.c, self.rust) {
            (false, false) => Ok(Target::Executable),
            (true, false) => Ok(Target::SharedC),
            (false, true) => Ok(Target::SharedRust),
            (true, true) => Err(CliError::BothInterfaces),
        }
    }
}

/// The arguments handed to a program with the Rust interface.
pub struct RustArgs {
    args: Vec<String>,
}

impl View for RustArgs {
    type V = Seq<Seq<char>>;

    closed spec fn view(&self) -> Seq<Seq<char>> {
        self.args.deep_view()
    }
}

impl RustArgs {
    /// The arguments that a program is handed for the given words: its own
    /// name, then the words.
    pub open spec fn spec_from_words(words: Seq<Seq<char>>) -> Seq<Seq<char>> {
        seq![program_name()] + words
    }

    /// The arguments that a program is handed for the given words: its own
    /// name, then the words.
    pub fn from_words(words: Vec<String>) -> (argv: Self)
        ensures
            argv@ == Self::spec_from_words(words.deep_view()),
    {
        let mut args: Vec<String> = Vec::new();
        args.push("bench_target".to_owned());
        let mut i: usize = 0;
        while i < words.len()
            invariant
                i <= words.len(),
                args.len() == i + 1,
                args[0]@ == program_name(),
                forall|k: int| 0 <= k < i ==> (#[trigger] args[k + 1])@ == words[k]@,
            decreases words.len() - i,
        {
            args.push(words[i].clone());
            i += 1;
        }
        assert(args.deep_view() =~= Self::spec_from_words(words.deep_view())) by {
            let built = args.deep_view();
            let wanted = Self::spec_from_words(words.deep_view());
            assert(built.len() == wanted.len());
            assert forall|k: int| 0 <= k < built.len() implies built[k] == wanted[k] by {
                assert(built[k] == args[k]@);
                if k > 0 {
                    assert(args[(k - 1) + 1]@ == words[k - 1]@);
                    assert(words.deep_view()[k - 1] == words[k - 1]@);
                }
            }
        }
        RustArgs { args }
    }

    /// Convert a string to the list of arguments of the program: the string is
    /// split as a shell would, and the name of the program comes first.
    pub fn new(args: &str) -> (argv: Result<Self, CliError>)
        ensures
            match argv {
                Ok(argv) => shell_words(args@) matches Some(words) && argv@
                    == Self::spec_from_words(words),
                Err(error) => error == CliError::MismatchedQuotes && shell_words(args@) is None,
            },
    {
        match split_words(args) {
            Ok(words) => Ok(Self::from_words(words)),
            Err(_) => Err(CliError::MismatchedQuotes),
        }
    }

    /// The arguments, the name of the program first.
    pub fn args(&self) -> (args: &Vec<String>)
        ensures
            args.deep_view() == self@,
    {
        &self.args
    }

    /// The number of arguments, the name of the program included.
    pub fn argc(&self) -> (count: usize)
        ensures
            count == self@.len(),
    {
        self.args.len()
    }
}

} // verus!
