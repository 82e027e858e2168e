//! The options of the command line.

use vstd::prelude::*;
use vstd::string::StrSliceExecFns;
use vstd::string::StringExecFns;

verus! {

/// What the command line asks of a run: the file to parse, and whether the
/// parsed tree is to be printed.
#[derive(Debug, PartialEq, Eq)]
pub struct Options {
    pub debug_parser: bool,
    pub input: String,
}

/// The options gathered so far while the arguments are read.
#[derive(Debug, PartialEq, Eq)]
pub struct OptionsBuilder {
    pub debug_parser: bool,
    pub input: Option<String>,
}

/// Why a command line yields no `Options`.
#[derive(Debug, PartialEq, Eq)]
pub enum Halt {
    /// A version flag was given: the caller prints name and version and
    /// exits successfully.
    Version,
    /// A flag that is not known was given: the caller reports it and exits
    /// with a failure.
    Unrecognized(String),
    /// No argument named an input file.
    NoInput,
}

impl Clone for Options {
    fn clone(&self) -> (copy: Options)
        ensures
            copy == *self,
    {
        Options { debug_parser: self.debug_parser, input: self.input.clone() }
    }
}

impl Clone for OptionsBuilder {
    fn clone(&self) -> (copy: OptionsBuilder)
        ensures
            copy == *self,
    {
        OptionsBuilder {
            debug_parser: self.debug_parser,
            input: match &self.input {
                Some(input) => Some(input.clone()),
                None => None,
            },
        }
    }
}

impl Clone for Halt {
    fn clone(&self) -> (copy: Halt)
        ensures
            copy == *self,
    {
        match self {
            Halt::Version => Halt::Version,
            Halt::Unrecognized(flag) => Halt::Unrecognized(flag.clone()),
            Halt::NoInput => Halt::NoInput,
        }
    }
}

/// An argument is read as a flag when it starts with `-` and has at least
/// one more character; anything else names the input file.
pub open spec fn is_flag(arg: Seq<char>) -> bool {
    arg.len() >= 2 && arg[0] == '-'
}

pub open spec fn is_debug_flag(arg: Seq<char>) -> bool {
    arg == "-p"@ || arg == "-debug-parser"@ || arg == "--debug-parser"@
}

pub open spec fn is_version_flag(arg: Seq<char>) -> bool {
    arg == "-v"@ || arg == "-V"@ || arg == "--version"@
}

/// A flag that ends the reading of the arguments: every flag but the
/// debug flags.
pub open spec fn is_halting(arg: Seq<char>) -> bool {
    is_flag(arg) && !is_debug_flag(arg)
}

/// `k` is the position of the first halting flag of `args`.
pub open spec fn halts_at(args: Seq<Seq<char>>, k: int) -> bool {
    &&& 0 <= k < args.len()
    &&& is_halting(args[k])
    &&& forall|j: int| 0 <= j < k ==> !is_halting(#[trigger] args[j])
}

/// `i` is the position of the last argument of `args` that is no flag.
pub open spec fn input_at(args: Seq<Seq<char>>, i: int) -> bool {
    &&& 0 <= i < args.len()
    &&& !is_flag(args[i])
    &&& forall|j: int| i < j < args.len() ==> is_flag(#[trigger] args[j])
}

/// The arguments as sequences of characters.
pub open spec fn texts(args: Seq<String>) -> Seq<Seq<char>> {
    Seq::new(args.len(), |i: int| args[i]@)
}

/// Every debug flag is read as a flag.
pub proof fn lemma_debug_flag_is_flag(arg: Seq<char>)
    requires
        is_debug_flag(arg),
    ensures
        is_flag(arg),
{
    reveal_strlit("-p");
    reveal_strlit("-debug-parser");
    reveal_strlit("--debug-parser");
}

fn flag(arg: &String) -> (b: bool)
    ensures
        b == is_flag(arg@),
{
    let text = arg.as_str();
    text.unicode_len() >= 2 && text.get_char(0) == '-'
}

fn debug_flag(arg: &String) -> (b: bool)
    ensures
        b == is_debug_flag(arg@),
{
    *arg == String::from_str("-p") || *arg == String::from_str("-debug-parser") || *arg
        == String::from_str("--debug-parser")
}

fn version_flag(arg: &String) -> (b: bool)
    ensures
        b == is_version_flag(arg@),
{
    *arg == String::from_str("-v") || *arg == String::from_str("-V") || *arg == String::from_str(
        "--version",
    )
}

impl OptionsBuilder {
    pub fn new() -> (builder: OptionsBuilder)
        ensures
            !builder.debug_parser,
            builder.input is None,
    {
        OptionsBuilder { debug_parser: false, input: None }
    }
}

impl Options {
    /// The finished options of a builder that has its input.
    pub fn from(builder: OptionsBuilder) -> (options: Options)
        requires
            builder.input is Some,
        ensures
            options.debug_parser == builder.debug_parser,
            options.input == builder.input->0,
    {
        Options { debug_parser: builder.debug_parser, input: builder.input.unwrap() }
    }

    /// Reads the arguments of a command line, the program's own name left
    /// out, from first to last.
    ///
    /// The first flag that is no debug flag ends the reading: a version
    /// flag with `Halt::Version`, any other with `Halt::Unrecognized` and
    /// the flag itself. Where there is none, the result has the last
    /// argument that is no flag as its input, and `debug_parser` set if any
    /// debug flag was given; without an input it is `Halt::NoInput`.
    pub fn from_iter(args: &Vec<String>) -> (r: Result<Options, Halt>)
        ensures
            match r {
                Ok(options) => {
                    &&& forall|k: int| !halts_at(texts(args@), k)
                    &&& exists|i: int| input_at(texts(args@), i) && options.input@ == args[i]@
                    &&& options.debug_parser <==> exists|i: int|
                        0 <= i < args.len() && is_debug_flag(#[trigger] args[i]@)
                },
                Err(Halt::Version) => exists|k: int|
                    halts_at(texts(args@), k) && is_version_flag(args[k]@),
                Err(Halt::Unrecognized(flag)) => exists|k: int|
                    halts_at(texts(args@), k) && !is_version_flag(args[k]@) && flag@ == args[k]@,
                Err(Halt::NoInput) => {
                    &&& forall|k: int| !halts_at(texts(args@), k)
                    &&& forall|i: int| !input_at(texts(args@), i)
                },
            },
    {
        let mut options = OptionsBuilder::new();
        let ghost mut last: int = -1;
        let mut n: usize = 0;
        while n < args.len()
            invariant
                n <= args.len(),
                forall|j: int| 0 <= j < n ==> !is_halting(#[trigger] texts(args@)[j]),
                options.debug_parser <==> exists|i: int|
                    0 <= i < n && is_debug_flag(#[trigger] args[i]@),
                -1 <= last < n,
                options.input is Some <==> last >= 0,
                last >= 0 ==> !is_flag(args[last]@) && options.input->0@ == args[last]@,
                forall|j: int| last < j < n ==> is_flag(#[trigger] texts(args@)[j]),
            decreases args.len() - n,
        {
            let arg = &args[n];
            assert(texts(args@)[n as int] == arg@);
            proof {
                if is_debug_flag(arg@) {
                    lemma_debug_flag_is_flag(arg@);
                }
            }
            if flag(arg) {
                if debug_flag(arg) {
                    options.debug_parser = true;
                    assert(is_debug_flag(args[n as int]@));
                } else if version_flag(arg) {
                    assert(halts_at(texts(args@), n as int));
                    return Err(Halt::Version);
                } else {
                    assert(halts_at(texts(args@), n as int));
                    return Err(Halt::Unrecognized(arg.clone()));
                }
            } else {
                options.input = Some(arg.clone());
                proof {
                    last = n as int;
                }
            }
            n += 1;
        }
        if options.input.is_some() {
            assert(input_at(texts(args@), last));
            Ok(Options::from(options))
        } else {
            assert forall|i: int| !input_at(texts(args@), i) by {
                if 0 <= i < args.len() {
                    assert(is_flag(texts(args@)[i]));
                }
            }
            Err(Halt::NoInput)
        }
    }
}

} // verus!
