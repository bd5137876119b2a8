use crate::batch::path_texts;
use crate::text::same_text;
use vstd::prelude::*;
use vstd::string::StringExecFns;

verus! {

/// The chunk size of a run that names none.
pub const DEFAULT_CHUNK_SIZE: usize = 100;

/// What a command line asks for.
#[derive(Debug, PartialEq, Eq)]
pub struct Config {
    /// The directory whose entries are hashed.
    pub folder: String,
    /// The file that the document is written to.
    pub output: String,
    /// How many of the entries are considered, if not all.
    pub sample: Option<usize>,
    /// How many entries are worked on at a time.
    pub chunk_size: usize,
}

/// A configuration in contracts.
pub struct ConfigModel {
    pub folder: Seq<char>,
    pub output: Seq<char>,
    pub sample: Option<usize>,
    pub chunk_size: usize,
}

impl View for Config {
    type V = ConfigModel;

    open spec fn view(&self) -> ConfigModel {
        ConfigModel {
            folder: self.folder@,
            output: self.output@,
            sample: self.sample,
            chunk_size: self.chunk_size,
        }
    }
}

/// Why a command line is refused.
#[derive(Clone, Copy, Debug, PartialEq, Eq, Structural)]
pub enum ArgError {
    /// `--sample` is the last argument, or what follows it is no number.
    SampleNotNumeric,
    /// `--chunk` is the last argument, or what follows it is no number.
    ChunkNotNumeric,
    /// A third path is given.
    TooManyArguments,
    /// The directory or the output file is not given.
    MissingPaths,
}

/// What the user is told about a refused command line. Only the line on
/// missing paths names the program.
pub open spec fn message_of(fault: ArgError, program: Seq<char>) -> Seq<char> {
    match fault {
        ArgError::SampleNotNumeric => "--sample requires a numeric value"@,
        ArgError::ChunkNotNumeric => "--chunk requires a numeric value"@,
        ArgError::TooManyArguments => "Too many arguments"@,
        ArgError::MissingPaths => "Usage: "@ + program
            + " <folder_path> <output_path> [--sample <number>] [--chunk <number>]"@,
    }
}

/// The message for a refused command line.
pub fn message(fault: ArgError, program: &str) -> (text: String)
    ensures
        text@ == message_of(fault, program@),
{
    match fault {
        ArgError::SampleNotNumeric => "--sample requires a numeric value".to_owned(),
        ArgError::ChunkNotNumeric => "--chunk requires a numeric value".to_owned(),
        ArgError::TooManyArguments => "Too many arguments".to_owned(),
        ArgError::MissingPaths => "Usage: ".to_owned().concat(program).concat(
            " <folder_path> <output_path> [--sample <number>] [--chunk <number>]",
        ),
    }
}

/// Whether a character is a decimal digit.
pub open spec fn is_digit(c: char) -> bool {
    '0' <= c <= '9'
}

/// The number that a text of decimal digits writes.
pub open spec fn digits_value(digits: Seq<char>) -> nat
    decreases digits.len(),
{
    if digits.len() == 0 {
        0
    } else {
        digits_value(digits.drop_last()) * 10 + (digits.last() as nat - '0' as nat) as nat
    }
}

/// The digits of a text that writes a number: the text without a leading
/// plus sign.
pub open spec fn digits_of(text: Seq<char>) -> Seq<char> {
    if text.len() > 0 && text[0] == '+' {
        text.skip(1)
    } else {
        text
    }
}

/// The count that a text writes: one or more decimal digits, with or
/// without a plus sign before them, whose value a `usize` can hold. Any
/// other text writes none.
pub open spec fn count_of(text: Seq<char>) -> Option<usize> {
    let digits = digits_of(text);
    if digits.len() > 0 && (forall|i: int| 0 <= i < digits.len() ==> is_digit(#[trigger] digits[i]))
        && digits_value(digits) <= usize::MAX {
        Some(digits_value(digits) as usize)
    } else {
        None
    }
}

/// The value of the first digits of a number is not above the value of all
/// of them.
proof fn lemma_digits_value_grows(digits: Seq<char>, n: int)
    requires
        0 <= n <= digits.len(),
        forall|i: int| 0 <= i < digits.len() ==> is_digit(#[trigger] digits[i]),
    ensures
        digits_value(digits.take(n)) <= digits_value(digits),
    decreases digits.len() - n,
{
    if n == digits.len() {
        assert(digits.take(n) =~= digits);
    } else {
        lemma_digits_value_grows(digits, n + 1);
        assert(digits.take(n + 1).drop_last() =~= digits.take(n));
        assert(is_digit(digits[n]));
    }
}

/// Reads a count as the command line writes it.
pub fn parse_count(text: &str) -> (count: Option<usize>)
    ensures
        count == count_of(text@),
{
    let ghost digits = digits_of(text@);
    let mut value: usize = 0;
    let mut signed = false;
    let mut any = false;
    assert(digits.take(0) =~= Seq::empty());
    for c in it: text.chars()
        invariant
            it.seq() == text@,
            digits == digits_of(text@),
            signed ==> text@.len() > 0 && text@[0] == '+' && it.index() >= 1,
            !signed && it.index() > 0 ==> text@[0] != '+',
            any == (it.index() > if signed { 1int } else { 0int }),
            forall|i: int|
                0 <= i < it.index() - if signed { 1int } else { 0int } ==> is_digit(
                    #[trigger] digits[i],
                ),
            value == digits_value(digits.take(it.index() - if signed { 1int } else { 0int })),
    {
        let ghost at = it.index() - if signed { 1int } else { 0int };
        if !signed && !any && c == '+' {
            signed = true;
            assert(digits.take(0) =~= Seq::empty());
        } else {
            assert(c == digits[at]);
            if c < '0' || c > '9' {
                assert(!is_digit(digits[at]));
                return None;
            }
            let digit: usize = (c as u32 - '0' as u32) as usize;
            proof {
                assert(digits.take(at + 1).drop_last() =~= digits.take(at));
                assert(digits.take(at + 1).last() == c);
                if forall|i: int| 0 <= i < digits.len() ==> is_digit(#[trigger] digits[i]) {
                    lemma_digits_value_grows(digits, at + 1);
                }
            }
            value = match value.checked_mul(10) {
                Some(tens) => match tens.checked_add(digit) {
                    Some(sum) => sum,
                    None => {
                        return None;
                    },
                },
                None => {
                    return None;
                },
            };
            any = true;
        }
    }
    assert(digits.take(digits.len() as int) =~= digits);
    if any {
        Some(value)
    } else {
        None
    }
}

/// The configuration before any argument is read.
pub open spec fn no_arguments() -> ConfigModel {
    ConfigModel {
        folder: Seq::empty(),
        output: Seq::empty(),
        sample: None,
        chunk_size: DEFAULT_CHUNK_SIZE,
    }
}

/// Reads the arguments from position `at` on into a configuration.
///
/// `--sample` and `--chunk` take the argument behind them, which must write
/// a count. Any other argument is a path: the directory until one is set,
/// then the output file, and a path beyond that is one too many. An empty
/// path sets nothing. The first fault ends the reading.
pub open spec fn scanned(args: Seq<Seq<char>>, at: int, so_far: ConfigModel) -> Result<
    ConfigModel,
    ArgError,
>
    decreases args.len() - at,
{
    if at < 0 || at >= args.len() {
        Ok(so_far)
    } else if args[at] == "--sample"@ {
        if at + 1 < args.len() && count_of(args[at + 1]) is Some {
            scanned(args, at + 2, ConfigModel { sample: count_of(args[at + 1]), ..so_far })
        } else {
            Err(ArgError::SampleNotNumeric)
        }
    } else if args[at] == "--chunk"@ {
        if at + 1 < args.len() && count_of(args[at + 1]) is Some {
            scanned(
                args,
                at + 2,
                ConfigModel { chunk_size: count_of(args[at + 1])->0, ..so_far },
            )
        } else {
            Err(ArgError::ChunkNotNumeric)
        }
    } else if so_far.folder.len() == 0 {
        scanned(args, at + 1, ConfigModel { folder: args[at], ..so_far })
    } else if so_far.output.len() == 0 {
        scanned(args, at + 1, ConfigModel { output: args[at], ..so_far })
    } else {
        Err(ArgError::TooManyArguments)
    }
}

/// What a command line asks for. Its first argument is the program's name
/// and is passed over. Both paths must be given.
pub open spec fn parsed(args: Seq<Seq<char>>) -> Result<ConfigModel, ArgError> {
    match scanned(args, 1, no_arguments()) {
        Ok(config) => if config.folder.len() == 0 || config.output.len() == 0 {
            Err(ArgError::MissingPaths)
        } else {
            Ok(config)
        },
        Err(fault) => Err(fault),
    }
}

/// The outcome of parsing, in contracts.
pub open spec fn parse_model(outcome: Result<Config, ArgError>) -> Result<ConfigModel, ArgError> {
    match outcome {
        Ok(config) => Ok(config@),
        Err(fault) => Err(fault),
    }
}

/// Reads a command line of the form
/// `program <folder> <output> [--sample N] [--chunk N]`.
pub fn parse_args(args: &[String]) -> (outcome: Result<Config, ArgError>)
    ensures
        parse_model(outcome) == parsed(path_texts(args@)),
{
    let ghost all = path_texts(args@);
    let mut config = Config {
        folder: String::new(),
        output: String::new(),
        sample: None,
        chunk_size: DEFAULT_CHUNK_SIZE,
    };
    let mut at: usize = 1;
    while at < args.len()
        invariant
            1 <= at,
            all == path_texts(args@),
            scanned(all, at as int, config@) == scanned(all, 1, no_arguments()),
        decreases args.len() - at,
    {
        let arg = args[at].as_str();
        assert(arg@ == all[at as int]);
        if same_text(arg, "--sample") {
            if at + 1 >= args.len() {
                return Err(ArgError::SampleNotNumeric);
            }
            assert(args[at + 1]@ == all[at + 1]);
            match parse_count(args[at + 1].as_str()) {
                Some(n) => {
                    config.sample = Some(n);
                },
                None => {
                    return Err(ArgError::SampleNotNumeric);
                },
            }
            at = at + 2;
        } else if same_text(arg, "--chunk") {
            if at + 1 >= args.len() {
                return Err(ArgError::ChunkNotNumeric);
            }
            assert(args[at + 1]@ == all[at + 1]);
            match parse_count(args[at + 1].as_str()) {
                Some(n) => {
                    config.chunk_size = n;
                },
                None => {
                    return Err(ArgError::ChunkNotNumeric);
                },
            }
            at = at + 2;
        } else if config.folder.as_str().is_empty() {
            config.folder = arg.to_owned();
            at = at + 1;
        } else if config.output.as_str().is_empty() {
            config.output = arg.to_owned();
            at = at + 1;
        } else {
            return Err(ArgError::TooManyArguments);
        }
    }
    if config.folder.as_str().is_empty() || config.output.as_str().is_empty() {
        Err(ArgError::MissingPaths)
    } else {
        Ok(config)
    }
}

} // verus!
