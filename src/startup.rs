//! Command-line arguments and the failures that end the program before the
//! window opens.
use vstd::prelude::*;

verus! {

/// A failure before the window opens; each maps to a process exit code.
#[derive(Clone, Copy, Debug, PartialEq, Eq, Structural)]
pub enum StartupError {
    /// Fewer than two arguments were given.
    MissingArguments,
    /// The group count is not a positive integer.
    InvalidGroupCount,
    /// The audio file could not be opened or decoded.
    UnreadableAudio,
    /// The audio file holds no samples.
    NoSamples,
    /// The samples are deeper than the reference bit depth, or of depth zero.
    UnsupportedBitDepth,
    /// A sample lies outside the range of its stated bit depth.
    SampleOutOfRange,
}

pub open spec fn exit_code_of(e: StartupError) -> i32 {
    match e {
        StartupError::MissingArguments => 1,
        StartupError::InvalidGroupCount => 2,
        _ => 3,
    }
}

impl StartupError {
    /// Process exit code: 1 for missing arguments, 2 for a bad group count,
    /// 3 for anything wrong with the audio file.
    pub fn exit_code(&self) -> (r: i32)
        ensures
            r == exit_code_of(*self),
    {
        match self {
            StartupError::MissingArguments => 1,
            StartupError::InvalidGroupCount => 2,
            _ => 3,
        }
    }
}

pub open spec fn is_ascii_digit(c: char) -> bool {
    '0' <= c <= '9'
}

/// Value of a string of decimal digits.
pub open spec fn digits_value(s: Seq<char>) -> nat
    decreases s.len(),
{
    if s.len() == 0 {
        0
    } else {
        digits_value(s.drop_last()) * 10 + (s.last() as u32 - '0' as u32) as nat
    }
}

/// `s` without one leading `+`, if it has one.
pub open spec fn unsigned_digits(s: Seq<char>) -> Seq<char> {
    if s.len() > 0 && s[0] == '+' {
        s.drop_first()
    } else {
        s
    }
}

/// The `usize` that `s` spells in decimal: an optional `+`, then one or more
/// ASCII digits, with a value that fits.
pub open spec fn decimal_usize(s: Seq<char>) -> Option<usize> {
    let d = unsigned_digits(s);
    if d.len() > 0 && (forall|i: int| 0 <= i < d.len() ==> #[trigger] is_ascii_digit(d[i]))
        && digits_value(d) <= usize::MAX {
        Some(digits_value(d) as usize)
    } else {
        None
    }
}

/// Relies on `usize::from_str`, documented to accept an optional `+` followed
/// by ASCII digits only, and to fail on anything else, on an empty string and
/// on a value that does not fit.
#[verifier::external_body]
fn parse_usize(s: &str) -> (r: Option<usize>)
    ensures
        r == decimal_usize(s@),
{
    s.parse::<usize>().ok()
}

/// The group count that `arg` gives, if it is a positive integer.
pub open spec fn group_count_of(arg: Seq<char>) -> Result<usize, StartupError> {
    match decimal_usize(arg) {
        Some(v) => if v > 0 {
            Ok(v)
        } else {
            Err(StartupError::InvalidGroupCount)
        },
        None => Err(StartupError::InvalidGroupCount),
    }
}

/// Reads the group count argument: a positive decimal integer.
pub fn parse_group_count(arg: &str) -> (r: Result<usize, StartupError>)
    ensures
        r == group_count_of(arg@),
{
    match parse_usize(arg) {
        Some(v) => if v > 0 {
            Ok(v)
        } else {
            Err(StartupError::InvalidGroupCount)
        },
        None => Err(StartupError::InvalidGroupCount),
    }
}

/// Reads `program <filename> <group_count>` and returns the group count; the
/// file name is `args[1]`.
pub fn parse_args(args: &Vec<String>) -> (r: Result<usize, StartupError>)
    ensures
        args@.len() < 3 ==> r == Err::<usize, StartupError>(StartupError::MissingArguments),
        args@.len() >= 3 ==> r == group_count_of(args@[2]@),
{
    if args.len() < 3 {
        Err(StartupError::MissingArguments)
    } else {
        parse_group_count(args[2].as_str())
    }
}

} // verus!
