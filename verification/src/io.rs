//! The color-source iterator: a pull-based sequence of colors read either
//! from a fixed list of argument strings or from standard input, one line at
//! a time. The actual I/O and the textual color parser live outside the
//! library; this module holds the decisions: which source to use, when a
//! token stands for a stdin read, how lines are trimmed, and which outcomes
//! end the sequence or surface as errors.

use vstd::prelude::*;
use crate::color::Color;

verus! {

/// The error kinds of the color-source component.
#[derive(Debug)]
pub enum ColorError {
    /// Stdin mode was selected but standard input is an interactive terminal.
    ColorArgRequired,
    /// A string did not parse as a color; carries the offending text.
    ColorParseError(String),
    /// Standard input yielded no bytes when a color was asked of it.
    CouldNotReadFromStdin,
    /// Standard input could not be read as text.
    ColorInvalidUTF8,
    /// A command-line argument did not parse as a number; carries the text.
    CouldNotParseNumber(String),
}

/// One observed outcome of reading a line from standard input.
pub enum StdinRead {
    /// The read itself failed.
    Failure,
    /// The read returned zero bytes: the input is exhausted.
    Eof,
    /// A line, as its characters, including any trailing newline.
    Line(Vec<char>),
}

/// What the iterator needs from its surroundings to produce the next item.
pub enum ColorRequest {
    /// The sequence is over.
    Done,
    /// Parse this argument string as a color.
    ParseArg(String),
    /// Read one line from standard input.
    ReadStdin,
}

/// An iterator over colors given as positional arguments or on stdin.
pub enum ColorArgIterator {
    FromPositionalArguments(Vec<String>, usize),
    FromStdin,
}

/// A character with the Unicode white-space property: what surrounding
/// trimming removes.
pub open spec fn is_space_char(c: char) -> bool {
    ||| c == ' '
    ||| c == '\t'
    ||| c == '\n'
    ||| c == '\r'
    ||| c == '\u{0B}'
    ||| c == '\u{0C}'
    ||| c == '\u{85}'
    ||| c == '\u{A0}'
    ||| c == '\u{1680}'
    ||| c == '\u{2000}'
    ||| c == '\u{2001}'
    ||| c == '\u{2002}'
    ||| c == '\u{2003}'
    ||| c == '\u{2004}'
    ||| c == '\u{2005}'
    ||| c == '\u{2006}'
    ||| c == '\u{2007}'
    ||| c == '\u{2008}'
    ||| c == '\u{2009}'
    ||| c == '\u{200A}'
    ||| c == '\u{2028}'
    ||| c == '\u{2029}'
    ||| c == '\u{202F}'
    ||| c == '\u{205F}'
    ||| c == '\u{3000}'
}

/// The index of the first non-space character at or after `i`.
pub open spec fn trim_from(s: Seq<char>, i: int) -> int
    decreases s.len() - i,
{
    if i < 0 || i >= s.len() {
        i
    } else if is_space_char(s[i]) {
        trim_from(s, i + 1)
    } else {
        i
    }
}

/// The index one past the last non-space character at or before `j - 1`.
pub open spec fn trim_to(s: Seq<char>, j: int) -> int
    decreases j,
{
    if j <= 0 || j > s.len() {
        0
    } else if is_space_char(s[j - 1]) {
        trim_to(s, j - 1)
    } else {
        j
    }
}

/// The sequence with surrounding white space removed.
pub open spec fn trimmed(s: Seq<char>) -> Seq<char> {
    let i = trim_from(s, 0);
    if i == s.len() {
        Seq::empty()
    } else {
        s.subrange(i, trim_to(s, s.len() as int))
    }
}

/// Decide whether a character is white space.
fn is_space(c: char) -> (r: bool)
    ensures
        r == is_space_char(c),
{
    match c {
        ' ' | '\t' | '\n' | '\r' | '\u{0B}' | '\u{0C}' | '\u{85}' | '\u{A0}' | '\u{1680}'
            | '\u{2000}' | '\u{2001}' | '\u{2002}' | '\u{2003}' | '\u{2004}' | '\u{2005}'
            | '\u{2006}' | '\u{2007}' | '\u{2008}' | '\u{2009}' | '\u{200A}' | '\u{2028}'
            | '\u{2029}' | '\u{202F}' | '\u{205F}' | '\u{3000}' => true,
        _ => false,
    }
}

/// Remove surrounding white space from a line of characters.
pub fn trim_line(line: &Vec<char>) -> (res: Vec<char>)
    ensures
        res@ == trimmed(line@),
{
    let n = line.len();
    let mut start: usize = 0;
    while start < n && is_space(line[start])
        invariant
            0 <= start <= n,
            n == line@.len(),
            trim_from(line@, 0) == trim_from(line@, start as int),
        decreases n - start,
    {
        start = start + 1;
    }
    assert(trim_from(line@, 0) == start);
    if start == n {
        let res: Vec<char> = Vec::new();
        assert(res@ =~= trimmed(line@));
        return res;
    }
    let mut end: usize = n;
    assert(!is_space_char(line@[start as int]));
    while end > start && is_space(line[end - 1])
        invariant
            start < end <= n,
            n == line@.len(),
            !is_space_char(line@[start as int]),
            trim_to(line@, n as int) == trim_to(line@, end as int),
        decreases end,
    {
        end = end - 1;
    }
    assert(!is_space_char(line@[start as int]));
    assert(trim_to(line@, n as int) == end);
    let mut res: Vec<char> = Vec::new();
    let mut i: usize = start;
    while i < end
        invariant
            start <= i <= end <= n,
            n == line@.len(),
            res@ == line@.subrange(start as int, i as int),
        decreases end - i,
    {
        res.push(line[i]);
        assert(res@ =~= line@.subrange(start as int, i as int + 1));
        i = i + 1;
    }
    assert(res@ =~= trimmed(line@));
    res
}

impl ColorArgIterator {
    /// Choose the source of colors: the positional arguments when there are
    /// any; otherwise standard input, unless it is an interactive terminal,
    /// which is an error.
    pub fn from_args(args: Option<Vec<String>>, stdin_is_tty: bool) -> (r: Result<
        ColorArgIterator,
        ColorError,
    >)
        ensures
            (args matches Some(v) ==> r == Ok::<ColorArgIterator, ColorError>(
                ColorArgIterator::FromPositionalArguments(v, 0),
            )),
            (args is None && stdin_is_tty ==> r == Err::<ColorArgIterator, ColorError>(
                ColorError::ColorArgRequired,
            )),
            (args is None && !stdin_is_tty ==> r == Ok::<ColorArgIterator, ColorError>(
                ColorArgIterator::FromStdin,
            )),
    {
        match args {
            Some(positionals) => Ok(ColorArgIterator::FromPositionalArguments(positionals, 0)),
            None => {
                if stdin_is_tty {
                    return Err(ColorError::ColorArgRequired);
                }
                Ok(ColorArgIterator::FromStdin)
            },
        }
    }

    /// What is needed to produce the next color: nothing (the sequence is
    /// over), a parse of the next argument, or a line from standard input.
    /// The literal argument `-` stands for one stdin read.
    pub fn next_request(&mut self) -> (req: ColorRequest)
        ensures
            (*old(self) is FromStdin ==> req == ColorRequest::ReadStdin && *final(self) == *old(
                self,
            )),
            ({
                let args = old(self)->FromPositionalArguments_0;
                let idx = old(self)->FromPositionalArguments_1;
                *old(self) is FromPositionalArguments && idx >= args.len() ==> req
                    == ColorRequest::Done && *final(self) == *old(self)
            }),
            ({
                let args = old(self)->FromPositionalArguments_0;
                let idx = old(self)->FromPositionalArguments_1;
                *old(self) is FromPositionalArguments && idx < args.len() && args[idx as int]@
                    == seq!['-'] ==> req == ColorRequest::ReadStdin && *final(self)
                    == ColorArgIterator::FromPositionalArguments(args, (idx + 1) as usize)
            }),
            ({
                let args = old(self)->FromPositionalArguments_0;
                let idx = old(self)->FromPositionalArguments_1;
                *old(self) is FromPositionalArguments && idx < args.len() && args[idx as int]@
                    != seq!['-'] ==> req == ColorRequest::ParseArg(args[idx as int])
                    && *final(self) == ColorArgIterator::FromPositionalArguments(
                    args,
                    (idx + 1) as usize,
                )
            }),
    {
        let mut cur = ColorArgIterator::FromStdin;
        core::mem::swap(&mut cur, self);
        match cur {
            ColorArgIterator::FromStdin => ColorRequest::ReadStdin,
            ColorArgIterator::FromPositionalArguments(args, idx) => {
                if idx >= args.len() {
                    let req = ColorRequest::Done;
                    *self = ColorArgIterator::FromPositionalArguments(args, idx);
                    req
                } else {
                    let dash: String = String::from_str("-");
                    proof {
                        reveal_strlit("-");
                        assert("-"@ =~= seq!['-']);
                    }
                    let is_dash = args[idx].eq(&dash);
                    let current: String = args[idx].clone();
                    *self = ColorArgIterator::FromPositionalArguments(args, idx + 1);
                    if is_dash {
                        ColorRequest::ReadStdin
                    } else {
                        ColorRequest::ParseArg(current)
                    }
                }
            },
        }
    }

    /// Turn a stdin read outcome into a trimmed line or the error that the
    /// read stands for: a failed read is invalid input, a read of zero
    /// bytes means no color could be read.
    pub fn line_from_stdin(read: StdinRead) -> (r: Result<Vec<char>, ColorError>)
        ensures
            (read is Failure ==> r == Err::<Vec<char>, ColorError>(ColorError::ColorInvalidUTF8)),
            (read is Eof ==> r == Err::<Vec<char>, ColorError>(ColorError::CouldNotReadFromStdin)),
            (read matches StdinRead::Line(cs) ==> r matches Ok(t) && t@ == trimmed(cs@)),
    {
        match read {
            StdinRead::Failure => Err(ColorError::ColorInvalidUTF8),
            StdinRead::Eof => Err(ColorError::CouldNotReadFromStdin),
            StdinRead::Line(cs) => Ok(trim_line(&cs)),
        }
    }

    /// Turn the external parser's verdict on a piece of text into the
    /// iterator's item: the parsed color, or a parse error carrying the text.
    pub fn color_from_parse(text: String, parsed: Option<Color>) -> (r: Result<Color, ColorError>)
        ensures
            (parsed matches Some(c) ==> r == Ok::<Color, ColorError>(c)),
            (parsed is None ==> r == Err::<Color, ColorError>(ColorError::ColorParseError(text))),
    {
        match parsed {
            Some(c) => Ok(c),
            None => Err(ColorError::ColorParseError(text)),
        }
    }

    /// In pure stdin mode a failure to read any bytes ends the sequence
    /// silently; every other outcome is yielded to the consumer.
    pub fn absorb_stdin_end(res: Result<Color, ColorError>) -> (o: Option<
        Result<Color, ColorError>,
    >)
        ensures
            (res is Err && res->Err_0 is CouldNotReadFromStdin ==> o is None),
            (!(res is Err && res->Err_0 is CouldNotReadFromStdin) ==> o == Some(res)),
    {
        match res {
            Err(ColorError::CouldNotReadFromStdin) => None,
            other => Some(other),
        }
    }
}

} // verus!
