//! The error taxonomy of the parser.
//!
//! Every error is line-scoped and aborts the whole parse; a failed lookup is
//! not an error (it is an ordinary `None`).  `ErrorModel` is the mathematical
//! face of `IniParsingError`, with line numbers as `nat` and names as
//! sequences of characters, and is what the parsing specification speaks of.

use vstd::prelude::*;
use vstd::string::StrSliceExecFns;
use vstd::string::StringExecFns;

verus! {

/// An error generated by the ini parser.
///
/// Line numbers are 1-based: the first line of the input is line 1.
#[derive(Clone, Debug, PartialEq, Eq)]
pub enum IniParsingError {
    /// A key/value line with no `=` to separate the key and the value.
    MissingEquals { line_number: usize },
    /// A key/value line before any section header.
    ExpectedSectionTitle { line_number: usize },
    /// A section header whose `[` has no closing `]` on the same line.
    BrokenSectionTitle { line_number: usize },
    /// A section header reusing a name the document already holds.
    DuplicateSection { line_number: usize, section: String },
    /// A key/value line reusing a key its section already holds.
    DuplicateSectionKey { line_number: usize, section: String, key: String },
}

/// The mathematical shape of an `IniParsingError`.
pub enum ErrorModel {
    MissingEquals { line: nat },
    ExpectedSectionTitle { line: nat },
    BrokenSectionTitle { line: nat },
    DuplicateSection { line: nat, section: Seq<char> },
    DuplicateSectionKey { line: nat, section: Seq<char>, key: Seq<char> },
}

impl View for IniParsingError {
    type V = ErrorModel;

    open spec fn view(&self) -> ErrorModel {
        match self {
            IniParsingError::MissingEquals { line_number } => ErrorModel::MissingEquals {
                line: *line_number as nat,
            },
            IniParsingError::ExpectedSectionTitle { line_number } => {
                ErrorModel::ExpectedSectionTitle { line: *line_number as nat }
            },
            IniParsingError::BrokenSectionTitle { line_number } => {
                ErrorModel::BrokenSectionTitle { line: *line_number as nat }
            },
            IniParsingError::DuplicateSection { line_number, section } => {
                ErrorModel::DuplicateSection { line: *line_number as nat, section: section@ }
            },
            IniParsingError::DuplicateSectionKey { line_number, section, key } => {
                ErrorModel::DuplicateSectionKey {
                    line: *line_number as nat,
                    section: section@,
                    key: key@,
                }
            },
        }
    }
}

/// The character standing for a single decimal digit.
pub open spec fn digit_char(d: nat) -> char {
    if d == 0 {
        '0'
    } else if d == 1 {
        '1'
    } else if d == 2 {
        '2'
    } else if d == 3 {
        '3'
    } else if d == 4 {
        '4'
    } else if d == 5 {
        '5'
    } else if d == 6 {
        '6'
    } else if d == 7 {
        '7'
    } else if d == 8 {
        '8'
    } else {
        '9'
    }
}

/// The decimal rendering of `n`, most significant digit first, no sign and no
/// leading zero (except for `n == 0` itself).
pub open spec fn decimal_of(n: nat) -> Seq<char>
    decreases n,
{
    if n < 10 {
        seq![digit_char(n)]
    } else {
        decimal_of(n / 10).push(digit_char(n % 10))
    }
}

/// The single-character string for a decimal digit.
fn digit_str(d: usize) -> (r: &'static str)
    requires
        d < 10,
    ensures
        r@ == seq![digit_char(d as nat)],
{
    proof {
        reveal_strlit("0");
        reveal_strlit("1");
        reveal_strlit("2");
        reveal_strlit("3");
        reveal_strlit("4");
        reveal_strlit("5");
        reveal_strlit("6");
        reveal_strlit("7");
        reveal_strlit("8");
        reveal_strlit("9");
    }
    let r = match d {
        0 => "0",
        1 => "1",
        2 => "2",
        3 => "3",
        4 => "4",
        5 => "5",
        6 => "6",
        7 => "7",
        8 => "8",
        _ => "9",
    };
    proof {
        assert(r@ =~= seq![digit_char(d as nat)]);
    }
    r
}

/// Render `n` in decimal.
fn usize_to_string(n: usize) -> (r: String)
    ensures
        r@ == decimal_of(n as nat),
    decreases n,
{
    if n < 10 {
        digit_str(n).to_owned()
    } else {
        let mut s = usize_to_string(n / 10);
        s.append(digit_str(n % 10));
        proof {
            assert(s@ =~= decimal_of((n / 10) as nat).push(digit_char((n % 10) as nat)));
        }
        s
    }
}

/// The text `message` renders for an error: the line number in decimal, then
/// a description naming the offending section or key where one exists.
pub open spec fn spec_message(e: ErrorModel) -> Seq<char> {
    match e {
        ErrorModel::MissingEquals { line } => decimal_of(line)
            + ": Missing an `=` to separate the key and value"@,
        ErrorModel::ExpectedSectionTitle { line } => decimal_of(line)
            + ": Expected a section title"@,
        ErrorModel::BrokenSectionTitle { line } => decimal_of(line)
            + ": Expected a `]` to close a `[`"@,
        ErrorModel::DuplicateSection { line, section } => decimal_of(line)
            + ": Duplicate section `"@ + section + "`"@,
        ErrorModel::DuplicateSectionKey { line, section, key } => decimal_of(line)
            + ": Duplicate key `"@ + key + "` in section `"@ + section + "`"@,
    }
}

impl IniParsingError {
    /// A human-readable rendering of the error, line number first.
    pub fn message(&self) -> (r: String)
        ensures
            r@ == spec_message(self@),
    {
        match self {
            IniParsingError::MissingEquals { line_number } => {
                let mut s = usize_to_string(*line_number);
                s.append(": Missing an `=` to separate the key and value");
                s
            },
            IniParsingError::ExpectedSectionTitle { line_number } => {
                let mut s = usize_to_string(*line_number);
                s.append(": Expected a section title");
                s
            },
            IniParsingError::BrokenSectionTitle { line_number } => {
                let mut s = usize_to_string(*line_number);
                s.append(": Expected a `]` to close a `[`");
                s
            },
            IniParsingError::DuplicateSection { line_number, section } => {
                let mut s = usize_to_string(*line_number);
                s.append(": Duplicate section `");
                s.append(section.as_str());
                s.append("`");
                proof {
                    assert(s@ =~= spec_message(self@));
                }
                s
            },
            IniParsingError::DuplicateSectionKey { line_number, section, key } => {
                let mut s = usize_to_string(*line_number);
                s.append(": Duplicate key `");
                s.append(key.as_str());
                s.append("` in section `");
                s.append(section.as_str());
                s.append("`");
                proof {
                    assert(s@ =~= spec_message(self@));
                }
                s
            },
        }
    }
}

} // verus!
