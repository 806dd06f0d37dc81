//! Error taxonomy of the engine and the text each error carries.

use vstd::prelude::*;
use vstd::string::*;

verus! {

/// What went wrong while handling a message.
///
/// `InvalidData` is malformed, undersized or out-of-range input.
/// `ProcessingError` is a fault inside a handler on well-formed input.
/// `TimingError` is a violated protocol timing contract.
#[derive(Debug)]
pub enum MidiError {
    InvalidData(String),
    ProcessingError(String),
    TimingError(String),
}

impl MidiError {
    /// The detail text that the error carries.
    pub open spec fn text(&self) -> Seq<char> {
        match self {
            MidiError::InvalidData(s) => s@,
            MidiError::ProcessingError(s) => s@,
            MidiError::TimingError(s) => s@,
        }
    }

    /// The prefix that names the kind of the error in its message.
    pub open spec fn prefix(&self) -> Seq<char> {
        match self {
            MidiError::InvalidData(_) => "Invalid MIDI data: "@,
            MidiError::ProcessingError(_) => "Processing error: "@,
            MidiError::TimingError(_) => "Timing error: "@,
        }
    }

    /// The full message: the kind's prefix followed by the detail text.
    pub fn message(&self) -> (out: String)
        ensures
            out@ == self.prefix() + self.text(),
    {
        match self {
            MidiError::InvalidData(s) => "Invalid MIDI data: ".to_owned().concat(s.as_str()),
            MidiError::ProcessingError(s) => "Processing error: ".to_owned().concat(s.as_str()),
            MidiError::TimingError(s) => "Timing error: ".to_owned().concat(s.as_str()),
        }
    }
}

/// What an error is, apart from how its text is stored.
pub enum ErrorView {
    InvalidData(Seq<char>),
    ProcessingError(Seq<char>),
    TimingError(Seq<char>),
}

impl View for MidiError {
    type V = ErrorView;

    open spec fn view(&self) -> ErrorView {
        match self {
            MidiError::InvalidData(s) => ErrorView::InvalidData(s@),
            MidiError::ProcessingError(s) => ErrorView::ProcessingError(s@),
            MidiError::TimingError(s) => ErrorView::TimingError(s@),
        }
    }
}

/// What the result of a handler is: success, or the view of its error.
pub open spec fn outcome(r: Result<(), MidiError>) -> Result<(), ErrorView> {
    match r {
        Ok(_) => Ok(()),
        Err(e) => Err(e@),
    }
}

/// The outcome of a handler that rejects its input with `text`.
pub open spec fn invalid(text: Seq<char>) -> Result<(), ErrorView> {
    Err(ErrorView::InvalidData(text))
}

/// The outcome of a handler that fails on well-formed input with `text`.
pub open spec fn fault(text: Seq<char>) -> Result<(), ErrorView> {
    Err(ErrorView::ProcessingError(text))
}

/// The outcome of a handler that finds a timing contract violated.
pub open spec fn late(text: Seq<char>) -> Result<(), ErrorView> {
    Err(ErrorView::TimingError(text))
}

/// Whether `r` is an `InvalidData` error with the text `text`.
pub open spec fn is_invalid_data<T>(r: Result<T, MidiError>, text: Seq<char>) -> bool {
    r matches Err(e) && e is InvalidData && e.text() == text
}

/// An `InvalidData` error with the text `text`.
pub fn invalid_data(text: &str) -> (e: MidiError)
    ensures
        e is InvalidData,
        e.text() == text@,
{
    MidiError::InvalidData(text.to_owned())
}

/// A `ProcessingError` with the text `text`.
pub fn processing_error(text: &str) -> (e: MidiError)
    ensures
        e is ProcessingError,
        e.text() == text@,
{
    MidiError::ProcessingError(text.to_owned())
}

/// A `TimingError` with the text `text`.
pub fn timing_error(text: &str) -> (e: MidiError)
    ensures
        e is TimingError,
        e.text() == text@,
{
    MidiError::TimingError(text.to_owned())
}

/// The decimal digit `d` as a character.
pub open spec fn digit_char(d: int) -> char {
    if d == 0 {
        '0'
    } else if d == 1 {
        '1'
    } else if d == 2 {
        '2'
    } else if d == 3 {
        '3'
    } else if d == 4 {
        '4'
    } else if d == 5 {
        '5'
    } else if d == 6 {
        '6'
    } else if d == 7 {
        '7'
    } else if d == 8 {
        '8'
    } else {
        '9'
    }
}

/// The decimal numeral of `n`, without leading zeros.
pub open spec fn decimal(n: nat) -> Seq<char>
    decreases n,
{
    if n < 10 {
        seq![digit_char(n as int)]
    } else {
        decimal(n / 10).push(digit_char((n % 10) as int))
    }
}

fn digit_str(d: u8) -> (s: &'static str)
    requires
        d < 10,
    ensures
        s@ == seq![digit_char(d as int)],
{
    proof {
        reveal_strlit("0");
        reveal_strlit("1");
        reveal_strlit("2");
        reveal_strlit("3");
        reveal_strlit("4");
        reveal_strlit("5");
        reveal_strlit("6");
        reveal_strlit("7");
        reveal_strlit("8");
        reveal_strlit("9");
    }
    let s = if d == 0 {
        "0"
    } else if d == 1 {
        "1"
    } else if d == 2 {
        "2"
    } else if d == 3 {
        "3"
    } else if d == 4 {
        "4"
    } else if d == 5 {
        "5"
    } else if d == 6 {
        "6"
    } else if d == 7 {
        "7"
    } else if d == 8 {
        "8"
    } else {
        "9"
    };
    assert(s@ =~= seq![digit_char(d as int)]);
    s
}

/// Writes a channel or byte value as a decimal numeral.
pub fn decimal_string(n: u8) -> (out: String)
    ensures
        out@ == decimal(n as nat),
{
    let ones: u8 = n % 10;
    let tens: u8 = (n / 10) % 10;
    let hundreds: u8 = n / 100;
    let mut out = String::new();
    if hundreds > 0 {
        out.append(digit_str(hundreds));
    }
    if hundreds > 0 || tens > 0 {
        out.append(digit_str(tens));
    }
    out.append(digit_str(ones));
    proof {
        reveal_with_fuel(decimal, 3);
        assert(out@ =~= decimal(n as nat));
    }
    out
}

} // verus!
