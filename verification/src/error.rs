//! What can go wrong: a file that is not well-formed, and a well-formed file
//! that asks for what cannot be played.

use vstd::prelude::*;

verus! {

/// Why a decoded file cannot be played.
#[derive(PartialEq, Eq, Structural, Clone, Copy, Debug)]
pub enum PlayError {
    /// A track holds no sequence chunk.
    MissingSequence,
    /// An event refers to a wave that its track does not hold.
    MissingWave,
    /// A wave is not in the one shape that is decoded: mono, four bits a
    /// sample, ADPCM.
    UnsupportedWave,
    /// An event falls later than the clock can count.
    TimeOverflow,
}

/// Where decoding a file stopped, and what was expected there.
#[derive(PartialEq, Eq, Structural, Clone, Copy, Debug)]
pub enum ParseFailure {
    /// At the start: the magic `MMMD`, the length of all that follows it, and
    /// room for the checksum.
    Envelope,
    /// Between header and checksum: a whole number of framed chunks.
    Framing,
    /// At the top-level chunk with this index: a known tag and well-formed
    /// content.
    Chunk(usize),
}

/// Why a file could not be decoded or played.
#[derive(PartialEq, Eq, Structural, Clone, Copy, Debug)]
pub enum SmafError {
    /// The bytes are not a well-formed SMAF file.
    ParseError(ParseFailure),
    /// The file is well-formed and asks for what cannot be played.
    Unplayable(PlayError),
}

/// The decimal digit `d` as text.
pub open spec fn digit_text(d: int) -> Seq<char> {
    if d == 0 {
        "0"@
    } else if d == 1 {
        "1"@
    } else if d == 2 {
        "2"@
    } else if d == 3 {
        "3"@
    } else if d == 4 {
        "4"@
    } else if d == 5 {
        "5"@
    } else if d == 6 {
        "6"@
    } else if d == 7 {
        "7"@
    } else if d == 8 {
        "8"@
    } else {
        "9"@
    }
}

/// The number `n` in decimal digits.
pub open spec fn decimal_text(n: int) -> Seq<char>
    decreases n,
{
    if n < 10 {
        digit_text(n)
    } else {
        decimal_text(n / 10) + digit_text(n % 10)
    }
}

/// A decimal digit as text.
fn digit(d: usize) -> (r: &'static str)
    requires
        d < 10,
    ensures
        r@ == digit_text(d as int),
{
    match d {
        0 => "0",
        1 => "1",
        2 => "2",
        3 => "3",
        4 => "4",
        5 => "5",
        6 => "6",
        7 => "7",
        8 => "8",
        _ => "9",
    }
}

/// Writes a number in decimal digits.
pub fn decimal(n: usize) -> (r: String)
    ensures
        r@ == decimal_text(n as int),
    decreases n,
{
    if n < 10 {
        digit(n).to_owned()
    } else {
        decimal(n / 10).concat(digit(n % 10))
    }
}

impl SmafError {
    /// What the error says: for a parse error what was expected and, for a
    /// chunk, its index; for a file that cannot be played, what it lacks.
    pub open spec fn message_text(self) -> Seq<char> {
        match self {
            SmafError::ParseError(ParseFailure::Envelope) => {
                "malformed SMAF data: expected the header MMMD and the length of the file"@
            },
            SmafError::ParseError(ParseFailure::Framing) => {
                "malformed SMAF data: expected framed chunks up to the checksum"@
            },
            SmafError::ParseError(ParseFailure::Chunk(index)) => {
                "malformed SMAF data: expected a well-formed chunk at index "@ + decimal_text(
                    index as int,
                )
            },
            SmafError::Unplayable(PlayError::MissingSequence) => "a track has no sequence"@,
            SmafError::Unplayable(PlayError::MissingWave) => {
                "an event refers to a wave that is not there"@
            },
            SmafError::Unplayable(PlayError::UnsupportedWave) => {
                "a wave is not mono ADPCM with four bits a sample"@
            },
            SmafError::Unplayable(PlayError::TimeOverflow) => "an event is due too late to count"@,
        }
    }

    /// The error in words.
    pub fn message(&self) -> (r: String)
        ensures
            r@ == self.message_text(),
    {
        match self {
            SmafError::ParseError(ParseFailure::Envelope) => {
                "malformed SMAF data: expected the header MMMD and the length of the file".to_owned()
            },
            SmafError::ParseError(ParseFailure::Framing) => {
                "malformed SMAF data: expected framed chunks up to the checksum".to_owned()
            },
            SmafError::ParseError(ParseFailure::Chunk(index)) => {
                let number = decimal(*index);
                "malformed SMAF data: expected a well-formed chunk at index ".to_owned().concat(
                    number.as_str(),
                )
            },
            SmafError::Unplayable(PlayError::MissingSequence) => "a track has no sequence".to_owned(),
            SmafError::Unplayable(PlayError::MissingWave) => {
                "an event refers to a wave that is not there".to_owned()
            },
            SmafError::Unplayable(PlayError::UnsupportedWave) => {
                "a wave is not mono ADPCM with four bits a sample".to_owned()
            },
            SmafError::Unplayable(PlayError::TimeOverflow) => {
                "an event is due too late to count".to_owned()
            },
        }
    }
}

} // verus!
