//! What a scan reports when a transcript is not as it should be.

use crate::text::{decimal, decimal_text, text_of};
use vstd::prelude::*;
use vstd::string::StringExecFns;
use vstd::utf8::valid_utf8;

verus! {

/// A fault found in a transcript. Positions are byte offsets into the
/// region that was scanned.
#[derive(Debug, PartialEq, Eq)]
pub enum ScanError {
    /// A record, or the stretch of bytes in front of a newline, has a shape
    /// that it must not have. `line` is the offending text.
    UnexpectedFormat { file_name: String, position: usize, line: String },
    /// Bytes that had to be read as text are not UTF-8.
    DecodeFailure { file_name: String, position: usize },
}

/// Why a scanner could not be set up.
#[derive(Clone, Copy, Debug, PartialEq, Eq, Structural)]
pub enum SetupError {
    /// The cutoff is not a date written as `YYYY-MM-DD`.
    InvalidCutoff,
    /// The expression that the scanner matches with was not accepted.
    InvalidPattern,
}

impl ScanError {
    /// Whether this is the report owed for `bytes`, found faulty at
    /// `position` of the file `file_name`: a decode failure where the bytes
    /// are not UTF-8, else an unexpected format that quotes them as text.
    pub open spec fn reports(&self, file_name: Seq<char>, position: int, bytes: Seq<u8>) -> bool {
        if valid_utf8(bytes) {
            &&& self matches ScanError::UnexpectedFormat { file_name: f, position: p, line }
            &&& f@ == file_name
            &&& p == position
            &&& line@ == text_of(bytes)
        } else {
            &&& self matches ScanError::DecodeFailure { file_name: f, position: p }
            &&& f@ == file_name
            &&& p == position
        }
    }

    /// The file in which the fault was found.
    pub open spec fn spec_file_name(&self) -> Seq<char> {
        match self {
            ScanError::UnexpectedFormat { file_name, .. } => file_name@,
            ScanError::DecodeFailure { file_name, .. } => file_name@,
        }
    }

    /// The byte offset at which the fault was found.
    pub open spec fn spec_position(&self) -> usize {
        match self {
            ScanError::UnexpectedFormat { position, .. } => *position,
            ScanError::DecodeFailure { position, .. } => *position,
        }
    }

    /// The sentence that `message` builds.
    pub open spec fn spec_message(&self) -> Seq<char> {
        match self {
            ScanError::UnexpectedFormat { file_name, position, line } => "File \""@ + file_name@
                + "\" has an unexpected format in "@ + decimal_text(*position as nat)
                + "th byte. (\""@ + line@ + "\")"@,
            ScanError::DecodeFailure { file_name, position } => "File \""@ + file_name@
                + "\" is not valid text in "@ + decimal_text(*position as nat) + "th byte."@,
        }
    }

    /// The file in which the fault was found.
    pub fn file_name(&self) -> (r: &String)
        ensures
            r@ == self.spec_file_name(),
    {
        match self {
            ScanError::UnexpectedFormat { file_name, .. } => file_name,
            ScanError::DecodeFailure { file_name, .. } => file_name,
        }
    }

    /// The byte offset at which the fault was found.
    pub fn position(&self) -> (r: usize)
        ensures
            r == self.spec_position(),
    {
        match self {
            ScanError::UnexpectedFormat { position, .. } => *position,
            ScanError::DecodeFailure { position, .. } => *position,
        }
    }

    /// Describes the fault in one sentence.
    pub fn message(&self) -> (r: String)
        ensures
            r@ == self.spec_message(),
    {
        match self {
            ScanError::UnexpectedFormat { file_name, position, line } => {
                let number = decimal(*position);
                let mut out = String::from_str("File \"");
                out.append(file_name.as_str());
                out.append("\" has an unexpected format in ");
                out.append(number.as_str());
                out.append("th byte. (\"");
                out.append(line.as_str());
                out.append("\")");
                out
            },
            ScanError::DecodeFailure { file_name, position } => {
                let number = decimal(*position);
                let mut out = String::from_str("File \"");
                out.append(file_name.as_str());
                out.append("\" is not valid text in ");
                out.append(number.as_str());
                out.append("th byte.");
                out
            },
        }
    }
}

} // verus!
