//! Looking for records that a writer left unfinished.
//!
//! A writer that was stopped between the timestamp and the message leaves a
//! record that is a timestamp, a field separator and nothing else. The check
//! looks at a fixed stretch of bytes in front of every newline and nowhere
//! else, so that the rest of a record may hold any bytes at all.

use crate::channel::{ChannelDescriptor, ChannelLog};
use crate::error::{ScanError, SetupError};
use crate::pattern::{compile, is_match, regex_is_match, regex_of};
use crate::scan::{is_newline_at, lemma_newline_from, next_newline};
use crate::text::{decode, lemma_text_of_encoding, text_of};
use vstd::prelude::*;
use vstd::slice::slice_subrange;
use vstd::string::StringExecFns;
use vstd::utf8::valid_utf8;

verus! {

/// The number of bytes in front of a newline that are looked at: the newline
/// that ends the record before, a timestamp of nineteen bytes, and the field
/// separator.
pub const WINDOW: usize = 21;

/// The shape of an unfinished record with the newline in front of it.
pub const INTEGRITY_PATTERN: &'static str = r"^\n\d{4}-\d{2}-\d{2} \d{2}:\d{2}:\d{2}\t$";

/// Whether `text` has the shape of an unfinished record with the newline in
/// front of it.
pub open spec fn is_unfinished(text: Seq<char>) -> bool {
    regex_is_match(regex_of(INTEGRITY_PATTERN@), text)
}

/// The bytes that are looked at in front of position `i`.
pub open spec fn window_before(region: Seq<u8>, i: int) -> Seq<u8> {
    region.subrange(i - WINDOW, i)
}

/// Whether position `i` holds a newline with a whole window in front of it
/// that is not UTF-8 or has the shape of an unfinished record.
pub open spec fn faulty_at(region: Seq<u8>, i: int) -> bool {
    &&& is_newline_at(region, i)
    &&& i >= WINDOW
    &&& (!valid_utf8(window_before(region, i)) || is_unfinished(
        text_of(window_before(region, i)),
    ))
}

/// The first faulty position at or after `from`, if there is one.
pub open spec fn first_fault(region: Seq<u8>, from: int) -> Option<int>
    decreases region.len() - from,
{
    if from < 0 || from >= region.len() {
        None
    } else if faulty_at(region, from) {
        Some(from)
    } else {
        first_fault(region, from + 1)
    }
}

/// Whether a region has no faulty position.
pub open spec fn is_clean(region: Seq<u8>) -> bool {
    first_fault(region, 0) is None
}

/// `first_fault` finds the least faulty position at or after `from`.
pub proof fn lemma_first_fault(region: Seq<u8>, from: int)
    requires
        0 <= from <= region.len(),
    ensures
        match first_fault(region, from) {
            Some(i) => from <= i < region.len() && faulty_at(region, i) && forall|j: int|
                from <= j < i ==> !faulty_at(region, j),
            None => forall|j: int| from <= j < region.len() ==> !faulty_at(region, j),
        },
    decreases region.len() - from,
{
    if from < region.len() && !faulty_at(region, from) {
        lemma_first_fault(region, from + 1);
    }
}

/// An unfinished record is found: where the window in front of the newline
/// at `i` has the shape of an unfinished record, and no position before `i`
/// is faulty, `i` is the first faulty position.
pub proof fn lemma_unfinished_record_is_found(region: Seq<u8>, i: int)
    requires
        is_newline_at(region, i),
        i >= WINDOW,
        valid_utf8(window_before(region, i)),
        is_unfinished(text_of(window_before(region, i))),
        forall|j: int| 0 <= j < i ==> !faulty_at(region, j),
    ensures
        first_fault(region, 0) == Some(i),
{
    lemma_first_fault(region, 0);
    assert(faulty_at(region, i));
}

/// Where there is no newline there is no fault.
proof fn lemma_skip_to_newline(region: Seq<u8>, from: int, to: int)
    requires
        0 <= from <= to <= region.len(),
        forall|j: int| from <= j < to ==> !is_newline_at(region, j),
    ensures
        first_fault(region, from) == first_fault(region, to),
    decreases to - from,
{
    if from < to {
        lemma_skip_to_newline(region, from + 1, to);
    }
}

/// What a window at `position` in the transcript of `channel` comes to:
/// `text` is the window as text, or nothing where it did not decode, and
/// `matched` says whether it has the shape of an unfinished record.
pub fn judge_window(
    channel: &ChannelDescriptor,
    position: usize,
    text: Option<&str>,
    matched: bool,
) -> (r: Result<(), ScanError>)
    ensures
        match text {
            Some(t) => if matched {
                &&& r is Err
                &&& r->Err_0 matches ScanError::UnexpectedFormat { file_name, position: p, line }
                &&& file_name@ == channel.spec_file_name()
                &&& p == position
                &&& line@ == t@
            } else {
                r is Ok
            },
            None => {
                &&& r is Err
                &&& r->Err_0 matches ScanError::DecodeFailure { file_name, position: p }
                &&& file_name@ == channel.spec_file_name()
                &&& p == position
            },
        },
{
    match text {
        Some(t) => {
            if matched {
                Err(
                    ScanError::UnexpectedFormat {
                        file_name: channel.file_name(),
                        position,
                        line: String::from_str(t),
                    },
                )
            } else {
                Ok(())
            }
        },
        None => Err(ScanError::DecodeFailure { file_name: channel.file_name(), position }),
    }
}

/// Looks for unfinished records.
pub struct IntegrityChecker {
    pattern: regex::Regex,
}

impl IntegrityChecker {
    #[verifier::type_invariant]
    spec fn well_formed(&self) -> bool {
        self.pattern == regex_of(INTEGRITY_PATTERN@)
    }

    /// Sets up a checker. This fails only where `INTEGRITY_PATTERN` is not
    /// accepted as an expression.
    pub fn new() -> (r: Result<IntegrityChecker, SetupError>)
        ensures
            r is Err ==> r->Err_0 == SetupError::InvalidPattern,
    {
        IntegrityChecker::from_compiled(compile(INTEGRITY_PATTERN))
    }

    /// Makes a checker of what compiling `INTEGRITY_PATTERN` gave: there is
    /// one exactly where an expression was compiled.
    pub fn from_compiled(compiled: Result<regex::Regex, regex::Error>) -> (r: Result<
        IntegrityChecker,
        SetupError,
    >)
        requires
            compiled is Ok ==> compiled->Ok_0 == regex_of(INTEGRITY_PATTERN@),
        ensures
            r is Ok <==> compiled is Ok,
            r is Err ==> r->Err_0 == SetupError::InvalidPattern,
    {
        match compiled {
            Ok(pattern) => Ok(IntegrityChecker { pattern }),
            Err(_) => Err(SetupError::InvalidPattern),
        }
    }

    /// Walks `region` from its start and reports the first newline that has
    /// a faulty window in front of it, with the file of `channel`, the
    /// position of that newline and the window. Newlines with fewer than
    /// `WINDOW` bytes in front of them are passed over.
    pub fn check_region(&self, channel: &ChannelDescriptor, region: &[u8]) -> (r: Result<
        (),
        ScanError,
    >)
        ensures
            match first_fault(region@, 0) {
                Some(i) => r is Err && r->Err_0.reports(
                    channel.spec_file_name(),
                    i,
                    window_before(region@, i),
                ),
                None => r is Ok,
            },
    {
        proof {
            use_type_invariant(self);
        }
        let mut from: usize = 0;
        loop
            invariant
                from <= region.len(),
                self.pattern == regex_of(INTEGRITY_PATTERN@),
                first_fault(region@, 0) == first_fault(region@, from as int),
            decreases region.len() - from,
        {
            proof {
                lemma_newline_from(region@, from as int);
            }
            let i: usize = match next_newline(region, from) {
                Some(i) => i,
                None => {
                    proof {
                        lemma_skip_to_newline(region@, from as int, region@.len() as int);
                    }
                    return Ok(());
                },
            };
            proof {
                lemma_skip_to_newline(region@, from as int, i as int);
            }
            if i >= WINDOW {
                let window = slice_subrange(region, i - WINDOW, i);
                let text = decode(window);
                let matched = match text {
                    Some(t) => {
                        proof {
                            lemma_text_of_encoding(t@);
                        }
                        is_match(&self.pattern, t)
                    },
                    None => false,
                };
                match judge_window(channel, i, text, matched) {
                    Ok(()) => {},
                    Err(e) => {
                        return Err(e);
                    },
                }
            }
            from = i + 1;
        }
    }

    /// Checks the transcripts of `logs` in turn. Where all are clean, the
    /// result is their number; else it is the report on the first that is
    /// not, and those behind it are not looked at.
    pub fn check(&self, logs: &[ChannelLog]) -> (r: Result<usize, ScanError>)
        ensures
            r is Ok <==> forall|k: int| 0 <= k < logs@.len() ==> is_clean(#[trigger] logs@[k].region@),
            r is Ok ==> r->Ok_0 == logs@.len(),
            r is Err ==> exists|k: int|
                {
                    &&& 0 <= k < logs@.len()
                    &&& forall|j: int| 0 <= j < k ==> is_clean(#[trigger] logs@[j].region@)
                    &&& first_fault(logs@[k].region@, 0) is Some
                    &&& r->Err_0.reports(
                        logs@[k].channel.spec_file_name(),
                        first_fault(logs@[k].region@, 0)->Some_0,
                        window_before(
                            logs@[k].region@,
                            first_fault(logs@[k].region@, 0)->Some_0,
                        ),
                    )
                },
    {
        let mut k: usize = 0;
        while k < logs.len()
            invariant
                k <= logs.len(),
                forall|j: int| 0 <= j < k ==> is_clean(#[trigger] logs@[j].region@),
            decreases logs.len() - k,
        {
            match self.check_region(&logs[k].channel, logs[k].region) {
                Ok(()) => {},
                Err(e) => {
                    assert(!is_clean(logs@[k as int].region@));
                    return Err(e);
                },
            }
            k += 1;
        }
        Ok(logs.len())
    }
}

} // verus!
