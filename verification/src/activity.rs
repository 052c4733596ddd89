//! Counting the recent messages of chosen authors in one transcript.
//!
//! The walk starts at the last newline of the region and goes down record by
//! record. It ends at the first record that is dated before the cutoff: dates
//! do not decrease along a transcript, so whatever lies below is older still.

use crate::channel::{ChannelDescriptor, ChannelLog};
use crate::error::{ScanError, SetupError};
use crate::order::{rank_order, ranking, RankedChannel};
use crate::pattern::{captures, compile, regex_captures, regex_of};
use crate::scan::{lemma_newline_before, newline_before, prev_newline, NEWLINE};
use crate::text::{
    bytes_less, check_iso_date, decode, is_iso_date, lemma_lex_less_prefix, lex_less, text_of,
};
use vstd::prelude::*;
use vstd::slice::slice_subrange;
use vstd::string::{StringExecFns, StringSliceAdditionalSpecFns};
use vstd::utf8::{encode_utf8, valid_utf8};

verus! {

/// The shape of a record: a date, a time, a field separator, an author with
/// an optional operator marker in front, and then the end of the record or
/// another separator. The first group is the date, the second the author
/// without the marker. An author of no characters is not accepted.
pub const RECORD_PATTERN: &'static str =
    r"^(?P<date>\d{4}-\d{2}-\d{2}) \d{2}:\d{2}:\d{2}\t@?(?P<name>.+?)(?:$|\t)";

/// What one record means to the count.
#[derive(Clone, Copy, Debug, PartialEq, Eq, Structural)]
pub enum RecordClass {
    /// The bytes are not UTF-8.
    Undecodable,
    /// The text does not have the shape of a record.
    Malformed,
    /// The record is dated before the cutoff.
    Past,
    /// The record is dated on or after the cutoff; `qualifies` says whether
    /// its author is one of those that are counted.
    Recent { qualifies: bool },
}

/// What the groups captured from a record say of it, given the cutoff as
/// bytes and the authors that are counted. A record is well-shaped when the
/// pattern matched with exactly its three groups, date and author took part,
/// and the date is an ISO date.
pub open spec fn classify_groups(
    groups: Option<Seq<Option<Seq<char>>>>,
    cutoff: Seq<u8>,
    authors: Seq<Seq<char>>,
) -> RecordClass {
    match groups {
        None => RecordClass::Malformed,
        Some(g) => if g.len() != 3 || g[1] is None || g[2] is None || !is_iso_date(
            encode_utf8(g[1]->Some_0),
        ) {
            RecordClass::Malformed
        } else if lex_less(encode_utf8(g[1]->Some_0), cutoff) {
            RecordClass::Past
        } else {
            RecordClass::Recent { qualifies: authors.contains(g[2]->Some_0) }
        },
    }
}

/// What the bytes of a record mean to the count.
pub open spec fn classify_bytes(
    record: Seq<u8>,
    cutoff: Seq<u8>,
    authors: Seq<Seq<char>>,
) -> RecordClass {
    if valid_utf8(record) {
        classify_groups(
            regex_captures(regex_of(RECORD_PATTERN@), text_of(record)),
            cutoff,
            authors,
        )
    } else {
        RecordClass::Undecodable
    }
}

/// What a walk makes of a stretch of records.
pub enum Tally {
    /// That many records by counted authors, and no fault.
    Counted(nat),
    /// The record whose first byte is at `start` and whose newline is at
    /// `end` is undecodable or malformed.
    Faulty { start: int, end: int },
}

/// What the walk down from the newline at `end` makes of the records below
/// it. The stretch below the lowest newline is no record to this walk.
pub open spec fn tally(region: Seq<u8>, end: int, cutoff: Seq<u8>, authors: Seq<Seq<char>>) -> Tally
    decreases end,
{
    match newline_before(region, end) {
        Some(p) => if 0 <= p < end {
            match classify_bytes(region.subrange(p + 1, end), cutoff, authors) {
                RecordClass::Undecodable => Tally::Faulty { start: p + 1, end },
                RecordClass::Malformed => Tally::Faulty { start: p + 1, end },
                RecordClass::Past => Tally::Counted(0),
                RecordClass::Recent { qualifies } => match tally(region, p, cutoff, authors) {
                    Tally::Counted(n) => Tally::Counted(
                        if qualifies {
                            n + 1
                        } else {
                            n
                        },
                    ),
                    Tally::Faulty { start, end } => Tally::Faulty { start, end },
                },
            }
        } else {
            Tally::Counted(0)
        },
        None => Tally::Counted(0),
    }
}

/// What the walk over a whole region comes to.
pub open spec fn tally_region(region: Seq<u8>, cutoff: Seq<u8>, authors: Seq<Seq<char>>) -> Tally {
    match newline_before(region, region.len() as int) {
        Some(e) => tally(region, e, cutoff, authors),
        None => Tally::Counted(0),
    }
}

/// `later` with `count` records by counted authors found above it.
pub open spec fn carry(count: nat, later: Tally) -> Tally {
    match later {
        Tally::Counted(n) => Tally::Counted(count + n),
        Tally::Faulty { start, end } => Tally::Faulty { start, end },
    }
}

/// Whether `name` is one of `authors`.
pub fn is_author(authors: &Vec<String>, name: &String) -> (r: bool)
    ensures
        r == authors.deep_view().contains(name@),
{
    let mut i: usize = 0;
    while i < authors.len()
        invariant
            i <= authors.len(),
            forall|k: int| 0 <= k < i ==> authors.deep_view()[k] != name@,
        decreases authors.len() - i,
    {
        assert(authors.deep_view()[i as int] == authors@[i as int]@);
        if authors[i] == *name {
            return true;
        }
        i += 1;
    }
    false
}

/// Classifies a record from the groups that were captured from it.
pub fn classify_record(groups: &Option<Vec<Option<String>>>, cutoff: &str, authors: &Vec<String>) -> (r:
    RecordClass)
    ensures
        r == classify_groups(groups.deep_view(), cutoff.spec_bytes(), authors.deep_view()),
{
    match groups {
        None => RecordClass::Malformed,
        Some(g) => {
            if g.len() != 3 {
                return RecordClass::Malformed;
            }
            match (&g[1], &g[2]) {
                (Some(date), Some(name)) => {
                    let date_bytes = date.as_str().as_bytes();
                    if !check_iso_date(date_bytes) {
                        RecordClass::Malformed
                    } else if bytes_less(date_bytes, cutoff.as_bytes()) {
                        RecordClass::Past
                    } else {
                        RecordClass::Recent { qualifies: is_author(authors, name) }
                    }
                },
                _ => RecordClass::Malformed,
            }
        },
    }
}

/// Counts recent messages of chosen authors.
pub struct ActivityRanker {
    record: regex::Regex,
    cutoff: String,
    authors: Vec<String>,
}

impl ActivityRanker {
    #[verifier::type_invariant]
    spec fn well_formed(&self) -> bool {
        &&& self.record == regex_of(RECORD_PATTERN@)
        &&& is_iso_date(encode_utf8(self.cutoff@))
    }

    /// The cutoff date, as bytes: the earliest date that still counts.
    pub closed spec fn spec_cutoff(&self) -> Seq<u8> {
        encode_utf8(self.cutoff@)
    }

    /// The authors whose messages are counted.
    pub closed spec fn spec_authors(&self) -> Seq<Seq<char>> {
        self.authors.deep_view()
    }

    /// What a walk over `region` comes to with this cutoff and these authors.
    pub open spec fn spec_count(&self, region: Seq<u8>) -> Tally {
        tally_region(region, self.spec_cutoff(), self.spec_authors())
    }

    /// Sets up a ranker that counts the messages of `authors` dated on or
    /// after `cutoff`, which must be an ISO date. Beyond that this fails only
    /// where `RECORD_PATTERN` is not accepted as an expression.
    pub fn new(cutoff: &str, authors: Vec<String>) -> (r: Result<ActivityRanker, SetupError>)
        ensures
            r == Err::<ActivityRanker, SetupError>(SetupError::InvalidCutoff) <==> !is_iso_date(
                cutoff.spec_bytes(),
            ),
            r is Err ==> r->Err_0 == SetupError::InvalidCutoff || r->Err_0
                == SetupError::InvalidPattern,
            r is Ok ==> r->Ok_0.spec_cutoff() == cutoff.spec_bytes() && r->Ok_0.spec_authors()
                == authors.deep_view(),
    {
        if !check_iso_date(cutoff.as_bytes()) {
            return Err(SetupError::InvalidCutoff);
        }
        ActivityRanker::from_compiled(compile(RECORD_PATTERN), cutoff, authors)
    }

    /// Makes a ranker of what compiling `RECORD_PATTERN` gave. The cutoff is
    /// looked at first; then there is a ranker exactly where an expression
    /// was compiled.
    pub fn from_compiled(
        compiled: Result<regex::Regex, regex::Error>,
        cutoff: &str,
        authors: Vec<String>,
    ) -> (r: Result<ActivityRanker, SetupError>)
        requires
            compiled is Ok ==> compiled->Ok_0 == regex_of(RECORD_PATTERN@),
        ensures
            match r {
                Ok(ranker) => {
                    &&& is_iso_date(cutoff.spec_bytes())
                    &&& compiled is Ok
                    &&& ranker.spec_cutoff() == cutoff.spec_bytes()
                    &&& ranker.spec_authors() == authors.deep_view()
                },
                Err(SetupError::InvalidCutoff) => !is_iso_date(cutoff.spec_bytes()),
                Err(SetupError::InvalidPattern) => is_iso_date(cutoff.spec_bytes())
                    && compiled is Err,
            },
    {
        if !check_iso_date(cutoff.as_bytes()) {
            return Err(SetupError::InvalidCutoff);
        }
        match compiled {
            Ok(record) => Ok(ActivityRanker { record, cutoff: String::from_str(cutoff), authors }),
            Err(_) => Err(SetupError::InvalidPattern),
        }
    }

    /// Counts, walking `region` from its end, the records by counted authors
    /// that are dated on or after the cutoff. The walk ends at the first
    /// record dated before the cutoff, and fails at the first record that is
    /// undecodable or malformed; the report then names the file of `channel`
    /// and the position of the newline in front of that record.
    pub fn count_recent(&self, channel: &ChannelDescriptor, region: &[u8]) -> (r: Result<
        usize,
        ScanError,
    >)
        ensures
            match self.spec_count(region@) {
                Tally::Counted(n) => r is Ok && r->Ok_0 == n,
                Tally::Faulty { start, end } => r is Err && r->Err_0.reports(
                    channel.spec_file_name(),
                    start - 1,
                    region@.subrange(start, end),
                ),
            },
    {
        proof {
            use_type_invariant(self);
            lemma_newline_before(region@, region@.len() as int);
        }
        let mut end: usize = match prev_newline(region, region.len()) {
            Some(e) => e,
            None => {
                return Ok(0);
            },
        };
        let mut count: usize = 0;
        loop
            invariant
                end < region.len(),
                count + end < region.len(),
                self.record == regex_of(RECORD_PATTERN@),
                self.spec_count(region@) == carry(
                    count as nat,
                    tally(region@, end as int, self.spec_cutoff(), self.spec_authors()),
                ),
            decreases end,
        {
            proof {
                lemma_newline_before(region@, end as int);
            }
            let p: usize = match prev_newline(region, end) {
                Some(p) => p,
                None => {
                    return Ok(count);
                },
            };
            let record = slice_subrange(region, p + 1, end);
            let text = match decode(record) {
                Some(text) => text,
                None => {
                    return Err(
                        ScanError::DecodeFailure { file_name: channel.file_name(), position: p },
                    );
                },
            };
            proof {
                crate::text::lemma_text_of_encoding(text@);
            }
            let groups = captures(&self.record, text);
            match classify_record(&groups, self.cutoff.as_str(), &self.authors) {
                RecordClass::Recent { qualifies } => {
                    if qualifies {
                        count += 1;
                    }
                    end = p;
                },
                RecordClass::Past => {
                    return Ok(count);
                },
                _ => {
                    return Err(
                        ScanError::UnexpectedFormat {
                            file_name: channel.file_name(),
                            position: p,
                            line: String::from_str(text),
                        },
                    );
                },
            }
        }
    }

    /// The channels of `logs`, each with what was counted in its transcript.
    /// Meaningful where no transcript is faulty.
    pub open spec fn spec_counted(&self, logs: Seq<ChannelLog>) -> Seq<RankedChannel> {
        Seq::new(
            logs.len(),
            |k: int|
                RankedChannel {
                    channel: logs[k].channel,
                    count: match self.spec_count(logs[k].region@) {
                        Tally::Counted(n) => n as usize,
                        Tally::Faulty { .. } => 0,
                    },
                },
        )
    }

    /// Whether the transcript of `log` is faulty and `e` is the report owed
    /// for it: on the record at which the walk fails, at the position of the
    /// newline in front of that record.
    pub open spec fn spec_reports(&self, log: ChannelLog, e: ScanError) -> bool {
        match self.spec_count(log.region@) {
            Tally::Faulty { start, end } => e.reports(
                log.channel.spec_file_name(),
                start - 1,
                log.region@.subrange(start, end),
            ),
            Tally::Counted(_) => false,
        }
    }

    /// Counts in every transcript of `logs` in turn and ranks the channels
    /// by their counts. Where a transcript is faulty, the result is the
    /// report on the first such, and those behind it are not looked at.
    pub fn rank(&self, logs: &[ChannelLog]) -> (r: Result<Vec<RankedChannel>, ScanError>)
        ensures
            r is Ok <==> forall|k: int|
                0 <= k < logs@.len() ==> self.spec_count(#[trigger] logs@[k].region@) is Counted,
            r is Ok ==> r->Ok_0@ == ranking(self.spec_counted(logs@)),
            r is Err ==> exists|k: int|
                {
                    &&& 0 <= k < logs@.len()
                    &&& forall|j: int|
                        0 <= j < k ==> self.spec_count(#[trigger] logs@[j].region@) is Counted
                    &&& self.spec_reports(#[trigger] logs@[k], r->Err_0)
                },
    {
        let mut counted: Vec<RankedChannel> = Vec::new();
        let mut k: usize = 0;
        while k < logs.len()
            invariant
                k <= logs.len(),
                forall|j: int|
                    0 <= j < k ==> self.spec_count(#[trigger] logs@[j].region@) is Counted,
                counted@ == self.spec_counted(logs@.take(k as int)),
            decreases logs.len() - k,
        {
            match self.count_recent(&logs[k].channel, logs[k].region) {
                Ok(count) => {
                    let entry = RankedChannel { channel: logs[k].channel.duplicate(), count };
                    counted.push(entry);
                },
                Err(e) => {
                    return Err(e);
                },
            }
            k += 1;
        }
        proof {
            assert(logs@.take(k as int) =~= logs@);
        }
        Ok(rank_order(&counted))
    }
}

/// `t` as seen from a region with `by` more bytes in front.
pub open spec fn shifted(t: Tally, by: int) -> Tally {
    match t {
        Tally::Counted(n) => Tally::Counted(n),
        Tally::Faulty { start, end } => Tally::Faulty { start: start + by, end: end + by },
    }
}

/// Above a newline at `p`, the newline below a position is the same one
/// whether or not the bytes in front of `p` are there.
proof fn lemma_newline_before_suffix(a: Seq<u8>, p: int, end: int)
    requires
        0 <= p < end <= a.len(),
        a[p] == NEWLINE,
    ensures
        newline_before(a, end) is Some,
        newline_before(a.skip(p), end - p) is Some,
        newline_before(a, end)->Some_0 == newline_before(a.skip(p), end - p)->Some_0 + p,
        newline_before(a, end)->Some_0 >= p,
    decreases end,
{
    assert(a.skip(p)[end - 1 - p] == a[end - 1]);
    if a[end - 1] != NEWLINE {
        lemma_newline_before_suffix(a, p, end - 1);
    }
}

/// From every newline at or above a past record's own, the walk comes to
/// the same whether or not the bytes in front of that record's leading
/// newline are there.
proof fn lemma_tally_suffix(
    a: Seq<u8>,
    p: int,
    q: int,
    end: int,
    cutoff: Seq<u8>,
    authors: Seq<Seq<char>>,
)
    requires
        0 <= p < q <= end < a.len(),
        a[q] == NEWLINE,
        newline_before(a, q) == Some(p),
        classify_bytes(a.subrange(p + 1, q), cutoff, authors) == RecordClass::Past,
        end == q || newline_before(a, end) is Some && newline_before(a, end)->Some_0 >= q,
    ensures
        tally(a, end, cutoff, authors) == shifted(
            tally(a.skip(p), end - p, cutoff, authors),
            p,
        ),
    decreases end,
{
    lemma_newline_before(a, q);
    lemma_newline_before(a, end);
    lemma_newline_before_suffix(a, p, end);
    let below = newline_before(a, end)->Some_0;
    assert(a.skip(p).subrange(below - p + 1, end - p) =~= a.subrange(below + 1, end));
    if end != q {
        if below != q {
            lemma_newline_before_suffix(a, q, below);
        }
        lemma_tally_suffix(a, p, q, below, cutoff, authors);
    }
}

/// A record dated before the cutoff ends the count: the records above it
/// are counted, and whatever lies in front of it, well-shaped or not, has no
/// part in what the walk comes to. The walk comes to the same over the
/// region cut off at the newline in front of that record.
pub proof fn lemma_past_record_ends_count(
    a: Seq<u8>,
    p: int,
    q: int,
    cutoff: Seq<u8>,
    authors: Seq<Seq<char>>,
)
    requires
        0 <= p < q < a.len(),
        a[q] == NEWLINE,
        newline_before(a, q) == Some(p),
        classify_bytes(a.subrange(p + 1, q), cutoff, authors) == RecordClass::Past,
    ensures
        tally(a, q, cutoff, authors) == Tally::Counted(0),
        tally_region(a, cutoff, authors) == shifted(
            tally_region(a.skip(p), cutoff, authors),
            p,
        ),
{
    let len = a.len() as int;
    lemma_newline_before(a, q);
    lemma_newline_before(a, len);
    lemma_newline_before_suffix(a, p, len);
    lemma_newline_before_suffix(a, q, len);
    let last = newline_before(a, len)->Some_0;
    if last != q {
        lemma_newline_before_suffix(a, q, last);
    }
    lemma_tally_suffix(a, p, q, last, cutoff, authors);
}

/// A record dated on the very day of the cutoff is recent, and counts where
/// its author is counted.
pub proof fn lemma_cutoff_day_counts(
    groups: Seq<Option<Seq<char>>>,
    cutoff: Seq<u8>,
    authors: Seq<Seq<char>>,
)
    requires
        is_iso_date(cutoff),
        groups.len() == 3,
        groups[1] is Some,
        groups[2] is Some,
        encode_utf8(groups[1]->Some_0) == cutoff,
    ensures
        classify_groups(Some(groups), cutoff, authors) == (RecordClass::Recent {
            qualifies: authors.contains(groups[2]->Some_0),
        }),
{
    lemma_lex_less_prefix(cutoff, cutoff, cutoff.len() as int);
}

} // verus!
