//! Record boundaries in a transcript.
//!
//! A transcript is a region of bytes. A record is the stretch of bytes between
//! two neighbouring newline bytes, or between the start of the region and its
//! first newline. Bytes after the last newline belong to no record. Nothing is
//! escaped or quoted: the newline byte alone delimits.

use vstd::prelude::*;

verus! {

/// The byte that ends a record.
pub const NEWLINE: u8 = 0x0a;

/// Whether position `i` of `region` holds a newline.
pub open spec fn is_newline_at(region: Seq<u8>, i: int) -> bool {
    0 <= i < region.len() && region[i] == NEWLINE
}

/// The first newline position at or after `from`, if there is one.
pub open spec fn newline_from(region: Seq<u8>, from: int) -> Option<int>
    decreases region.len() - from,
{
    if from < 0 || from >= region.len() {
        None
    } else if region[from] == NEWLINE {
        Some(from)
    } else {
        newline_from(region, from + 1)
    }
}

/// The last newline position below `before`, if there is one.
pub open spec fn newline_before(region: Seq<u8>, before: int) -> Option<int>
    decreases before,
{
    if before <= 0 || before > region.len() {
        None
    } else if region[before - 1] == NEWLINE {
        Some(before - 1)
    } else {
        newline_before(region, before - 1)
    }
}

/// `newline_from` finds the least newline position at or after `from`.
pub proof fn lemma_newline_from(region: Seq<u8>, from: int)
    requires
        0 <= from <= region.len(),
    ensures
        match newline_from(region, from) {
            Some(n) => from <= n && is_newline_at(region, n) && forall|j: int|
                from <= j < n ==> !is_newline_at(region, j),
            None => forall|j: int| from <= j < region.len() ==> !is_newline_at(region, j),
        },
    decreases region.len() - from,
{
    if from < region.len() && region[from] != NEWLINE {
        lemma_newline_from(region, from + 1);
    }
}

/// `newline_before` finds the greatest newline position below `before`.
pub proof fn lemma_newline_before(region: Seq<u8>, before: int)
    requires
        0 <= before <= region.len(),
    ensures
        match newline_before(region, before) {
            Some(p) => p < before && is_newline_at(region, p) && forall|j: int|
                p < j < before ==> !is_newline_at(region, j),
            None => forall|j: int| 0 <= j < before ==> !is_newline_at(region, j),
        },
    decreases before,
{
    if before > 0 && region[before - 1] != NEWLINE {
        lemma_newline_before(region, before - 1);
    }
}

/// A newline position is the one found from above exactly when it is the one
/// found from below: neighbouring newlines see each other.
pub proof fn lemma_neighbours(region: Seq<u8>, p: int, q: int)
    requires
        is_newline_at(region, p),
        is_newline_at(region, q),
    ensures
        newline_before(region, q) == Some(p) <==> newline_from(region, p + 1) == Some(q),
{
    lemma_newline_before(region, q);
    lemma_newline_from(region, p + 1);
}

/// Finds the first newline at or after `from`.
pub fn next_newline(region: &[u8], from: usize) -> (r: Option<usize>)
    ensures
        match r {
            Some(n) => newline_from(region@, from as int) == Some(n as int),
            None => newline_from(region@, from as int) is None,
        },
{
    let mut i: usize = from;
    while i < region.len()
        invariant
            from <= i,
            newline_from(region@, from as int) == newline_from(region@, i as int),
        decreases region.len() - i,
    {
        if region[i] == NEWLINE {
            return Some(i);
        }
        i += 1;
    }
    None
}

/// Finds the last newline below `before`.
pub fn prev_newline(region: &[u8], before: usize) -> (r: Option<usize>)
    ensures
        match r {
            Some(p) => newline_before(region@, before as int) == Some(p as int),
            None => newline_before(region@, before as int) is None,
        },
{
    if before > region.len() {
        return None;
    }
    let mut i: usize = before;
    while i > 0
        invariant
            i <= before <= region.len(),
            newline_before(region@, before as int) == newline_before(region@, i as int),
        decreases i,
    {
        if region[i - 1] == NEWLINE {
            return Some(i - 1);
        }
        i -= 1;
    }
    None
}

/// The records from position `from` on, first to last, each as the pair of
/// the position of its first byte and the position of the newline that ends
/// it. The record that starts at `from` comes first.
pub open spec fn forward_spans(region: Seq<u8>, from: int) -> Seq<(int, int)>
    decreases region.len() - from,
{
    match newline_from(region, from) {
        Some(n) => if from <= n < region.len() {
            seq![(from, n)] + forward_spans(region, n + 1)
        } else {
            Seq::empty()
        },
        None => Seq::empty(),
    }
}

/// The records that lie between two newlines, walking down from the newline
/// at `end`: last to first, as pairs like those of `forward_spans`. The
/// stretch below the lowest newline has no newline in front of it and is left
/// out.
pub open spec fn backward_spans_from(region: Seq<u8>, end: int) -> Seq<(int, int)>
    decreases end,
{
    match newline_before(region, end) {
        Some(p) => if 0 <= p < end {
            seq![(p + 1, end)] + backward_spans_from(region, p)
        } else {
            Seq::empty()
        },
        None => Seq::empty(),
    }
}

/// The records of a backward walk over the whole region.
pub open spec fn backward_spans(region: Seq<u8>) -> Seq<(int, int)> {
    match newline_before(region, region.len() as int) {
        Some(e) => backward_spans_from(region, e),
        None => Seq::empty(),
    }
}

/// The bytes of the records in `spans`, each followed by a newline, one after
/// the other.
pub open spec fn join_records(region: Seq<u8>, spans: Seq<(int, int)>) -> Seq<u8>
    decreases spans.len(),
{
    if spans.len() == 0 {
        Seq::empty()
    } else {
        join_records(region, spans.drop_last()) + region.subrange(
            spans.last().0,
            spans.last().1,
        ) + seq![NEWLINE]
    }
}

/// Spans given as machine integers, read as mathematical ones.
pub open spec fn spans_of(v: Seq<(usize, usize)>) -> Seq<(int, int)> {
    v.map_values(|s: (usize, usize)| (s.0 as int, s.1 as int))
}

/// Walks the region from its start and lists every record.
pub fn scan_forward(region: &[u8]) -> (r: Vec<(usize, usize)>)
    ensures
        spans_of(r@) == forward_spans(region@, 0),
{
    let mut out: Vec<(usize, usize)> = Vec::new();
    let mut from: usize = 0;
    loop
        invariant
            from <= region.len(),
            forward_spans(region@, 0) == spans_of(out@) + forward_spans(region@, from as int),
        ensures
            spans_of(out@) == forward_spans(region@, 0),
        decreases region.len() - from,
    {
        proof {
            lemma_newline_from(region@, from as int);
        }
        match next_newline(region, from) {
            Some(n) => {
                out.push((from, n));
                from = n + 1;
            },
            None => {
                break ;
            },
        }
    }
    out
}

/// Walks the region from its end and lists every record that has a newline
/// on both sides.
pub fn scan_backward(region: &[u8]) -> (r: Vec<(usize, usize)>)
    ensures
        spans_of(r@) == backward_spans(region@),
{
    let mut out: Vec<(usize, usize)> = Vec::new();
    let mut end: usize = match prev_newline(region, region.len()) {
        Some(e) => e,
        None => {
            return out;
        },
    };
    proof {
        lemma_newline_before(region@, region@.len() as int);
    }
    loop
        invariant
            end < region.len(),
            backward_spans(region@) == spans_of(out@) + backward_spans_from(region@, end as int),
        ensures
            spans_of(out@) == backward_spans(region@),
        decreases end,
    {
        proof {
            lemma_newline_before(region@, end as int);
        }
        match prev_newline(region, end) {
            Some(p) => {
                let start: usize = p + 1;
                out.push((start, end));
                end = p;
            },
            None => {
                break ;
            },
        }
    }
    out
}

/// Walking down from the newline at `q` and then on upward from behind it
/// covers what a forward walk finds behind the first newline.
proof fn lemma_walks_meet(region: Seq<u8>, first: int, q: int)
    requires
        newline_from(region, 0) == Some(first),
        is_newline_at(region, q),
    ensures
        backward_spans_from(region, q).reverse() + forward_spans(region, q + 1) == forward_spans(
            region,
            first + 1,
        ),
        join_records(region, backward_spans_from(region, q).reverse()) == region.subrange(
            first + 1,
            q + 1,
        ),
    decreases q,
{
    lemma_newline_from(region, 0);
    lemma_newline_before(region, q);
    let back = backward_spans_from(region, q);
    match newline_before(region, q) {
        Some(p) => {
            lemma_walks_meet(region, first, p);
            lemma_neighbours(region, p, q);
            let rest = backward_spans_from(region, p);
            assert(back.reverse().drop_last() =~= rest.reverse());
        },
        None => {},
    }
}

/// A backward walk is a forward walk turned round: but for the first record,
/// which a backward walk never yields, both find the same records, in
/// opposite order.
pub proof fn lemma_backward_reverses_forward(region: Seq<u8>)
    ensures
        match newline_from(region, 0) {
            Some(first) => forward_spans(region, 0) == seq![(0int, first)] + backward_spans(
                region,
            ).reverse(),
            None => forward_spans(region, 0).len() == 0 && backward_spans(region).len() == 0,
        },
{
    lemma_newline_from(region, 0);
    lemma_newline_before(region, region.len() as int);
    match newline_from(region, 0) {
        Some(first) => {
            let last = newline_before(region, region.len() as int)->Some_0;
            lemma_walks_meet(region, first, last);
            lemma_newline_from(region, last + 1);
        },
        None => {},
    }
}

/// Putting the records of a backward walk back in file order, a newline
/// after each, gives the region again, from behind its first newline up to
/// and with its last.
pub proof fn lemma_backward_round_trip(region: Seq<u8>)
    ensures
        match newline_from(region, 0) {
            Some(first) => newline_before(region, region.len() as int) is Some && join_records(
                region,
                backward_spans(region).reverse(),
            ) == region.subrange(
                first + 1,
                newline_before(region, region.len() as int)->Some_0 + 1,
            ),
            None => backward_spans(region).len() == 0,
        },
{
    lemma_newline_from(region, 0);
    lemma_newline_before(region, region.len() as int);
    match newline_from(region, 0) {
        Some(first) => {
            let last = newline_before(region, region.len() as int)->Some_0;
            lemma_walks_meet(region, first, last);
        },
        None => {},
    }
}

} // verus!
