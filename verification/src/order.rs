//! Ordering channels by their counts, and the directives that put the
//! channels of a screen into that order.

use crate::channel::ChannelDescriptor;
use crate::text::{decimal, decimal_text};
use vstd::prelude::*;
use vstd::string::StringExecFns;

verus! {

/// A channel with the number of recent messages that were counted in it.
#[derive(Debug, PartialEq, Eq)]
pub struct RankedChannel {
    pub channel: ChannelDescriptor,
    pub count: usize,
}

impl RankedChannel {
    /// A copy of this entry.
    pub fn duplicate(&self) -> (r: RankedChannel)
        ensures
            r == *self,
    {
        RankedChannel { channel: self.channel.duplicate(), count: self.count }
    }
}

/// Whether `a` must stand before `b`: it has the greater count, or the same
/// count and the smaller display index.
pub open spec fn outranks(a: RankedChannel, b: RankedChannel) -> bool {
    a.count > b.count || (a.count == b.count && a.channel.display_index
        < b.channel.display_index)
}

/// Decides `outranks`.
pub fn outranks_exec(a: &RankedChannel, b: &RankedChannel) -> (r: bool)
    ensures
        r == outranks(*a, *b),
{
    a.count > b.count || (a.count == b.count && a.channel.display_index
        < b.channel.display_index)
}

/// Whether no entry of `s` must stand before an earlier one.
pub open spec fn is_ranked(s: Seq<RankedChannel>) -> bool {
    forall|i: int, j: int| 0 <= i < j < s.len() ==> !outranks(s[j], s[i])
}

/// `sorted` with `x` put in behind every entry that it does not outrank.
pub open spec fn insert_ranked(sorted: Seq<RankedChannel>, x: RankedChannel) -> Seq<RankedChannel>
    decreases sorted.len(),
{
    if sorted.len() > 0 && outranks(x, sorted.last()) {
        insert_ranked(sorted.drop_last(), x).push(sorted.last())
    } else {
        sorted.push(x)
    }
}

/// The entries of `input` in ranked order: greater counts first, and among
/// equal counts smaller display indices first. Entries that agree in both
/// keep the order that they have in `input`.
pub open spec fn ranking(input: Seq<RankedChannel>) -> Seq<RankedChannel>
    decreases input.len(),
{
    if input.len() == 0 {
        Seq::empty()
    } else {
        insert_ranked(ranking(input.drop_last()), input.last())
    }
}

/// Where `insert_ranked` puts `x`: in front of the entries at `pos` and
/// above, all of which it outranks, and behind the entry below `pos`, which
/// it does not outrank.
pub proof fn lemma_insert_position(sorted: Seq<RankedChannel>, x: RankedChannel, pos: int)
    requires
        0 <= pos <= sorted.len(),
        forall|k: int| pos <= k < sorted.len() ==> outranks(x, sorted[k]),
        pos > 0 ==> !outranks(x, sorted[pos - 1]),
    ensures
        insert_ranked(sorted, x) == sorted.insert(pos, x),
    decreases sorted.len(),
{
    if pos < sorted.len() {
        lemma_insert_position(sorted.drop_last(), x, pos);
    }
}

/// Putting an entry into a ranked sequence leaves it ranked, and adds that
/// entry and no other.
pub proof fn lemma_insert_ranked(sorted: Seq<RankedChannel>, x: RankedChannel)
    requires
        is_ranked(sorted),
    ensures
        is_ranked(insert_ranked(sorted, x)),
        insert_ranked(sorted, x).to_multiset() == sorted.to_multiset().insert(x),
        insert_ranked(sorted, x).len() == sorted.len() + 1,
    decreases sorted.len(),
{
    broadcast use vstd::seq_lib::group_to_multiset_ensures;

    if sorted.len() > 0 && outranks(x, sorted.last()) {
        let front = sorted.drop_last();
        let last = sorted.last();
        lemma_insert_ranked(front, x);
        let placed = insert_ranked(front, x);
        assert(front.push(last) =~= sorted);
        assert forall|i: int, j: int| 0 <= i < j < placed.push(last).len() implies !outranks(
            placed.push(last)[j],
            placed.push(last)[i],
        ) by {
            if j == placed.len() {
                let e = placed[i];
                assert(placed.to_multiset().count(e) > 0);
                if e != x {
                    assert(front.contains(e));
                }
            }
        }
    } else {
        assert forall|i: int, j: int| 0 <= i < j < sorted.push(x).len() implies !outranks(
            sorted.push(x)[j],
            sorted.push(x)[i],
        ) by {
            if j == sorted.len() && sorted.len() > 0 {
                assert(!outranks(sorted[sorted.len() - 1], sorted[i]) || i == sorted.len() - 1);
            }
        }
    }
}

/// A ranking is ranked, and holds the entries of its input, each as often
/// as the input does.
pub proof fn lemma_ranking(input: Seq<RankedChannel>)
    ensures
        is_ranked(ranking(input)),
        ranking(input).to_multiset() == input.to_multiset(),
        ranking(input).len() == input.len(),
    decreases input.len(),
{
    broadcast use vstd::seq_lib::group_to_multiset_ensures;

    if input.len() > 0 {
        lemma_ranking(input.drop_last());
        lemma_insert_ranked(ranking(input.drop_last()), input.last());
        assert(input.drop_last().push(input.last()) =~= input);
    }
}

/// A ranking moves nothing that is in order already: ranking a ranked
/// sequence gives that sequence, entries that agree in both keys included.
pub proof fn lemma_ranking_keeps_ranked(s: Seq<RankedChannel>)
    requires
        is_ranked(s),
    ensures
        ranking(s) == s,
    decreases s.len(),
{
    if s.len() > 0 {
        lemma_ranking_keeps_ranked(s.drop_last());
    }
}

/// The test for the entries that have this count and this display index.
pub open spec fn has_keys(count: usize, display_index: u32) -> spec_fn(RankedChannel) -> bool {
    |e: RankedChannel| e.count == count && e.channel.display_index == display_index
}

/// Putting `x` in leaves the entries of any one pair of keys in their order,
/// with `x` behind them where it has those keys itself.
proof fn lemma_insert_is_stable(
    sorted: Seq<RankedChannel>,
    x: RankedChannel,
    count: usize,
    display_index: u32,
)
    ensures
        insert_ranked(sorted, x).filter(has_keys(count, display_index)) == (if has_keys(
            count,
            display_index,
        )(x) {
            sorted.filter(has_keys(count, display_index)).push(x)
        } else {
            sorted.filter(has_keys(count, display_index))
        }),
    decreases sorted.len(),
{
    reveal(Seq::filter);
    let keys = has_keys(count, display_index);
    if sorted.len() > 0 && outranks(x, sorted.last()) {
        let front = sorted.drop_last();
        lemma_insert_is_stable(front, x, count, display_index);
        let placed = insert_ranked(front, x).push(sorted.last());
        assert(placed.drop_last() =~= insert_ranked(front, x));
        assert(placed.last() == sorted.last());
    } else {
        assert(sorted.push(x).drop_last() =~= sorted);
    }
}

/// Ranking is stable: the entries that agree in count and display index
/// stand in a ranking in the order that they have in the input.
pub proof fn lemma_ranking_is_stable(input: Seq<RankedChannel>, count: usize, display_index: u32)
    ensures
        ranking(input).filter(has_keys(count, display_index)) == input.filter(
            has_keys(count, display_index),
        ),
    decreases input.len(),
{
    reveal(Seq::filter);
    if input.len() > 0 {
        lemma_ranking_is_stable(input.drop_last(), count, display_index);
        lemma_insert_is_stable(ranking(input.drop_last()), input.last(), count, display_index);
    }
}

/// Of two entries with the same count, the one with the smaller display
/// index stands first in a ranking; and an entry with a greater count stands
/// before one with a smaller.
pub proof fn lemma_ranking_order(input: Seq<RankedChannel>, i: int, j: int)
    requires
        0 <= i < j < input.len(),
    ensures
        ranking(input)[i].count >= ranking(input)[j].count,
        ranking(input)[i].count == ranking(input)[j].count
            ==> ranking(input)[i].channel.display_index
            <= ranking(input)[j].channel.display_index,
{
    lemma_ranking(input);
    assert(!outranks(ranking(input)[j], ranking(input)[i]));
}

/// Puts the entries of `input` into ranked order.
pub fn rank_order(input: &Vec<RankedChannel>) -> (out: Vec<RankedChannel>)
    ensures
        out@ == ranking(input@),
        is_ranked(out@),
        out@.to_multiset() == input@.to_multiset(),
{
    let mut out: Vec<RankedChannel> = Vec::new();
    let mut i: usize = 0;
    while i < input.len()
        invariant
            i <= input.len(),
            out@ == ranking(input@.take(i as int)),
        decreases input.len() - i,
    {
        let x = input[i].duplicate();
        let mut pos: usize = out.len();
        while pos > 0 && outranks_exec(&x, &out[pos - 1])
            invariant
                pos <= out.len(),
                forall|k: int| pos <= k < out@.len() ==> outranks(x, out@[k]),
            decreases pos,
        {
            pos -= 1;
        }
        proof {
            lemma_insert_position(out@, x, pos as int);
            assert(input@.take(i + 1).drop_last() =~= input@.take(i as int));
        }
        out.insert(pos, x);
        i += 1;
    }
    proof {
        assert(input@.take(i as int) =~= input@);
        lemma_ranking(input@);
    }
    out
}

/// The screen position that the first channel of a ranking is moved to.
/// The positions below it belong to windows that are no channels.
pub const FIRST_POSITION: usize = 2;

/// One instruction to the chat client.
#[derive(Debug, PartialEq, Eq)]
pub enum Directive {
    /// Select the window of a channel.
    Select { server_id: String, channel_id: String },
    /// Move the selected window to a position on the screen.
    Move { position: usize },
}

impl Directive {
    /// The line that `text` builds.
    pub open spec fn spec_text(&self) -> Seq<char> {
        match self {
            Directive::Select { server_id, channel_id } => "/buffer "@ + server_id@ + ".#"@
                + channel_id@,
            Directive::Move { position } => "/buffer move "@ + decimal_text(*position as nat),
        }
    }

    /// Writes the directive as the line that the chat client reads.
    pub fn text(&self) -> (r: String)
        ensures
            r@ == self.spec_text(),
    {
        match self {
            Directive::Select { server_id, channel_id } => {
                let mut out = String::from_str("/buffer ");
                out.append(server_id.as_str());
                out.append(".#");
                out.append(channel_id.as_str());
                out
            },
            Directive::Move { position } => {
                let number = decimal(*position);
                let mut out = String::from_str("/buffer move ");
                out.append(number.as_str());
                out
            },
        }
    }
}

/// The directives that bring a screen into the order of `ranked`: for each
/// channel in turn one that selects it and one that moves it, the first
/// channel to `FIRST_POSITION` and each next one position further.
pub open spec fn directives_of(ranked: Seq<RankedChannel>) -> Seq<Directive> {
    Seq::new(
        2 * ranked.len(),
        |k: int|
            if k % 2 == 0 {
                Directive::Select {
                    server_id: ranked[k / 2].channel.server_id,
                    channel_id: ranked[k / 2].channel.channel_id,
                }
            } else {
                Directive::Move { position: (k / 2 + FIRST_POSITION) as usize }
            },
    )
}

/// Builds the directives that bring a screen into the order of `ranked`.
pub fn directives(ranked: &Vec<RankedChannel>) -> (out: Vec<Directive>)
    requires
        ranked@.len() + FIRST_POSITION <= usize::MAX,
    ensures
        out@ == directives_of(ranked@),
{
    let mut out: Vec<Directive> = Vec::new();
    let mut i: usize = 0;
    while i < ranked.len()
        invariant
            i <= ranked.len(),
            ranked@.len() + FIRST_POSITION <= usize::MAX,
            out@ == directives_of(ranked@.take(i as int)),
        decreases ranked.len() - i,
    {
        let select = Directive::Select {
            server_id: ranked[i].channel.server_id.clone(),
            channel_id: ranked[i].channel.channel_id.clone(),
        };
        let place = Directive::Move { position: i + FIRST_POSITION };
        out.push(select);
        out.push(place);
        i += 1;
    }
    out
}

} // verus!
