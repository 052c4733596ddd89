//! Finding the channels in the lines of a client configuration.

use crate::channel::ChannelDescriptor;
use crate::error::SetupError;
use crate::pattern::{captures, compile, regex_captures, regex_of};
use crate::text::is_digit;
use vstd::prelude::*;
use vstd::string::StringSliceAdditionalSpecFns;
use vstd::utf8::encode_utf8;

verus! {

/// The shape of a line that names a channel: the server, the channel and the
/// display index are its three groups.
pub const BUFFER_PATTERN: &'static str = r#"^default\.buffer = "irc;(\w+?)\.#([-\w]+?);(\d+)"$"#;

/// The number that the ASCII digits `b` write in decimal.
pub open spec fn decimal_value(b: Seq<u8>) -> nat
    decreases b.len(),
{
    if b.len() == 0 {
        0
    } else {
        decimal_value(b.drop_last()) * 10 + (b.last() - 0x30) as nat
    }
}

/// Whether every byte of `b` is an ASCII digit.
pub open spec fn all_digits(b: Seq<u8>) -> bool {
    forall|k: int| 0 <= k < b.len() ==> is_digit(#[trigger] b[k])
}

/// The display index that `b` writes: a number of one or more ASCII digits
/// that fits 32 bits.
pub open spec fn index_of(b: Seq<u8>) -> Option<u32> {
    if b.len() > 0 && all_digits(b) && decimal_value(b) <= u32::MAX {
        Some(decimal_value(b) as u32)
    } else {
        None
    }
}

/// More digits never write a smaller number.
proof fn lemma_decimal_value_grows(b: Seq<u8>, k: int)
    requires
        all_digits(b),
        0 <= k <= b.len(),
    ensures
        decimal_value(b.take(k)) <= decimal_value(b),
    decreases b.len(),
{
    if k < b.len() {
        let front = b.drop_last();
        assert(all_digits(front));
        lemma_decimal_value_grows(front, k);
        assert(front.take(k) =~= b.take(k));
    } else {
        assert(b.take(k) =~= b);
    }
}

/// Reads a display index.
pub fn parse_index(text: &[u8]) -> (r: Option<u32>)
    ensures
        r == index_of(text@),
{
    if text.len() == 0 {
        return None;
    }
    let mut i: usize = 0;
    while i < text.len()
        invariant
            i <= text.len(),
            forall|k: int| 0 <= k < i ==> is_digit(#[trigger] text@[k]),
        decreases text.len() - i,
    {
        if text[i] < 0x30 || text[i] > 0x39 {
            return None;
        }
        i += 1;
    }
    let mut value: u64 = 0;
    let mut j: usize = 0;
    while j < text.len()
        invariant
            j <= text.len(),
            all_digits(text@),
            value == decimal_value(text@.take(j as int)),
            value <= u32::MAX,
        decreases text.len() - j,
    {
        let digit: u64 = (text[j] - 0x30) as u64;
        proof {
            assert(text@.take(j + 1).drop_last() =~= text@.take(j as int));
        }
        value = value * 10 + digit;
        j += 1;
        if value > 0xffff_ffff {
            proof {
                lemma_decimal_value_grows(text@, j as int);
            }
            return None;
        }
    }
    proof {
        assert(text@.take(j as int) =~= text@);
    }
    Some(value as u32)
}

/// What a descriptor holds, as plain values.
pub struct ChannelModel {
    pub server_id: Seq<char>,
    pub channel_id: Seq<char>,
    pub display_index: u32,
}

/// The plain values of a descriptor.
pub open spec fn model_of(d: ChannelDescriptor) -> ChannelModel {
    ChannelModel {
        server_id: d.server_id@,
        channel_id: d.channel_id@,
        display_index: d.display_index,
    }
}

/// The plain values of each descriptor in turn.
pub open spec fn models_of(v: Seq<ChannelDescriptor>) -> Seq<ChannelModel> {
    v.map_values(|d: ChannelDescriptor| model_of(d))
}

/// The channel that the groups captured from a line name. There is none
/// where the line did not match, where a group took no part, or where the
/// display index cannot be read.
pub open spec fn channel_of_groups(groups: Option<Seq<Option<Seq<char>>>>) -> Option<ChannelModel> {
    match groups {
        Some(g) => if g.len() == 4 && g[1] is Some && g[2] is Some && g[3] is Some && index_of(
            encode_utf8(g[3]->Some_0),
        ) is Some {
            Some(
                ChannelModel {
                    server_id: g[1]->Some_0,
                    channel_id: g[2]->Some_0,
                    display_index: index_of(encode_utf8(g[3]->Some_0))->Some_0,
                },
            )
        } else {
            None
        },
        None => None,
    }
}

/// The channel that a line names, if it names one.
pub open spec fn channel_of_line(line: Seq<char>) -> Option<ChannelModel> {
    channel_of_groups(regex_captures(regex_of(BUFFER_PATTERN@), line))
}

/// The channels that `lines` name, in the order of the lines. Lines that
/// name no channel are passed over.
pub open spec fn channels_of_lines(lines: Seq<Seq<char>>) -> Seq<ChannelModel>
    decreases lines.len(),
{
    if lines.len() == 0 {
        Seq::empty()
    } else {
        match channel_of_line(lines.last()) {
            Some(c) => channels_of_lines(lines.drop_last()).push(c),
            None => channels_of_lines(lines.drop_last()),
        }
    }
}

/// Makes a descriptor of the groups that were captured from a line.
pub fn descriptor_from_groups(groups: &Option<Vec<Option<String>>>) -> (r: Option<
    ChannelDescriptor,
>)
    ensures
        match r {
            Some(d) => channel_of_groups(groups.deep_view()) == Some(model_of(d)),
            None => channel_of_groups(groups.deep_view()) is None,
        },
{
    match groups {
        None => None,
        Some(g) => {
            if g.len() != 4 {
                return None;
            }
            match (&g[1], &g[2], &g[3]) {
                (Some(server), Some(channel), Some(index)) => {
                    match parse_index(index.as_str().as_bytes()) {
                        Some(display_index) => Some(
                            ChannelDescriptor {
                                server_id: server.clone(),
                                channel_id: channel.clone(),
                                display_index,
                            },
                        ),
                        None => None,
                    }
                },
                _ => None,
            }
        },
    }
}

/// Finds channels in configuration lines.
pub struct ChannelLocator {
    pattern: regex::Regex,
}

impl ChannelLocator {
    #[verifier::type_invariant]
    spec fn well_formed(&self) -> bool {
        self.pattern == regex_of(BUFFER_PATTERN@)
    }

    /// Sets up a locator. This fails only where `BUFFER_PATTERN` is not
    /// accepted as an expression.
    pub fn new() -> (r: Result<ChannelLocator, SetupError>)
        ensures
            r is Err ==> r->Err_0 == SetupError::InvalidPattern,
    {
        ChannelLocator::from_compiled(compile(BUFFER_PATTERN))
    }

    /// Makes a locator of what compiling `BUFFER_PATTERN` gave: there is one
    /// exactly where an expression was compiled.
    pub fn from_compiled(compiled: Result<regex::Regex, regex::Error>) -> (r: Result<
        ChannelLocator,
        SetupError,
    >)
        requires
            compiled is Ok ==> compiled->Ok_0 == regex_of(BUFFER_PATTERN@),
        ensures
            r is Ok <==> compiled is Ok,
            r is Err ==> r->Err_0 == SetupError::InvalidPattern,
    {
        match compiled {
            Ok(pattern) => Ok(ChannelLocator { pattern }),
            Err(_) => Err(SetupError::InvalidPattern),
        }
    }

    /// Reads one line: the channel that it names, if it names one.
    pub fn parse_line(&self, line: &str) -> (r: Option<ChannelDescriptor>)
        ensures
            match r {
                Some(d) => channel_of_line(line@) == Some(model_of(d)),
                None => channel_of_line(line@) is None,
            },
    {
        proof {
            use_type_invariant(self);
        }
        let groups = captures(&self.pattern, line);
        descriptor_from_groups(&groups)
    }

    /// Reads all lines and lists the channels that they name, in the order
    /// of the lines.
    pub fn locate(&self, lines: &Vec<String>) -> (r: Vec<ChannelDescriptor>)
        ensures
            models_of(r@) == channels_of_lines(lines.deep_view()),
    {
        let mut out: Vec<ChannelDescriptor> = Vec::new();
        let mut i: usize = 0;
        while i < lines.len()
            invariant
                i <= lines.len(),
                models_of(out@) == channels_of_lines(lines.deep_view().take(i as int)),
            decreases lines.len() - i,
        {
            proof {
                let upto = lines.deep_view().take(i + 1);
                assert(upto.drop_last() =~= lines.deep_view().take(i as int));
            }
            match self.parse_line(lines[i].as_str()) {
                Some(d) => {
                    out.push(d);
                },
                None => {},
            }
            i += 1;
        }
        proof {
            assert(lines.deep_view().take(i as int) =~= lines.deep_view());
        }
        out
    }
}

} // verus!
