//! Channels and the files that hold their transcripts.

use vstd::prelude::*;
use vstd::string::StringExecFns;

verus! {

/// What `str::to_lowercase` makes of a text.
pub uninterp spec fn lowercase(text: Seq<char>) -> Seq<char>;

/// `str::to_lowercase`: the lowercase form depends on the text alone.
#[verifier::external_body]
pub(crate) fn to_lowercase(text: &str) -> (r: String)
    ensures
        r@ == lowercase(text@),
{
    text.to_lowercase()
}

/// One channel of one server, with the place it has on the screen.
#[derive(Debug, PartialEq, Eq)]
pub struct ChannelDescriptor {
    pub server_id: String,
    pub channel_id: String,
    pub display_index: u32,
}

/// A channel together with the bytes of its transcript.
#[derive(Debug, PartialEq, Eq)]
pub struct ChannelLog<'a> {
    pub channel: ChannelDescriptor,
    pub region: &'a [u8],
}

/// The name of the file that holds the transcript of `channel` on `server`.
pub open spec fn file_name_of(server: Seq<char>, channel: Seq<char>) -> Seq<char> {
    "irc."@ + lowercase(server) + ".#"@ + lowercase(channel) + ".weechatlog"@
}

impl ChannelDescriptor {
    /// The name of this channel's transcript file.
    pub open spec fn spec_file_name(&self) -> Seq<char> {
        file_name_of(self.server_id@, self.channel_id@)
    }

    /// Builds the name of this channel's transcript file.
    pub fn file_name(&self) -> (r: String)
        ensures
            r@ == self.spec_file_name(),
    {
        let server = to_lowercase(self.server_id.as_str());
        let channel = to_lowercase(self.channel_id.as_str());
        let mut name = String::from_str("irc.");
        name.append(server.as_str());
        name.append(".#");
        name.append(channel.as_str());
        name.append(".weechatlog");
        name
    }

    /// Builds the path of this channel's transcript file below
    /// `log_directory`.
    pub fn log_path(&self, log_directory: &str) -> (r: String)
        ensures
            r@ == log_directory@ + "/"@ + self.spec_file_name(),
    {
        let name = self.file_name();
        let mut path = String::from_str(log_directory);
        path.append("/");
        path.append(name.as_str());
        path
    }

    /// A copy of this descriptor.
    pub fn duplicate(&self) -> (r: ChannelDescriptor)
        ensures
            r == *self,
    {
        ChannelDescriptor {
            server_id: self.server_id.clone(),
            channel_id: self.channel_id.clone(),
            display_index: self.display_index,
        }
    }
}

} // verus!
