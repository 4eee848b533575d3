//! The channels that the bot works in, as the environment names them.

use crate::text::parse_u64;
use crate::text::parsed_u64;
use vstd::prelude::*;

verus! {

/// The ids of the moderators' channel, of the channel of the action log
/// and, where one is set, of the channel of the game client's feed.
#[derive(Clone, Copy, Debug, PartialEq, Eq, Structural)]
pub struct Config {
    pub mod_channel_id: u64,
    pub log_channel_id: u64,
    pub runelite_channel_id: Option<u64>,
}

/// The id that an optional variable writes, if it is set and writes one.
pub open spec fn id_of(var: Option<&str>) -> Option<u64> {
    match var {
        Some(text) => parsed_u64(text@),
        None => None,
    }
}

/// The configuration that three variables give: none without an id for the
/// moderators' channel; the log goes to the moderators' channel where it
/// has no id of its own; the feed channel is optional.
pub open spec fn config_of(
    mod_channel: Option<&str>,
    log_channel: Option<&str>,
    feed_channel: Option<&str>,
) -> Option<Config> {
    match id_of(mod_channel) {
        Some(mod_id) => Some(
            Config {
                mod_channel_id: mod_id,
                log_channel_id: match id_of(log_channel) {
                    Some(id) => id,
                    None => mod_id,
                },
                runelite_channel_id: id_of(feed_channel),
            },
        ),
        None => None,
    }
}

fn read_id(var: Option<&str>) -> (r: Option<u64>)
    ensures
        r == id_of(var),
{
    match var {
        Some(text) => parse_u64(text),
        None => None,
    }
}

impl Config {
    /// Reads the configuration from the values of the variables for the
    /// moderators' channel, the log channel and the feed channel, each
    /// `None` where the variable is not set.
    pub fn from_vars(
        mod_channel: Option<&str>,
        log_channel: Option<&str>,
        feed_channel: Option<&str>,
    ) -> (r: Option<Config>)
        ensures
            r == config_of(mod_channel, log_channel, feed_channel),
    {
        let mod_id = match read_id(mod_channel) {
            Some(id) => id,
            None => {
                return None;
            },
        };
        let log_id = match read_id(log_channel) {
            Some(id) => id,
            None => mod_id,
        };
        Some(
            Config {
                mod_channel_id: mod_id,
                log_channel_id: log_id,
                runelite_channel_id: read_id(feed_channel),
            },
        )
    }
}

} // verus!
