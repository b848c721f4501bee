//! The settings that the program cannot run without.

use vstd::prelude::*;

verus! {

/// One of the settings.
#[derive(Debug, Clone, Copy, PartialEq, Eq, Structural)]
pub enum Setting {
    /// Where the store of the alerts is reached.
    Database,
    /// The address of the feed.
    Feed,
    /// The channel of the feed to subscribe to.
    Channel,
    /// The address under which the sheets of names are found.
    MetadataBase,
}

/// Why the settings cannot be used.
#[derive(Debug, Clone, Copy, PartialEq, Eq, Structural)]
pub enum SettingsError {
    /// The setting has no value.
    Missing(Setting),
    /// The address of the feed is no absolute URL.
    FeedAddress,
}

/// The settings, each with its value.
#[derive(Debug)]
pub struct Settings {
    pub database_url: String,
    pub feed_url: String,
    pub channel: String,
    pub metadata_base: String,
}

/// Whether `url::Url::parse` reads the text as an absolute URL.
pub uninterp spec fn is_url(text: Seq<char>) -> bool;

/// Calls `url::Url::parse` and says whether it gave a URL or an error. What
/// it gives depends on the text alone.
#[verifier::external_body]
fn parses_as_url(text: &str) -> (r: bool)
    ensures
        r == is_url(text@),
{
    url::Url::parse(text).is_ok()
}

/// What is wrong with the values, the feed's address having been read as a
/// URL or not: the first setting without a value, in the order database,
/// feed, channel, metadata base; else the feed's address where it is no URL;
/// else nothing.
pub open spec fn fault(
    database_url: Option<String>,
    feed_url: Option<String>,
    channel: Option<String>,
    metadata_base: Option<String>,
    feed_is_url: bool,
) -> Option<SettingsError> {
    if database_url is None {
        Some(SettingsError::Missing(Setting::Database))
    } else if feed_url is None {
        Some(SettingsError::Missing(Setting::Feed))
    } else if channel is None {
        Some(SettingsError::Missing(Setting::Channel))
    } else if metadata_base is None {
        Some(SettingsError::Missing(Setting::MetadataBase))
    } else if !feed_is_url {
        Some(SettingsError::FeedAddress)
    } else {
        None
    }
}

/// Whether the feed's address, where there is one, is read as a URL.
pub open spec fn feed_is_url(feed_url: Option<String>) -> bool {
    feed_url matches Some(address) && is_url(address@)
}

impl Settings {
    /// The settings with the values, where nothing is wrong with them, the
    /// feed's address having been read as a URL or not.
    pub fn assemble(
        database_url: Option<String>,
        feed_url: Option<String>,
        channel: Option<String>,
        metadata_base: Option<String>,
        feed_is_url: bool,
    ) -> (r: Result<Settings, SettingsError>)
        ensures
            match r {
                Ok(settings) => {
                    &&& fault(database_url, feed_url, channel, metadata_base, feed_is_url) is None
                    &&& Some(settings.database_url) == database_url
                    &&& Some(settings.feed_url) == feed_url
                    &&& Some(settings.channel) == channel
                    &&& Some(settings.metadata_base) == metadata_base
                },
                Err(error) => fault(database_url, feed_url, channel, metadata_base, feed_is_url)
                    == Some(error),
            },
    {
        let database_url = match database_url {
            Some(value) => value,
            None => {
                return Err(SettingsError::Missing(Setting::Database));
            },
        };
        let feed_url = match feed_url {
            Some(value) => value,
            None => {
                return Err(SettingsError::Missing(Setting::Feed));
            },
        };
        let channel = match channel {
            Some(value) => value,
            None => {
                return Err(SettingsError::Missing(Setting::Channel));
            },
        };
        let metadata_base = match metadata_base {
            Some(value) => value,
            None => {
                return Err(SettingsError::Missing(Setting::MetadataBase));
            },
        };
        if !feed_is_url {
            return Err(SettingsError::FeedAddress);
        }
        Ok(Settings { database_url, feed_url, channel, metadata_base })
    }

    /// The settings with the values, where every setting has one and the
    /// feed's address is a URL.
    pub fn from_values(
        database_url: Option<String>,
        feed_url: Option<String>,
        channel: Option<String>,
        metadata_base: Option<String>,
    ) -> (r: Result<Settings, SettingsError>)
        ensures
            match r {
                Ok(settings) => {
                    &&& fault(
                        database_url,
                        feed_url,
                        channel,
                        metadata_base,
                        feed_is_url(feed_url),
                    ) is None
                    &&& Some(settings.database_url) == database_url
                    &&& Some(settings.feed_url) == feed_url
                    &&& Some(settings.channel) == channel
                    &&& Some(settings.metadata_base) == metadata_base
                },
                Err(error) => fault(
                    database_url,
                    feed_url,
                    channel,
                    metadata_base,
                    feed_is_url(feed_url),
                ) == Some(error),
            },
    {
        let readable = match &feed_url {
            Some(address) => parses_as_url(address.as_str()),
            None => false,
        };
        Settings::assemble(database_url, feed_url, channel, metadata_base, readable)
    }
}

} // verus!
