use universalis_alerts::settings::{Setting, Settings, SettingsError};

fn some(text: &str) -> Option<String> {
    Some(text.to_string())
}

#[test]
fn complete_settings_are_taken() {
    let settings = Settings::from_values(
        some("mysql://user@localhost/alerts"),
        some("wss://universalis.app/api/ws"),
        some("listings/add{world=74}"),
        some("https://v2.xivapi.com/api/sheet/"),
    )
    .unwrap();
    assert_eq!(settings.database_url, "mysql://user@localhost/alerts");
    assert_eq!(settings.feed_url, "wss://universalis.app/api/ws");
    assert_eq!(settings.channel, "listings/add{world=74}");
    assert_eq!(settings.metadata_base, "https://v2.xivapi.com/api/sheet/");
}

#[test]
fn each_missing_setting_is_named() {
    let db = some("mysql://localhost/alerts");
    let feed = some("wss://universalis.app/api/ws");
    let channel = some("listings/add");
    let base = some("https://v2.xivapi.com/api/sheet/");
    assert_eq!(
        Settings::from_values(None, feed.clone(), channel.clone(), base.clone()).unwrap_err(),
        SettingsError::Missing(Setting::Database)
    );
    assert_eq!(
        Settings::from_values(db.clone(), None, channel.clone(), base.clone()).unwrap_err(),
        SettingsError::Missing(Setting::Feed)
    );
    assert_eq!(
        Settings::from_values(db.clone(), feed.clone(), None, base.clone()).unwrap_err(),
        SettingsError::Missing(Setting::Channel)
    );
    assert_eq!(
        Settings::from_values(db.clone(), feed.clone(), channel.clone(), None).unwrap_err(),
        SettingsError::Missing(Setting::MetadataBase)
    );
}

#[test]
fn first_missing_setting_is_reported() {
    assert_eq!(
        Settings::from_values(None, None, None, None).unwrap_err(),
        SettingsError::Missing(Setting::Database)
    );
    assert_eq!(
        Settings::from_values(some("db"), None, None, None).unwrap_err(),
        SettingsError::Missing(Setting::Feed)
    );
    assert_eq!(
        Settings::from_values(some("db"), some("not a url"), None, some("base")).unwrap_err(),
        SettingsError::Missing(Setting::Channel)
    );
}

#[test]
fn feed_address_has_to_be_a_url() {
    assert_eq!(
        Settings::from_values(some("db"), some("not a url"), some("c"), some("b")).unwrap_err(),
        SettingsError::FeedAddress
    );
    assert_eq!(
        Settings::from_values(some("db"), some("/relative/path"), some("c"), some("b")).unwrap_err(),
        SettingsError::FeedAddress
    );
    assert_eq!(
        Settings::from_values(some("db"), some(""), some("c"), some("b")).unwrap_err(),
        SettingsError::FeedAddress
    );
    assert!(Settings::from_values(some("db"), some("ws://localhost:9000/ws"), some("c"), some("b")).is_ok());
}

#[test]
fn assembling_goes_by_what_the_address_was_read_as() {
    let all = || (some("db"), some("anything"), some("c"), some("b"));
    let (db, feed, channel, base) = all();
    assert!(Settings::assemble(db, feed, channel, base, true).is_ok());
    let (db, feed, channel, base) = all();
    assert_eq!(
        Settings::assemble(db, feed, channel, base, false).unwrap_err(),
        SettingsError::FeedAddress
    );
    assert_eq!(
        Settings::assemble(None, some("f"), some("c"), some("b"), true).unwrap_err(),
        SettingsError::Missing(Setting::Database)
    );
    assert_eq!(
        Settings::assemble(some("db"), some("f"), some("c"), None, false).unwrap_err(),
        SettingsError::Missing(Setting::MetadataBase)
    );
}
