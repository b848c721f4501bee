use universalis_alerts::discord::{get_universalis_url, DiscordMessage, EMBED_COLOR};
use universalis_alerts::scalar::Scalar;
use universalis_alerts::trigger::{
    AlertTrigger, Comparison, TriggerFilter, TriggerMapper, TriggerReducer,
};
use universalis_alerts::xivapi::{Item, World};

fn sample() -> DiscordMessage {
    let trigger = AlertTrigger {
        filters: vec![TriggerFilter::Hq],
        mapper: TriggerMapper::UnitPrice,
        reducer: TriggerReducer::Min,
        comparison: Comparison::LessThan { target: Scalar::from_int(150) },
    };
    DiscordMessage::new(
        39872,
        &Item { name: "Grade 8 Tincture".to_string() },
        &World { name: "Cerberus".to_string() },
        "Cheap tinctures",
        &trigger,
        &Scalar::from_int(100),
    )
}

#[test]
fn market_url_names_item_and_world() {
    assert_eq!(
        get_universalis_url(39872, "Cerberus"),
        "https://universalis.app/market/39872?server=Cerberus"
    );
    assert_eq!(
        get_universalis_url(-1, ""),
        "https://universalis.app/market/-1?server="
    );
}

#[test]
fn message_texts() {
    let message = sample();
    assert_eq!(message.market_url, "https://universalis.app/market/39872?server=Cerberus");
    assert_eq!(message.title, "Alert triggered for Grade 8 Tincture on Cerberus");
    assert_eq!(
        message.footer_text,
        "universalis.app | Cheap tinctures | All prices include GST"
    );
    assert_eq!(
        message.description,
        "One of your alerts has been triggered for the following reason(s):\n```c\nItem is HQ\n\nField: Unit price\nStat: Min\nComparison: Less than 150\n\nValue: 100```\nYou can view the item page on Universalis by clicking [this link](https://universalis.app/market/39872?server=Cerberus)."
    );
}

#[test]
fn message_shows_a_fraction_as_decimal() {
    let trigger = AlertTrigger {
        filters: vec![],
        mapper: TriggerMapper::UnitPrice,
        reducer: TriggerReducer::Mean,
        comparison: Comparison::GreaterThan { target: Scalar::new(21, 2).unwrap() },
    };
    let message = DiscordMessage::new(
        5,
        &Item { name: "Ore".to_string() },
        &World { name: "Ragnarok".to_string() },
        "ore",
        &trigger,
        &Scalar::new(31, 3).unwrap(),
    );
    assert_eq!(
        message.description,
        "One of your alerts has been triggered for the following reason(s):\n```c\n\n\nField: Unit price\nStat: Mean\nComparison: Greater than 10.5\n\nValue: 10.333333```\nYou can view the item page on Universalis by clicking [this link](https://universalis.app/market/5?server=Ragnarok)."
    );
}

#[test]
fn payload_holds_one_embed_with_the_texts_and_the_marks() {
    let message = sample();
    let payload = message.payload();
    assert_eq!(payload.embeds.len(), 1);
    let embed = &payload.embeds[0];
    assert_eq!(embed.url, message.market_url);
    assert_eq!(embed.title, message.title);
    assert_eq!(embed.description, message.description);
    assert_eq!(embed.color, 0xBD983A);
    assert_eq!(EMBED_COLOR, 12425274);
    assert_eq!(embed.footer.text, message.footer_text);
    assert_eq!(embed.footer.icon_url, "https://universalis.app/favicon.png");
    assert_eq!(embed.author.name, "Universalis Alert!");
    assert_eq!(
        embed.author.icon_url,
        "https://cdn.discordapp.com/emojis/474543539771015168.png"
    );
}
