//! The notification that a matched alert sends.

use crate::scalar::Scalar;
use crate::text::{push_signed_decimal, signed_decimal};
use crate::trigger::AlertTrigger;
use crate::xivapi::{Item, World};
use vstd::prelude::*;
use vstd::string::StringExecFns;

verus! {

/// The line under an embed.
#[derive(Debug, Clone)]
pub struct DiscordEmbedFooter<'a> {
    pub text: &'a str,
    pub icon_url: &'a str,
}

/// The line over an embed.
#[derive(Debug, Clone)]
pub struct DiscordEmbedAuthor<'a> {
    pub name: &'a str,
    pub icon_url: &'a str,
}

/// One framed block of a notification.
#[derive(Debug, Clone)]
pub struct DiscordEmbed<'a> {
    pub url: &'a str,
    pub title: &'a str,
    pub description: &'a str,
    pub color: u32,
    pub footer: DiscordEmbedFooter<'a>,
    pub author: DiscordEmbedAuthor<'a>,
}

/// What is sent to an alert's endpoint.
#[derive(Debug)]
pub struct DiscordWebhookPayload<'a> {
    pub embeds: Vec<DiscordEmbed<'a>>,
}

/// The colour of every embed.
pub const EMBED_COLOR: u32 = 0xBD983A;

/// The page of an item's market on a world.
pub open spec fn market_url(item_id: int, world_name: Seq<char>) -> Seq<char> {
    "https://universalis.app/market/"@ + signed_decimal(item_id) + "?server="@ + world_name
}

/// The heading of a notification.
pub open spec fn embed_title(item_name: Seq<char>, world_name: Seq<char>) -> Seq<char> {
    "Alert triggered for "@ + item_name + " on "@ + world_name
}

/// The line under a notification, with the alert's name.
pub open spec fn embed_footer_text(alert_name: Seq<char>) -> Seq<char> {
    "universalis.app | "@ + alert_name + " | All prices include GST"@
}

/// The body of a notification: the trigger in words, the number that it
/// reached, and a link to the market page.
pub open spec fn embed_description(trigger: Seq<char>, value: Seq<char>, url: Seq<char>) -> Seq<
    char,
> {
    "One of your alerts has been triggered for the following reason(s):\n```c\n"@ + trigger
        + "\n\nValue: "@ + value
        + "```\nYou can view the item page on Universalis by clicking [this link]("@ + url
        + ")."@
}

/// The page of an item's market on a world.
pub fn get_universalis_url(item_id: i32, world_name: &str) -> (r: String)
    ensures
        r@ == market_url(item_id as int, world_name@),
{
    let mut out = String::from_str("https://universalis.app/market/");
    push_signed_decimal(&mut out, item_id as i64);
    out.append("?server=");
    out.append(world_name);
    out
}

/// The texts of one notification that are made for the alert at hand; the
/// rest of a notification is the same for all.
#[derive(Debug)]
pub struct DiscordMessage {
    pub market_url: String,
    pub title: String,
    pub description: String,
    pub footer_text: String,
}

impl DiscordMessage {
    /// The texts of the notification that tells that `trigger` has reached
    /// `trigger_result` for the item on the world.
    pub fn new(
        item_id: i32,
        item: &Item,
        world: &World,
        alert_name: &str,
        trigger: &AlertTrigger,
        trigger_result: &Scalar,
    ) -> (r: DiscordMessage)
        ensures
            r.market_url@ == market_url(item_id as int, world.name@),
            r.title@ == embed_title(item.name@, world.name@),
            r.footer_text@ == embed_footer_text(alert_name@),
            r.description@ == embed_description(
                trigger.description(),
                trigger_result.text(),
                market_url(item_id as int, world.name@),
            ),
    {
        let market_url = get_universalis_url(item_id, world.name.as_str());
        let mut title = String::from_str("Alert triggered for ");
        title.append(item.name.as_str());
        title.append(" on ");
        title.append(world.name.as_str());
        let mut footer_text = String::from_str("universalis.app | ");
        footer_text.append(alert_name);
        footer_text.append(" | All prices include GST");
        let mut description = String::from_str(
            "One of your alerts has been triggered for the following reason(s):\n```c\n",
        );
        description.append(trigger.describe().as_str());
        description.append("\n\nValue: ");
        description.append(trigger_result.to_text().as_str());
        description.append(
            "```\nYou can view the item page on Universalis by clicking [this link](",
        );
        description.append(market_url.as_str());
        description.append(").");
        DiscordMessage { market_url, title, description, footer_text }
    }

    /// The notification in the shape in which it is sent: one embed with the
    /// texts of the message and the marks that every notification bears.
    pub fn payload<'a>(&'a self) -> (r: DiscordWebhookPayload<'a>)
        ensures
            r.embeds@.len() == 1,
            r.embeds@[0].url@ == self.market_url@,
            r.embeds@[0].title@ == self.title@,
            r.embeds@[0].description@ == self.description@,
            r.embeds@[0].color == EMBED_COLOR,
            r.embeds@[0].footer.text@ == self.footer_text@,
            r.embeds@[0].footer.icon_url@ == "https://universalis.app/favicon.png"@,
            r.embeds@[0].author.name@ == "Universalis Alert!"@,
            r.embeds@[0].author.icon_url@
                == "https://cdn.discordapp.com/emojis/474543539771015168.png"@,
    {
        let embed = DiscordEmbed {
            url: self.market_url.as_str(),
            title: self.title.as_str(),
            description: self.description.as_str(),
            color: EMBED_COLOR,
            footer: DiscordEmbedFooter {
                text: self.footer_text.as_str(),
                icon_url: "https://universalis.app/favicon.png",
            },
            author: DiscordEmbedAuthor {
                name: "Universalis Alert!",
                icon_url: "https://cdn.discordapp.com/emojis/474543539771015168.png",
            },
        };
        let mut embeds: Vec<DiscordEmbed<'a>> = Vec::new();
        embeds.push(embed);
        DiscordWebhookPayload { embeds }
    }
}

} // verus!
