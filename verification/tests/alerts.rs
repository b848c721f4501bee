use universalis_alerts::alerts::{
    collect_readable, match_alerts, AlertQuery, UserAlert, ANY_ITEM, MAX_TRIGGER_VERSION,
    MIN_TRIGGER_VERSION,
};
use universalis_alerts::scalar::Scalar;
use universalis_alerts::trigger::{
    AlertTrigger, Comparison, TriggerFilter, TriggerMapper, TriggerReducer,
};
use universalis_alerts::universalis::Listing;

fn alert(name: &str) -> UserAlert {
    UserAlert {
        user_id: Some(format!("user-{}", name)),
        name: name.to_string(),
        discord_webhook: Some(format!("https://discord.example/{}", name)),
        trigger: String::new(),
    }
}

fn min_below(target: i64, filters: Vec<TriggerFilter>) -> AlertTrigger {
    AlertTrigger {
        filters,
        mapper: TriggerMapper::UnitPrice,
        reducer: TriggerReducer::Min,
        comparison: Comparison::LessThan { target: Scalar::from_int(target) },
    }
}

#[test]
fn query_asks_for_the_item_and_for_every_item() {
    let query = AlertQuery::new(74, 39872);
    assert_eq!(query.world_id, 74);
    assert_eq!(query.item_id, 39872);
    assert_eq!(query.any_item_id, -1);
    assert_eq!(query.min_trigger_version, 0);
    assert_eq!(query.max_trigger_version, 0);
    assert_eq!(ANY_ITEM, -1);
    assert_eq!(MIN_TRIGGER_VERSION, 0);
    assert_eq!(MAX_TRIGGER_VERSION, 0);
}

#[test]
fn query_selects_by_world_item_and_version() {
    let query = AlertQuery::new(74, 39872);
    assert!(query.matches(74, 39872, 0));
    assert!(query.matches(74, -1, 0));
    assert!(!query.matches(75, 39872, 0));
    assert!(!query.matches(74, 5, 0));
    assert!(!query.matches(74, 39872, 1));
    assert!(!query.matches(74, 39872, -1));
    assert!(!query.matches(75, -1, 0));
}

#[test]
fn unreadable_rows_are_passed_over() {
    let rows = vec![
        (alert("a"), Some(min_below(10, vec![]))),
        (alert("broken"), None),
        (alert("b"), Some(min_below(20, vec![TriggerFilter::Hq]))),
        (alert("also broken"), None),
    ];
    let kept = collect_readable(rows);
    assert_eq!(kept.len(), 2);
    assert_eq!(kept[0].0.name, "a");
    assert_eq!(kept[0].1.filters.len(), 0);
    assert_eq!(kept[1].0.name, "b");
    assert_eq!(kept[1].1.filters, vec![TriggerFilter::Hq]);
}

#[test]
fn unreadable_row_does_not_stop_the_evaluation_of_the_others() {
    let rows = vec![
        (alert("broken"), None),
        (alert("valid"), Some(min_below(150, vec![]))),
    ];
    let kept = collect_readable(rows);
    let listings = [Listing { unit_price: 100, quantity: 1, hq: false }];
    let found = match_alerts(kept, &listings);
    assert_eq!(found.len(), 1);
    assert_eq!(found[0].0.name, "valid");
    assert!(found[0].2 == Scalar::from_int(100));
}

#[test]
fn no_rows_give_no_alerts() {
    assert!(collect_readable(vec![]).is_empty());
    assert!(collect_readable(vec![(alert("x"), None)]).is_empty());
}

#[test]
fn matching_keeps_the_alerts_whose_trigger_gives_a_number() {
    let alerts = vec![
        (alert("cheap"), min_below(150, vec![])),
        (alert("very cheap"), min_below(50, vec![])),
        (alert("cheap hq"), min_below(150, vec![TriggerFilter::Hq])),
        (alert("any"), min_below(1000, vec![])),
    ];
    let listings = [
        Listing { unit_price: 100, quantity: 1, hq: false },
        Listing { unit_price: 120, quantity: 3, hq: true },
    ];
    let found = match_alerts(alerts, &listings);
    assert_eq!(found.len(), 3);
    assert_eq!(found[0].0.name, "cheap");
    assert!(found[0].2 == Scalar::from_int(100));
    assert_eq!(found[1].0.name, "cheap hq");
    assert_eq!(found[1].1.filters, vec![TriggerFilter::Hq]);
    assert!(found[1].2 == Scalar::from_int(120));
    assert_eq!(found[2].0.name, "any");
    assert!(found[2].2 == Scalar::from_int(100));
}

#[test]
fn matching_without_listings_finds_nothing() {
    let alerts = vec![(alert("a"), min_below(150, vec![]))];
    assert!(match_alerts(alerts, &[]).is_empty());
    assert!(match_alerts(vec![], &[Listing { unit_price: 1, quantity: 1, hq: true }]).is_empty());
}
