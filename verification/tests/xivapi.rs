use universalis_alerts::xivapi::{item_url, world_url, Item, Row, World};

const BASE: &str = "https://v2.xivapi.com/api/sheet/";

#[test]
fn item_sheet_address() {
    assert_eq!(
        item_url(BASE, 39872),
        "https://v2.xivapi.com/api/sheet/Item/39872?language=en&fields=Name"
    );
    assert_eq!(
        item_url(BASE, 0),
        "https://v2.xivapi.com/api/sheet/Item/0?language=en&fields=Name"
    );
}

#[test]
fn world_sheet_address() {
    assert_eq!(
        world_url(BASE, 74),
        "https://v2.xivapi.com/api/sheet/World/74?language=en&fields=Name"
    );
    assert_eq!(
        world_url(BASE, -5),
        "https://v2.xivapi.com/api/sheet/World/-5?language=en&fields=Name"
    );
    assert_eq!(
        world_url(BASE, i32::MAX),
        "https://v2.xivapi.com/api/sheet/World/2147483647?language=en&fields=Name"
    );
}

#[test]
fn row_gives_its_fields() {
    let row = Row { fields: Item { name: "Grade 8 Tincture".to_string() } };
    assert_eq!(row.into_fields().name, "Grade 8 Tincture");
    let row = Row { fields: World { name: "Cerberus".to_string() } };
    assert_eq!(row.fields.name, "Cerberus");
}

#[test]
fn sheet_address_starts_with_the_base_as_given() {
    assert_eq!(item_url("http://localhost:8080/", 1), "http://localhost:8080/Item/1?language=en&fields=Name");
    assert_eq!(world_url("", 2), "World/2?language=en&fields=Name");
}
