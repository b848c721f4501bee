use universalis_alerts::scalar::Scalar;
use universalis_alerts::trigger::{
    AlertTrigger, Comparison, TriggerFilter, TriggerMapper, TriggerReducer,
};

#[test]
fn operators_in_words() {
    assert_eq!(TriggerFilter::Hq.describe(), "Item is HQ");
    assert_eq!(TriggerMapper::UnitPrice.describe(), "Unit price");
    assert_eq!(TriggerReducer::Min.describe(), "Min");
    assert_eq!(TriggerReducer::Max.describe(), "Max");
    assert_eq!(TriggerReducer::Mean.describe(), "Mean");
}

#[test]
fn comparisons_in_words() {
    let lt = Comparison::LessThan { target: Scalar::from_int(150) };
    assert_eq!(lt.describe(), "Less than 150");
    let gt = Comparison::GreaterThan { target: Scalar::new(301, 2).unwrap() };
    assert_eq!(gt.describe(), "Greater than 150.5");
}

#[test]
fn trigger_with_one_filter_in_words() {
    let t = AlertTrigger {
        filters: vec![TriggerFilter::Hq],
        mapper: TriggerMapper::UnitPrice,
        reducer: TriggerReducer::Min,
        comparison: Comparison::LessThan { target: Scalar::from_int(150) },
    };
    assert_eq!(
        t.describe(),
        "Item is HQ\n\nField: Unit price\nStat: Min\nComparison: Less than 150"
    );
}

#[test]
fn trigger_without_filters_in_words() {
    let t = AlertTrigger {
        filters: vec![],
        mapper: TriggerMapper::UnitPrice,
        reducer: TriggerReducer::Mean,
        comparison: Comparison::GreaterThan { target: Scalar::from_int(7) },
    };
    assert_eq!(
        t.describe(),
        "\n\nField: Unit price\nStat: Mean\nComparison: Greater than 7"
    );
}

#[test]
fn filters_are_joined_by_line_breaks() {
    let t = AlertTrigger {
        filters: vec![TriggerFilter::Hq, TriggerFilter::Hq, TriggerFilter::Hq],
        mapper: TriggerMapper::UnitPrice,
        reducer: TriggerReducer::Max,
        comparison: Comparison::LessThan { target: Scalar::from_int(1) },
    };
    assert_eq!(
        t.describe(),
        "Item is HQ\nItem is HQ\nItem is HQ\n\nField: Unit price\nStat: Max\nComparison: Less than 1"
    );
}
