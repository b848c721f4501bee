//! The names under which the parts of a trigger are stored.

use crate::scalar::Scalar;
use crate::trigger::{AlertTrigger, Comparison, TriggerFilter, TriggerMapper, TriggerReducer};
use vstd::prelude::*;
use vstd::string::StringExecFns;

verus! {

/// Whether the two texts are the same.
fn same_text(a: &str, b: &str) -> (r: bool)
    ensures
        r == (a@ == b@),
{
    String::from_str(a) == String::from_str(b)
}

impl TriggerFilter {
    /// The name under which the filter is stored.
    pub open spec fn stored_name(self) -> Seq<char> {
        match self {
            TriggerFilter::Hq => "hq"@,
        }
    }

    /// The filter that is stored under the name, if there is one.
    pub open spec fn named(name: Seq<char>) -> Option<TriggerFilter> {
        if name == "hq"@ {
            Some(TriggerFilter::Hq)
        } else {
            None
        }
    }

    /// The name under which the filter is stored.
    pub fn name(&self) -> (r: &'static str)
        ensures
            r@ == self.stored_name(),
    {
        match self {
            TriggerFilter::Hq => "hq",
        }
    }

    /// The filter that is stored under the name, if there is one.
    pub fn from_name(name: &str) -> (r: Option<TriggerFilter>)
        ensures
            r == TriggerFilter::named(name@),
    {
        if same_text(name, "hq") {
            Some(TriggerFilter::Hq)
        } else {
            None
        }
    }
}

impl TriggerMapper {
    /// The name under which the mapper is stored.
    pub open spec fn stored_name(self) -> Seq<char> {
        match self {
            TriggerMapper::UnitPrice => "pricePerUnit"@,
        }
    }

    /// The mapper that is stored under the name, if there is one.
    pub open spec fn named(name: Seq<char>) -> Option<TriggerMapper> {
        if name == "pricePerUnit"@ {
            Some(TriggerMapper::UnitPrice)
        } else {
            None
        }
    }

    /// The name under which the mapper is stored.
    pub fn name(&self) -> (r: &'static str)
        ensures
            r@ == self.stored_name(),
    {
        match self {
            TriggerMapper::UnitPrice => "pricePerUnit",
        }
    }

    /// The mapper that is stored under the name, if there is one.
    pub fn from_name(name: &str) -> (r: Option<TriggerMapper>)
        ensures
            r == TriggerMapper::named(name@),
    {
        if same_text(name, "pricePerUnit") {
            Some(TriggerMapper::UnitPrice)
        } else {
            None
        }
    }
}

impl TriggerReducer {
    /// The name under which the reducer is stored.
    pub open spec fn stored_name(self) -> Seq<char> {
        match self {
            TriggerReducer::Min => "min"@,
            TriggerReducer::Max => "max"@,
            TriggerReducer::Mean => "mean"@,
        }
    }

    /// The reducer that is stored under the name, if there is one.
    pub open spec fn named(name: Seq<char>) -> Option<TriggerReducer> {
        if name == "min"@ {
            Some(TriggerReducer::Min)
        } else if name == "max"@ {
            Some(TriggerReducer::Max)
        } else if name == "mean"@ {
            Some(TriggerReducer::Mean)
        } else {
            None
        }
    }

    /// The name under which the reducer is stored.
    pub fn name(&self) -> (r: &'static str)
        ensures
            r@ == self.stored_name(),
    {
        match self {
            TriggerReducer::Min => "min",
            TriggerReducer::Max => "max",
            TriggerReducer::Mean => "mean",
        }
    }

    /// The reducer that is stored under the name, if there is one.
    pub fn from_name(name: &str) -> (r: Option<TriggerReducer>)
        ensures
            r == TriggerReducer::named(name@),
    {
        if same_text(name, "min") {
            Some(TriggerReducer::Min)
        } else if same_text(name, "max") {
            Some(TriggerReducer::Max)
        } else if same_text(name, "mean") {
            Some(TriggerReducer::Mean)
        } else {
            None
        }
    }
}

impl Comparison {
    /// The name under which the comparison is stored.
    pub open spec fn stored_name(self) -> Seq<char> {
        match self {
            Comparison::LessThan { .. } => "lt"@,
            Comparison::GreaterThan { .. } => "gt"@,
        }
    }

    /// The number that the comparison holds values against.
    pub open spec fn target(self) -> Scalar {
        match self {
            Comparison::LessThan { target } => target,
            Comparison::GreaterThan { target } => target,
        }
    }

    /// The comparison that is stored under the name, with the target, if
    /// there is one.
    pub open spec fn named(name: Seq<char>, target: Scalar) -> Option<Comparison> {
        if name == "lt"@ {
            Some(Comparison::LessThan { target })
        } else if name == "gt"@ {
            Some(Comparison::GreaterThan { target })
        } else {
            None
        }
    }

    /// The name under which the comparison is stored.
    pub fn name(&self) -> (r: &'static str)
        ensures
            r@ == self.stored_name(),
    {
        match self {
            Comparison::LessThan { .. } => "lt",
            Comparison::GreaterThan { .. } => "gt",
        }
    }

    /// The comparison that is stored under the name, with the target, if
    /// there is one.
    pub fn from_name(name: &str, target: Scalar) -> (r: Option<Comparison>)
        ensures
            r == Comparison::named(name@, target),
    {
        if same_text(name, "lt") {
            Some(Comparison::LessThan { target })
        } else if same_text(name, "gt") {
            Some(Comparison::GreaterThan { target })
        } else {
            None
        }
    }
}

/// Every operator is found again under the name that it is stored under.
pub proof fn lemma_stored_names_are_found_again(
    filter: TriggerFilter,
    mapper: TriggerMapper,
    reducer: TriggerReducer,
    comparison: Comparison,
)
    ensures
        TriggerFilter::named(filter.stored_name()) == Some(filter),
        TriggerMapper::named(mapper.stored_name()) == Some(mapper),
        TriggerReducer::named(reducer.stored_name()) == Some(reducer),
        Comparison::named(comparison.stored_name(), comparison.target()) == Some(comparison),
{
    reveal_strlit("min");
    reveal_strlit("max");
    reveal_strlit("mean");
    reveal_strlit("lt");
    reveal_strlit("gt");
    assert("min"@[1] != "max"@[1]);
    assert("min"@.len() != "mean"@.len());
    assert("max"@.len() != "mean"@.len());
    assert("lt"@[0] != "gt"@[0]);
}

/// The filters that are stored under the names, if every name is one of a
/// filter.
pub open spec fn filters_named(names: Seq<String>) -> Option<Seq<TriggerFilter>>
    decreases names.len(),
{
    if names.len() == 0 {
        Some(Seq::empty())
    } else {
        match (filters_named(names.drop_last()), TriggerFilter::named(names.last()@)) {
            (Some(filters), Some(filter)) => Some(filters.push(filter)),
            _ => None,
        }
    }
}

/// The filters that are stored under the names, if every name is one of a
/// filter.
pub fn filters_from_names(names: &Vec<String>) -> (r: Option<Vec<TriggerFilter>>)
    ensures
        r is Some <==> filters_named(names@) is Some,
        r matches Some(filters) ==> Some(filters@) == filters_named(names@),
{
    let mut filters: Vec<TriggerFilter> = Vec::new();
    let mut i: usize = 0;
    assert(names@.take(0) =~= Seq::<String>::empty());
    while i < names.len()
        invariant
            i <= names.len(),
            filters_named(names@.take(i as int)) == Some(filters@),
        decreases names.len() - i,
    {
        proof {
            assert(names@.take(i + 1).drop_last() =~= names@.take(i as int));
        }
        match TriggerFilter::from_name(names[i].as_str()) {
            Some(filter) => {
                filters.push(filter);
            },
            None => {
                proof {
                    lemma_unknown_filter_spoils(names@, i as int);
                }
                return None;
            },
        }
        i += 1;
    }
    assert(names@.take(i as int) =~= names@);
    Some(filters)
}

/// One name that is not a filter's leaves no filters at all.
proof fn lemma_unknown_filter_spoils(names: Seq<String>, i: int)
    requires
        0 <= i < names.len(),
        TriggerFilter::named(names[i]@) is None,
    ensures
        filters_named(names) is None,
    decreases names.len(),
{
    if i < names.len() - 1 {
        lemma_unknown_filter_spoils(names.drop_last(), i);
    }
}

/// The trigger that is stored under the names, if each of them is known.
pub open spec fn trigger_named(
    filters: Seq<String>,
    mapper: Seq<char>,
    reducer: Seq<char>,
    comparison: Seq<char>,
    target: Scalar,
) -> Option<(Seq<TriggerFilter>, TriggerMapper, TriggerReducer, Comparison)> {
    match (
        filters_named(filters),
        TriggerMapper::named(mapper),
        TriggerReducer::named(reducer),
        Comparison::named(comparison, target),
    ) {
        (Some(f), Some(m), Some(r), Some(c)) => Some((f, m, r, c)),
        _ => None,
    }
}

impl AlertTrigger {
    /// The trigger that is stored under the names, with the target of its
    /// comparison. A name that is not known leaves no trigger: it is not
    /// passed over.
    pub fn from_names(
        filters: &Vec<String>,
        mapper: &str,
        reducer: &str,
        comparison: &str,
        target: Scalar,
    ) -> (r: Option<AlertTrigger>)
        ensures
            r is Some <==> trigger_named(filters@, mapper@, reducer@, comparison@, target) is Some,
            r matches Some(trigger) ==> trigger_named(
                filters@,
                mapper@,
                reducer@,
                comparison@,
                target,
            ) == Some((trigger.filters@, trigger.mapper, trigger.reducer, trigger.comparison)),
    {
        let filters = match filters_from_names(filters) {
            Some(filters) => filters,
            None => {
                return None;
            },
        };
        let mapper = match TriggerMapper::from_name(mapper) {
            Some(mapper) => mapper,
            None => {
                return None;
            },
        };
        let reducer = match TriggerReducer::from_name(reducer) {
            Some(reducer) => reducer,
            None => {
                return None;
            },
        };
        let comparison = match Comparison::from_name(comparison, target) {
            Some(comparison) => comparison,
            None => {
                return None;
            },
        };
        Some(AlertTrigger { filters, mapper, reducer, comparison })
    }

    /// The trigger that a stored text makes, given what the text holds: the
    /// names of its filters, of its mapper and of its reducer, and its
    /// comparisons, each a name with a target. A text holds one comparison;
    /// with none or with more than one it makes no trigger, nor with a name
    /// that is not known.
    pub fn from_document(
        filters: &Vec<String>,
        mapper: &str,
        reducer: &str,
        comparisons: &Vec<(String, Scalar)>,
    ) -> (r: Option<AlertTrigger>)
        ensures
            r is Some <==> comparisons@.len() == 1 && trigger_named(
                filters@,
                mapper@,
                reducer@,
                comparisons@[0].0@,
                comparisons@[0].1,
            ) is Some,
            r matches Some(trigger) ==> trigger_named(
                filters@,
                mapper@,
                reducer@,
                comparisons@[0].0@,
                comparisons@[0].1,
            ) == Some((trigger.filters@, trigger.mapper, trigger.reducer, trigger.comparison)),
    {
        if comparisons.len() != 1 {
            return None;
        }
        AlertTrigger::from_names(
            filters,
            mapper,
            reducer,
            comparisons[0].0.as_str(),
            comparisons[0].1,
        )
    }
}

} // verus!
