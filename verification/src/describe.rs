//! Triggers in words, as a notification shows them.

use crate::text::{contents, intersperse, joined};
use crate::trigger::{AlertTrigger, Comparison, TriggerFilter, TriggerMapper, TriggerReducer};
use vstd::prelude::*;
use vstd::string::StringExecFns;

verus! {

impl TriggerFilter {
    /// The filter in words.
    pub open spec fn description(self) -> Seq<char> {
        match self {
            TriggerFilter::Hq => "Item is HQ"@,
        }
    }

    /// The filter in words.
    pub fn describe(&self) -> (r: String)
        ensures
            r@ == self.description(),
    {
        match self {
            TriggerFilter::Hq => String::from_str("Item is HQ"),
        }
    }
}

impl TriggerMapper {
    /// The mapper in words.
    pub open spec fn description(self) -> Seq<char> {
        match self {
            TriggerMapper::UnitPrice => "Unit price"@,
        }
    }

    /// The mapper in words.
    pub fn describe(&self) -> (r: String)
        ensures
            r@ == self.description(),
    {
        match self {
            TriggerMapper::UnitPrice => String::from_str("Unit price"),
        }
    }
}

impl TriggerReducer {
    /// The reducer in words.
    pub open spec fn description(self) -> Seq<char> {
        match self {
            TriggerReducer::Min => "Min"@,
            TriggerReducer::Max => "Max"@,
            TriggerReducer::Mean => "Mean"@,
        }
    }

    /// The reducer in words.
    pub fn describe(&self) -> (r: String)
        ensures
            r@ == self.description(),
    {
        match self {
            TriggerReducer::Min => String::from_str("Min"),
            TriggerReducer::Max => String::from_str("Max"),
            TriggerReducer::Mean => String::from_str("Mean"),
        }
    }
}

impl Comparison {
    /// The comparison in words, with its target in decimal.
    pub open spec fn description(self) -> Seq<char> {
        match self {
            Comparison::LessThan { target } => "Less than "@ + target.text(),
            Comparison::GreaterThan { target } => "Greater than "@ + target.text(),
        }
    }

    /// The comparison in words, with its target in decimal.
    pub fn describe(&self) -> (r: String)
        ensures
            r@ == self.description(),
    {
        match self {
            Comparison::LessThan { target } => {
                let mut out = String::from_str("Less than ");
                out.append(target.to_text().as_str());
                out
            },
            Comparison::GreaterThan { target } => {
                let mut out = String::from_str("Greater than ");
                out.append(target.to_text().as_str());
                out
            },
        }
    }
}

/// The descriptions of the filters, in their order.
pub open spec fn filter_lines(filters: Seq<TriggerFilter>) -> Seq<Seq<char>> {
    filters.map_values(|filter: TriggerFilter| filter.description())
}

impl AlertTrigger {
    /// The filters, one to a line; an empty line; then the measured field,
    /// the reducer and the comparison, one to a line under their headings.
    pub open spec fn description(self) -> Seq<char> {
        joined(filter_lines(self.filters@), "\n"@) + "\n\nField: "@ + self.mapper.description()
            + "\nStat: "@ + self.reducer.description() + "\nComparison: "@
            + self.comparison.description()
    }

    /// The trigger in words, as `description` lays it out.
    pub fn describe(&self) -> (r: String)
        ensures
            r@ == self.description(),
    {
        let mut lines: Vec<String> = Vec::new();
        let mut i: usize = 0;
        while i < self.filters.len()
            invariant
                i <= self.filters.len(),
                lines@.len() == i,
                contents(lines@) == filter_lines(self.filters@.take(i as int)),
            decreases self.filters.len() - i,
        {
            let ghost before = lines@;
            let line = self.filters[i].describe();
            lines.push(line);
            i += 1;
            proof {
                let told = contents(lines@);
                let owed = filter_lines(self.filters@.take(i as int));
                assert(told.len() == owed.len());
                assert forall|j: int| 0 <= j < told.len() implies told[j] == owed[j] by {
                    if j < i - 1 {
                        assert(told[j] == contents(before)[j]);
                        assert(owed[j] == filter_lines(self.filters@.take(i - 1))[j]);
                    }
                }
                assert(told =~= owed);
            }
        }
        assert(self.filters@.take(i as int) =~= self.filters@);
        let mut out = intersperse(lines, "\n");
        out.append("\n\nField: ");
        out.append(self.mapper.describe().as_str());
        out.append("\nStat: ");
        out.append(self.reducer.describe().as_str());
        out.append("\nComparison: ");
        out.append(self.comparison.describe().as_str());
        out
    }
}

} // verus!
