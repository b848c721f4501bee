//! The alerts of one event: which stored alerts are asked for, which of the
//! answers can be used, and which of those the event's listings match.

use crate::scalar::Scalar;
use crate::trigger::AlertTrigger;
use crate::universalis::{Listing, MAX_LISTINGS};
use vstd::prelude::*;

verus! {

/// The oldest version of the trigger encoding that is understood.
pub const MIN_TRIGGER_VERSION: i32 = 0;

/// The newest version of the trigger encoding that is understood.
pub const MAX_TRIGGER_VERSION: i32 = 0;

/// The item identifier under which alerts for every item are stored.
pub const ANY_ITEM: i32 = -1;

/// An alert as it is stored: whose it is, what it is called, where its
/// notifications go, and its trigger as text.
#[derive(Debug)]
pub struct UserAlert {
    pub user_id: Option<String>,
    pub name: String,
    pub discord_webhook: Option<String>,
    pub trigger: String,
}

/// What the store is asked for: the alerts of one world that are set on one
/// item or on every item, with a trigger in a version that is understood.
#[derive(Debug, Clone, Copy, PartialEq, Eq, Structural)]
pub struct AlertQuery {
    pub world_id: i32,
    pub item_id: i32,
    pub any_item_id: i32,
    pub min_trigger_version: i32,
    pub max_trigger_version: i32,
}

impl AlertQuery {
    /// Whether the query asks for an alert that is stored under these keys.
    pub open spec fn selects(self, world_id: i32, item_id: i32, trigger_version: i32) -> bool {
        &&& world_id == self.world_id
        &&& (item_id == self.item_id || item_id == self.any_item_id)
        &&& self.min_trigger_version <= trigger_version <= self.max_trigger_version
    }

    /// The query for the alerts that an event on this world and item can
    /// set off.
    pub fn new(world_id: i32, item_id: i32) -> (r: AlertQuery)
        ensures
            r == (AlertQuery {
                world_id,
                item_id,
                any_item_id: ANY_ITEM,
                min_trigger_version: MIN_TRIGGER_VERSION,
                max_trigger_version: MAX_TRIGGER_VERSION,
            }),
    {
        AlertQuery {
            world_id,
            item_id,
            any_item_id: ANY_ITEM,
            min_trigger_version: MIN_TRIGGER_VERSION,
            max_trigger_version: MAX_TRIGGER_VERSION,
        }
    }

    /// Whether the query asks for an alert that is stored under these keys.
    pub fn matches(&self, world_id: i32, item_id: i32, trigger_version: i32) -> (r: bool)
        ensures
            r == self.selects(world_id, item_id, trigger_version),
    {
        world_id == self.world_id && (item_id == self.item_id || item_id == self.any_item_id)
            && self.min_trigger_version <= trigger_version && trigger_version
            <= self.max_trigger_version
    }
}

/// The alerts whose trigger could be read, each with its trigger, in the
/// order of the rows.
pub open spec fn readable(rows: Seq<(UserAlert, Option<AlertTrigger>)>) -> Seq<
    (UserAlert, AlertTrigger),
>
    decreases rows.len(),
{
    if rows.len() == 0 {
        Seq::empty()
    } else {
        match rows.last().1 {
            Some(trigger) => readable(rows.drop_last()).push((rows.last().0, trigger)),
            None => readable(rows.drop_last()),
        }
    }
}

/// Keeps the alerts whose trigger could be read, and passes over the others.
pub fn collect_readable(rows: Vec<(UserAlert, Option<AlertTrigger>)>) -> (alerts: Vec<
    (UserAlert, AlertTrigger),
>)
    ensures
        alerts@ == readable(rows@),
{
    let ghost all = rows@;
    let mut alerts: Vec<(UserAlert, AlertTrigger)> = Vec::new();
    assert(all.take(0) =~= Seq::empty());
    for row in it: rows
        invariant
            it.seq() == all,
            alerts@ == readable(all.take(it.index() as int)),
    {
        proof {
            assert(all.take(it.index() + 1).drop_last() =~= all.take(it.index() as int));
        }
        match row.1 {
            Some(trigger) => {
                alerts.push((row.0, trigger));
            },
            None => {},
        }
    }
    assert(all.take(all.len() as int) =~= all);
    alerts
}

/// A row whose trigger could not be read changes nothing for the others:
/// the readable alerts are what they would be without that row.
pub proof fn lemma_unreadable_row_is_passed_over(
    rows: Seq<(UserAlert, Option<AlertTrigger>)>,
    i: int,
)
    requires
        0 <= i < rows.len(),
        rows[i].1 is None,
    ensures
        readable(rows) == readable(rows.remove(i)),
    decreases rows.len(),
{
    if i == rows.len() - 1 {
        assert(rows.remove(i) =~= rows.drop_last());
    } else {
        lemma_unreadable_row_is_passed_over(rows.drop_last(), i);
        assert(rows.remove(i).drop_last() =~= rows.drop_last().remove(i));
        assert(rows.remove(i).last() == rows.last());
    }
}

/// Every alert whose trigger could be read is kept, whatever the other rows
/// hold.
pub proof fn lemma_readable_row_is_kept(rows: Seq<(UserAlert, Option<AlertTrigger>)>, i: int)
    requires
        0 <= i < rows.len(),
        rows[i].1 is Some,
    ensures
        readable(rows).contains((rows[i].0, rows[i].1->0)),
    decreases rows.len(),
{
    let kept = readable(rows.drop_last());
    if i == rows.len() - 1 {
        assert(readable(rows).last() == (rows[i].0, rows[i].1->0));
    } else {
        lemma_readable_row_is_kept(rows.drop_last(), i);
        let k = choose|k: int| 0 <= k < kept.len() && kept[k] == (rows[i].0, rows[i].1->0);
        assert(readable(rows)[k] == kept[k]);
    }
}

/// The alerts that the listings set off, each with its trigger and the
/// number that the trigger reached, in the order of the alerts.
pub open spec fn matched(alerts: Seq<(UserAlert, AlertTrigger)>, listings: Seq<Listing>) -> Seq<
    (UserAlert, AlertTrigger, real),
>
    decreases alerts.len(),
{
    if alerts.len() == 0 {
        Seq::empty()
    } else {
        match alerts.last().1.outcome(listings) {
            Some(value) => matched(alerts.drop_last(), listings).push(
                (alerts.last().0, alerts.last().1, value),
            ),
            None => matched(alerts.drop_last(), listings),
        }
    }
}

/// Whether the matches hold, one for one, the same alerts and triggers and
/// the same numbers as the modelled ones.
pub open spec fn same_matches(
    found: Seq<(UserAlert, AlertTrigger, Scalar)>,
    owed: Seq<(UserAlert, AlertTrigger, real)>,
) -> bool {
    &&& found.len() == owed.len()
    &&& forall|j: int|
        0 <= j < found.len() ==> {
            &&& (#[trigger] found[j]).0 == owed[j].0
            &&& found[j].1 == owed[j].1
            &&& found[j].2.wf()
            &&& found[j].2@ == owed[j].2
        }
}

/// Evaluates every trigger on the listings and keeps the alerts whose
/// trigger gives a number, with that number.
pub fn match_alerts(alerts: Vec<(UserAlert, AlertTrigger)>, listings: &[Listing]) -> (found: Vec<
    (UserAlert, AlertTrigger, Scalar),
>)
    requires
        listings.len() <= MAX_LISTINGS,
    ensures
        same_matches(found@, matched(alerts@, listings@)),
{
    let ghost all = alerts@;
    let mut found: Vec<(UserAlert, AlertTrigger, Scalar)> = Vec::new();
    assert(all.take(0) =~= Seq::empty());
    for pair in it: alerts
        invariant
            it.seq() == all,
            listings.len() <= MAX_LISTINGS,
            same_matches(found@, matched(all.take(it.index() as int), listings@)),
    {
        proof {
            assert(all.take(it.index() + 1).drop_last() =~= all.take(it.index() as int));
        }
        let ghost before = found@;
        let trigger_result = pair.1.evaluate(listings);
        match trigger_result {
            Some(value) => {
                found.push((pair.0, pair.1, value));
                proof {
                    let owed = matched(all.take(it.index() + 1), listings@);
                    assert forall|j: int| 0 <= j < found@.len() implies {
                        &&& (#[trigger] found@[j]).0 == owed[j].0
                        &&& found@[j].1 == owed[j].1
                        &&& found@[j].2.wf()
                        &&& found@[j].2@ == owed[j].2
                    } by {
                        if j < before.len() {
                            assert(found@[j] == before[j]);
                        }
                    }
                }
            },
            None => {},
        }
    }
    assert(all.take(all.len() as int) =~= all);
    found
}

} // verus!
